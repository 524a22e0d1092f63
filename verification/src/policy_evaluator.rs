use vstd::prelude::*;

use itertools::Itertools;

use crate::model::{spec_get_id, AttributeType, AttributeTypeV, TerraformBlock, TerraformBlockV};
use crate::policies::{
    filters_view, lemma_filters_view, spec_match_eq, Filter, FilterV, Policies, Policy, PolicyV,
};
use crate::query::{jmespath_query, spec_jmespath_query, TFQueryResult, TFQueryResultV};
use crate::text::{lemma_strs_view, strs_view};

verus! {

broadcast use vstd::std_specs::vec::group_vec_axioms;

/// A filter together with whether it held for one resource.
#[derive(Debug, PartialEq, Clone)]
pub struct FilterResult {
    pub filter: Filter,
    pub result: bool,
}

pub struct FilterResultV {
    pub filter: FilterV,
    pub result: bool,
}

impl View for FilterResult {
    type V = FilterResultV;

    open spec fn view(&self) -> FilterResultV {
        FilterResultV { filter: self.filter@, result: self.result }
    }
}

impl FilterResult {
    pub fn new(filter: Filter, result: bool) -> (r: FilterResult)
        ensures
            r@ == (FilterResultV { filter: filter@, result }),
    {
        FilterResult { filter, result }
    }
}

/// One policy's verdict on one resource: the per-filter results and their
/// conjunction.
#[derive(Debug, PartialEq, Clone)]
pub struct PolicyResult {
    pub filters: Vec<FilterResult>,
    pub policy_id: String,
    pub policy_result: bool,
}

pub struct PolicyResultV {
    pub filters: Seq<FilterResultV>,
    pub policy_id: Seq<char>,
    pub policy_result: bool,
}

pub open spec fn frs_view(s: Seq<FilterResult>) -> Seq<FilterResultV>
    decreases s,
{
    if s.len() == 0 {
        Seq::empty()
    } else {
        seq![s[0]@] + frs_view(s.drop_first())
    }
}

pub proof fn lemma_frs_view(s: Seq<FilterResult>)
    ensures
        frs_view(s).len() == s.len(),
        forall|i: int| 0 <= i < s.len() ==> #[trigger] frs_view(s)[i] == s[i]@,
    decreases s,
{
    if s.len() > 0 {
        lemma_frs_view(s.drop_first());
        assert forall|i: int| 0 <= i < s.len() implies #[trigger] frs_view(s)[i] == s[i]@ by {
            if i > 0 {
                assert(frs_view(s.drop_first())[i - 1] == s.drop_first()[i - 1]@);
            }
        }
    }
}

impl View for PolicyResult {
    type V = PolicyResultV;

    open spec fn view(&self) -> PolicyResultV {
        PolicyResultV {
            filters: frs_view(self.filters@),
            policy_id: self.policy_id@,
            policy_result: self.policy_result,
        }
    }
}

impl PolicyResult {
    pub fn new(filters: Vec<FilterResult>, policy_id: String, policy_result: bool) -> (r:
        PolicyResult)
        ensures
            r@ == (PolicyResultV {
                filters: frs_view(filters@),
                policy_id: policy_id@,
                policy_result,
            }),
    {
        PolicyResult { filters, policy_id, policy_result }
    }
}

/// The distinct resource types named by the policies, first occurrences
/// first.
pub open spec fn spec_unique(s: Seq<Seq<char>>) -> Seq<Seq<char>>
    decreases s,
{
    if s.len() == 0 {
        Seq::empty()
    } else {
        let front = s.drop_last();
        spec_unique(front) + if front.contains(s.last()) {
            Seq::empty()
        } else {
            seq![s.last()]
        }
    }
}

/// Relies on itertools' `unique` iterator adaptor: it yields the elements
/// that have not been produced before, in first-occurrence order.
#[verifier::external_body]
fn unique_strings(items: Vec<String>) -> (r: Vec<String>)
    ensures
        strs_view(r@) == spec_unique(strs_view(items@)),
{
    items.into_iter().unique().collect()
}

/// The `resource` field of each policy, in order.
pub open spec fn spec_policy_targets(ps: Seq<PolicyV>) -> Seq<Seq<char>>
    decreases ps,
{
    if ps.len() == 0 {
        Seq::empty()
    } else {
        seq![ps[0].resource] + spec_policy_targets(ps.drop_first())
    }
}

pub open spec fn policies_view(ps: Seq<Policy>) -> Seq<PolicyV>
    decreases ps,
{
    if ps.len() == 0 {
        Seq::empty()
    } else {
        seq![ps[0]@] + policies_view(ps.drop_first())
    }
}

pub proof fn lemma_policies_view(ps: Seq<Policy>)
    ensures
        policies_view(ps).len() == ps.len(),
        forall|i: int| 0 <= i < ps.len() ==> #[trigger] policies_view(ps)[i] == ps[i]@,
    decreases ps,
{
    if ps.len() > 0 {
        lemma_policies_view(ps.drop_first());
        assert forall|i: int| 0 <= i < ps.len() implies #[trigger] policies_view(ps)[i]
            == ps[i]@ by {
            if i > 0 {
                assert(policies_view(ps.drop_first())[i - 1] == ps.drop_first()[i - 1]@);
            }
        }
    }
}

proof fn lemma_policy_targets(ps: Seq<Policy>)
    ensures
        spec_policy_targets(policies_view(ps)).len() == ps.len(),
        forall|i: int|
            0 <= i < ps.len() ==> #[trigger] spec_policy_targets(policies_view(ps))[i]
                == ps[i].resource@,
    decreases ps,
{
    lemma_policies_view(ps);
    if ps.len() > 0 {
        lemma_policy_targets(ps.drop_first());
        assert(policies_view(ps).drop_first() =~= policies_view(ps.drop_first()));
        assert forall|i: int| 0 <= i < ps.len() implies #[trigger] spec_policy_targets(
            policies_view(ps),
        )[i] == ps[i].resource@ by {
            if i > 0 {
                assert(spec_policy_targets(policies_view(ps.drop_first()))[i - 1]
                    == ps.drop_first()[i - 1].resource@);
            }
        }
    }
}

/// The distinct resource types the policies cover.
pub fn extract_policy_targets(policies: &Policies) -> (r: Vec<String>)
    ensures
        strs_view(r@) == spec_unique(spec_policy_targets(policies_view(policies.policies@))),
{
    proof {
        lemma_policy_targets(policies.policies@);
    }
    let mut result: Vec<String> = Vec::new();
    let n = policies.policies.len();
    let mut i: usize = 0;
    while i < n
        invariant
            i <= n,
            n == policies.policies@.len(),
            result@.len() == i,
            forall|j: int|
                0 <= j < i ==> (#[trigger] result@[j])@ == policies.policies@[j].resource@,
        decreases n - i,
    {
        result.push(policies.policies[i].resource.clone());
        i = i + 1;
    }
    proof {
        lemma_strs_view(result@);
        lemma_policy_targets(policies.policies@);
        assert(strs_view(result@) =~= spec_policy_targets(policies_view(policies.policies@)));
    }
    unique_strings(result)
}

/// The verdict of one filter against a scalar query match: the same
/// equality the filter language uses.
pub open spec fn spec_evaluate_filter(f: FilterV, a: AttributeTypeV) -> FilterResultV {
    FilterResultV { filter: f, result: spec_match_eq(f.value, a) }
}

/// Hold one filter against one matched value.
pub fn evaluate_filter(filter: &Filter, attribute_type: AttributeType) -> (r: FilterResult)
    requires
        filter.value@.len() < 0x1000_0000_0000,
    ensures
        r@ == spec_evaluate_filter(filter@, attribute_type@),
{
    let tfr = TFQueryResult::Scalar(attribute_type);
    let result = match &tfr {
        TFQueryResult::Scalar(a) => crate::policies::match_eq(&filter.value, a),
        _ => false,
    };
    FilterResult { filter: filter.clone(), result }
}

/// One filter's verdict inside a policy: a scalar match is compared, a
/// list or a miss fails the filter.
pub open spec fn spec_policy_filter(f: FilterV, b: TerraformBlockV) -> FilterResultV {
    let qr = if b is WithTwoIdentifiers {
        spec_jmespath_query(b, f.key)
    } else {
        TFQueryResultV::Missing
    };
    match qr {
        TFQueryResultV::Scalar(a) => spec_evaluate_filter(f, a),
        _ => FilterResultV { filter: f, result: false },
    }
}

pub open spec fn spec_policy_filters(fs: Seq<FilterV>, b: TerraformBlockV) -> Seq<FilterResultV>
    decreases fs,
{
    if fs.len() == 0 {
        Seq::empty()
    } else {
        seq![spec_policy_filter(fs[0], b)] + spec_policy_filters(fs.drop_first(), b)
    }
}

pub open spec fn spec_all_passed(frs: Seq<FilterResultV>) -> bool {
    forall|i: int| 0 <= i < frs.len() ==> (#[trigger] frs[i]).result
}

/// One policy's verdict on one resource.
pub open spec fn spec_evaluate_policy(p: PolicyV, b: TerraformBlockV) -> PolicyResultV {
    let frs = spec_policy_filters(p.filters, b);
    PolicyResultV { filters: frs, policy_id: p.name, policy_result: spec_all_passed(frs) }
}

/// Hold every filter of `policy` against `resource`; the policy passes
/// when all filters do.
pub fn evaluate_policy(policy: &Policy, resource: &TerraformBlock) -> (r: PolicyResult)
    requires
        forall|i: int|
            0 <= i < policy.filters@.len() ==> (#[trigger] policy.filters@[i]).value@.len()
                < 0x1000_0000_0000,
        forall|i: int|
            0 <= i < policy.filters@.len() ==> (#[trigger] policy.filters@[i]).key@.len()
                < 0x1000_0000_0000,
    ensures
        r@ == spec_evaluate_policy(policy@, resource@),
{
    proof {
        lemma_filters_view(policy.filters@);
    }
    let mut filters: Vec<FilterResult> = Vec::new();
    let n = policy.filters.len();
    let mut i: usize = 0;
    while i < n
        invariant
            i <= n,
            n == policy.filters@.len(),
            forall|j: int|
                0 <= j < n ==> (#[trigger] policy.filters@[j]).value@.len() < 0x1000_0000_0000,
            forall|j: int|
                0 <= j < n ==> (#[trigger] policy.filters@[j]).key@.len() < 0x1000_0000_0000,
            forall|j: int|
                0 <= j < n ==> #[trigger] filters_view(policy.filters@)[j]
                    == policy.filters@[j]@,
            filters_view(policy.filters@).len() == n,
            filters@.len() == i,
            forall|j: int|
                0 <= j < i ==> (#[trigger] filters@[j])@ == spec_policy_filter(
                    filters_view(policy.filters@)[j],
                    resource@,
                ),
        decreases n - i,
    {
        let filter = &policy.filters[i];
        let query_result = match resource {
            TerraformBlock::WithTwoIdentifiers(tf_block) => jmespath_query(
                tf_block,
                filter.key.as_str(),
            ),
            _ => TFQueryResult::Missing,
        };
        let fr = match query_result {
            TFQueryResult::Scalar(attribute_type) => evaluate_filter(filter, attribute_type),
            _ => FilterResult { filter: filter.clone(), result: false },
        };
        filters.push(fr);
        i = i + 1;
    }
    let combined_result = all_passed(&filters);
    proof {
        lemma_frs_view(filters@);
        lemma_spec_policy_filters(filters_view(policy.filters@), resource@);
        assert(frs_view(filters@) =~= spec_policy_filters(
            filters_view(policy.filters@),
            resource@,
        ));
    }
    PolicyResult { filters, policy_id: policy.name.clone(), policy_result: combined_result }
}

proof fn lemma_spec_policy_filters(fs: Seq<FilterV>, b: TerraformBlockV)
    ensures
        spec_policy_filters(fs, b).len() == fs.len(),
        forall|i: int|
            0 <= i < fs.len() ==> #[trigger] spec_policy_filters(fs, b)[i] == spec_policy_filter(
                fs[i],
                b,
            ),
    decreases fs,
{
    if fs.len() > 0 {
        lemma_spec_policy_filters(fs.drop_first(), b);
        assert forall|i: int| 0 <= i < fs.len() implies #[trigger] spec_policy_filters(fs, b)[i]
            == spec_policy_filter(fs[i], b) by {
            if i > 0 {
                assert(spec_policy_filters(fs.drop_first(), b)[i - 1] == spec_policy_filter(
                    fs.drop_first()[i - 1],
                    b,
                ));
            }
        }
    }
}

fn all_passed(filters: &Vec<FilterResult>) -> (r: bool)
    ensures
        r == spec_all_passed(frs_view(filters@)),
{
    proof {
        lemma_frs_view(filters@);
    }
    let n = filters.len();
    let mut i: usize = 0;
    while i < n
        invariant
            i <= n,
            n == filters@.len(),
            frs_view(filters@).len() == n,
            forall|j: int| 0 <= j < n ==> #[trigger] frs_view(filters@)[j] == filters@[j]@,
            forall|j: int| 0 <= j < i ==> (#[trigger] frs_view(filters@)[j]).result,
        decreases n - i,
    {
        if !filters[i].result {
            proof {
                assert(!(frs_view(filters@)[i as int]).result);
            }
            return false;
        }
        i = i + 1;
    }
    true
}


/// The view of the accumulated results: resource id to the failed policy
/// verdicts recorded for it, in first-insertion order.
pub open spec fn results_view(m: Seq<(String, Vec<PolicyResult>)>) -> Seq<
    (Seq<char>, Seq<PolicyResultV>),
>
    decreases m,
{
    if m.len() == 0 {
        Seq::empty()
    } else {
        seq![(m[0].0@, prs_view(m[0].1@))] + results_view(m.drop_first())
    }
}

pub open spec fn prs_view(s: Seq<PolicyResult>) -> Seq<PolicyResultV>
    decreases s,
{
    if s.len() == 0 {
        Seq::empty()
    } else {
        seq![s[0]@] + prs_view(s.drop_first())
    }
}

pub proof fn lemma_prs_view(s: Seq<PolicyResult>)
    ensures
        prs_view(s).len() == s.len(),
        forall|i: int| 0 <= i < s.len() ==> #[trigger] prs_view(s)[i] == s[i]@,
    decreases s,
{
    if s.len() > 0 {
        lemma_prs_view(s.drop_first());
        assert forall|i: int| 0 <= i < s.len() implies #[trigger] prs_view(s)[i] == s[i]@ by {
            if i > 0 {
                assert(prs_view(s.drop_first())[i - 1] == s.drop_first()[i - 1]@);
            }
        }
    }
}

pub proof fn lemma_results_view(m: Seq<(String, Vec<PolicyResult>)>)
    ensures
        results_view(m).len() == m.len(),
        forall|i: int|
            0 <= i < m.len() ==> #[trigger] results_view(m)[i] == (m[i].0@, prs_view(m[i].1@)),
    decreases m,
{
    if m.len() > 0 {
        lemma_results_view(m.drop_first());
        assert forall|i: int| 0 <= i < m.len() implies #[trigger] results_view(m)[i] == (
        m[i].0@, prs_view(m[i].1@)) by {
            if i > 0 {
                assert(results_view(m.drop_first())[i - 1] == (
                    m.drop_first()[i - 1].0@,
                    prs_view(m.drop_first()[i - 1].1@),
                ));
            }
        }
    }
}

/// Record one verdict under a resource id: appended to the id's existing
/// entry, or opening a new entry at the end.
pub open spec fn spec_results_add(
    m: Seq<(Seq<char>, Seq<PolicyResultV>)>,
    k: Seq<char>,
    v: PolicyResultV,
) -> Seq<(Seq<char>, Seq<PolicyResultV>)>
    decreases m,
{
    if m.len() == 0 {
        seq![(k, seq![v])]
    } else if m[0].0 == k {
        seq![(m[0].0, m[0].1 + seq![v])] + m.drop_first()
    } else {
        seq![m[0]] + spec_results_add(m.drop_first(), k, v)
    }
}

/// The resources whose first identifier is the target resource type.
pub open spec fn spec_matching_resources(target: Seq<char>, rs: Seq<TerraformBlockV>) -> Seq<
    TerraformBlockV,
>
    decreases rs,
{
    if rs.len() == 0 {
        Seq::empty()
    } else {
        let keep = match rs[0] {
            TerraformBlockV::NoIdentifiers { .. } => false,
            TerraformBlockV::WithOneIdentifier { first_identifier, .. } => first_identifier
                == target,
            TerraformBlockV::WithTwoIdentifiers { first_identifier, .. } => first_identifier
                == target,
        };
        (if keep {
            seq![rs[0]]
        } else {
            Seq::empty()
        }) + spec_matching_resources(target, rs.drop_first())
    }
}

/// One policy held against every matching resource, failed verdicts
/// recorded in order.
pub open spec fn spec_eval_resources(
    p: PolicyV,
    rs: Seq<TerraformBlockV>,
    m: Seq<(Seq<char>, Seq<PolicyResultV>)>,
) -> Seq<(Seq<char>, Seq<PolicyResultV>)>
    decreases rs,
{
    if rs.len() == 0 {
        m
    } else {
        let pr = spec_evaluate_policy(p, rs[0]);
        let m2 = if !pr.policy_result {
            spec_results_add(m, spec_get_id(rs[0]), pr)
        } else {
            m
        };
        spec_eval_resources(p, rs.drop_first(), m2)
    }
}

/// Every policy, in order, held against its matching resources.
pub open spec fn spec_eval_policies(
    ps: Seq<PolicyV>,
    rs: Seq<TerraformBlockV>,
    m: Seq<(Seq<char>, Seq<PolicyResultV>)>,
) -> Seq<(Seq<char>, Seq<PolicyResultV>)>
    decreases ps,
{
    if ps.len() == 0 {
        m
    } else {
        spec_eval_policies(
            ps.drop_first(),
            rs,
            spec_eval_resources(ps[0], spec_matching_resources(ps[0].resource, rs), m),
        )
    }
}

/// What `evaluate` returns: for each resource, the policies that failed
/// on it, keyed by the resource's id.
pub open spec fn spec_evaluate(ps: Seq<PolicyV>, rs: Seq<TerraformBlockV>) -> Seq<
    (Seq<char>, Seq<PolicyResultV>),
> {
    spec_eval_policies(ps, rs, Seq::empty())
}

/// A `requires`-shaped bound on every filter string of every policy.
pub open spec fn policies_bounded(ps: Seq<Policy>) -> bool {
    forall|i: int, j: int|
        0 <= i < ps.len() && 0 <= j < (#[trigger] ps[i]).filters@.len() ==> (
        #[trigger] ps[i].filters@[j]).value@.len() < 0x1000_0000_0000 && ps[i].filters@[j].key@.len()
            < 0x1000_0000_0000
}

fn results_add(
    m: &mut Vec<(String, Vec<PolicyResult>)>,
    k: String,
    v: PolicyResult,
)
    ensures
        results_view(final(m)@) == spec_results_add(results_view(old(m)@), k@, v@),
    decreases old(m)@.len(),
{
    proof {
        lemma_results_view(m@);
    }
    let ghost gm = m@;
    let ghost gk = k@;
    let ghost gv = v@;
    if m.len() == 0 {
        let mut entry: Vec<PolicyResult> = Vec::new();
        let ghost gventry = v;
        entry.push(v);
        proof {
            assert(entry@ =~= seq![gventry]);
            assert(entry@.drop_first() =~= Seq::<PolicyResult>::empty());
            assert(prs_view(Seq::<PolicyResult>::empty()) =~= Seq::<PolicyResultV>::empty());
            assert(prs_view(entry@) =~= seq![gv]);
        }
        let ghost gkey = k;
        m.push((k, entry));
        proof {
            assert(m@.drop_first() =~= Seq::<(String, Vec<PolicyResult>)>::empty());
            assert(results_view(Seq::<(String, Vec<PolicyResult>)>::empty()) =~= Seq::<
                (Seq<char>, Seq<PolicyResultV>),
            >::empty());
            assert(results_view(m@) =~= seq![(gk, seq![gv])]);
        }
    } else {
        let head_matches = m[0].0.eq(&k);
        if head_matches {
            let mut entry = m.remove(0);
            let ghost gentry = entry.1@;
            entry.1.push(v);
            proof {
                lemma_prs_view(entry.1@);
                lemma_prs_view(gentry);
                assert(entry.1@ =~= gentry + seq![v]);
                assert(prs_view(entry.1@) =~= prs_view(gentry) + seq![gv]);
            }
            let ghost grest = m@;
            let ghost gentry2 = entry;
            m.insert(0, entry);
            proof {
                assert(m@ =~= seq![gentry2] + grest);
                assert(m@.drop_first() =~= grest);
                assert(grest =~= gm.drop_first());
                assert(m@[0] == gentry2);
                assert(results_view(m@) == seq![(gentry2.0@, prs_view(gentry2.1@))]
                    + results_view(grest));
                assert(results_view(gm) == seq![(gm[0].0@, prs_view(gm[0].1@))] + results_view(
                    gm.drop_first(),
                ));
                assert(results_view(gm)[0] == (gm[0].0@, prs_view(gm[0].1@)));
                assert(results_view(gm).drop_first() =~= results_view(gm.drop_first()));
                assert(gentry2.0@ == gm[0].0@);
                assert(results_view(m@) =~= spec_results_add(results_view(gm), gk, gv));
            }
        } else {
            let head = m.remove(0);
            proof {
                assert(m@ =~= gm.drop_first());
            }
            results_add(m, k, v);
            let ghost ghead = head;
            let ghost grest2 = m@;
            m.insert(0, head);
            proof {
                assert(m@ =~= seq![ghead] + grest2);
                assert(m@.drop_first() =~= grest2);
                assert(m@[0] == ghead);
                assert(ghead == gm[0]);
                assert(results_view(m@) == seq![(ghead.0@, prs_view(ghead.1@))] + results_view(
                    grest2,
                ));
                assert(results_view(gm) == seq![(gm[0].0@, prs_view(gm[0].1@))] + results_view(
                    gm.drop_first(),
                ));
                assert(results_view(gm)[0] == (gm[0].0@, prs_view(gm[0].1@)));
                assert(results_view(gm).drop_first() =~= results_view(gm.drop_first()));
                assert(results_view(m@) =~= spec_results_add(results_view(gm), gk, gv));
            }
        }
    }
}

fn matching_resources<'a>(target: &String, resources: &'a Vec<TerraformBlock>) -> (r: Vec<
    &'a TerraformBlock,
>)
    ensures
        tfb_ref_view(r@) == spec_matching_resources(
            target@,
            crate::model::tfb_seq_view(resources@),
        ),
{
    proof {
        crate::model::lemma_tfb_seq_view(resources@);
    }
    let mut out: Vec<&TerraformBlock> = Vec::new();
    let n = resources.len();
    let mut i: usize = 0;
    proof {
        assert(tfb_ref_view(out@) =~= Seq::<TerraformBlockV>::empty());
        assert(spec_matching_resources(
            target@,
            crate::model::tfb_seq_view(resources@).subrange(0, 0),
        ) =~= Seq::<TerraformBlockV>::empty());
    }
    while i < n
        invariant
            i <= n,
            n == resources@.len(),
            crate::model::tfb_seq_view(resources@).len() == n,
            forall|j: int|
                0 <= j < n ==> #[trigger] crate::model::tfb_seq_view(resources@)[j]
                    == crate::model::tfb_view(resources@[j]),
            tfb_ref_view(out@) == spec_matching_resources(
                target@,
                crate::model::tfb_seq_view(resources@).subrange(0, i as int),
            ),
        decreases n - i,
    {
        let resource = &resources[i];
        let keep = match resource {
            TerraformBlock::NoIdentifiers(_) => false,
            TerraformBlock::WithOneIdentifier(tf_block) => tf_block.first_identifier.eq(target),
            TerraformBlock::WithTwoIdentifiers(tf_block) => tf_block.first_identifier.eq(target),
        };
        let ghost gout = out@;
        if keep {
            out.push(resource);
        }
        proof {
            lemma_matching_snoc(
                target@,
                crate::model::tfb_seq_view(resources@),
                i as int,
            );
            lemma_tfb_ref_view(gout);
            lemma_tfb_ref_view(out@);
            let ghost elem = crate::model::tfb_seq_view(resources@)[i as int];
            assert(seq![elem].drop_first() =~= Seq::<TerraformBlockV>::empty());
            assert(spec_matching_resources(target@, Seq::<TerraformBlockV>::empty()) =~= Seq::<
                TerraformBlockV,
            >::empty());
            if keep {
                assert(out@.len() == gout.len() + 1);
                assert(*out@[out@.len() - 1] == resources@[i as int]);
                assert(tfb_ref_view(out@) =~= tfb_ref_view(gout) + seq![
                    crate::model::tfb_view(resources@[i as int]),
                ]);
            } else {
                assert(tfb_ref_view(out@) + Seq::<TerraformBlockV>::empty() =~= tfb_ref_view(
                    out@,
                ));
            }
        }
        i = i + 1;
    }
    proof {
        assert(crate::model::tfb_seq_view(resources@).subrange(0, n as int)
            =~= crate::model::tfb_seq_view(resources@));
    }
    out
}

pub open spec fn tfb_ref_view(s: Seq<&TerraformBlock>) -> Seq<TerraformBlockV>
    decreases s,
{
    if s.len() == 0 {
        Seq::empty()
    } else {
        seq![crate::model::tfb_view(*s[0])] + tfb_ref_view(s.drop_first())
    }
}

pub proof fn lemma_tfb_ref_view(s: Seq<&TerraformBlock>)
    ensures
        tfb_ref_view(s).len() == s.len(),
        forall|i: int|
            0 <= i < s.len() ==> #[trigger] tfb_ref_view(s)[i] == crate::model::tfb_view(*s[i]),
    decreases s,
{
    if s.len() > 0 {
        lemma_tfb_ref_view(s.drop_first());
        assert forall|i: int| 0 <= i < s.len() implies #[trigger] tfb_ref_view(s)[i]
            == crate::model::tfb_view(*s[i]) by {
            if i > 0 {
                assert(tfb_ref_view(s.drop_first())[i - 1] == crate::model::tfb_view(
                    *s.drop_first()[i - 1],
                ));
            }
        }
    }
}

proof fn lemma_matching_snoc(target: Seq<char>, rs: Seq<TerraformBlockV>, i: int)
    requires
        0 <= i < rs.len(),
    ensures
        spec_matching_resources(target, rs.subrange(0, i + 1)) == spec_matching_resources(
            target,
            rs.subrange(0, i),
        ) + spec_matching_resources(target, seq![rs[i]]),
    decreases i,
{
    lemma_matching_concat(target, rs.subrange(0, i), seq![rs[i]]);
    assert(rs.subrange(0, i + 1) =~= rs.subrange(0, i) + seq![rs[i]]);
}

proof fn lemma_matching_concat(target: Seq<char>, a: Seq<TerraformBlockV>, b: Seq<
    TerraformBlockV,
>)
    ensures
        spec_matching_resources(target, a + b) == spec_matching_resources(target, a)
            + spec_matching_resources(target, b),
    decreases a,
{
    if a.len() == 0 {
        assert(a + b =~= b);
        assert(spec_matching_resources(target, a) =~= Seq::<TerraformBlockV>::empty());
        assert(spec_matching_resources(target, a + b) =~= spec_matching_resources(target, a)
            + spec_matching_resources(target, b));
    } else {
        lemma_matching_concat(target, a.drop_first(), b);
        assert((a + b).drop_first() =~= a.drop_first() + b);
        assert((a + b)[0] == a[0]);
        assert(spec_matching_resources(target, a + b) =~= spec_matching_resources(target, a)
            + spec_matching_resources(target, b));
    }
}

/// Hold every policy against every resource of its resource type; the
/// verdicts that failed are grouped by resource id.
pub fn evaluate(policies: Policies, resources: &Vec<TerraformBlock>) -> (r: Vec<
    (String, Vec<PolicyResult>),
>)
    requires
        policies_bounded(policies.policies@),
    ensures
        results_view(r@) == spec_evaluate(
            policies_view(policies.policies@),
            crate::model::tfb_seq_view(resources@),
        ),
{
    proof {
        lemma_policies_view(policies.policies@);
    }
    let mut results: Vec<(String, Vec<PolicyResult>)> = Vec::new();
    let np = policies.policies.len();
    let mut pi: usize = 0;
    proof {
        assert(results_view(results@) =~= Seq::<(Seq<char>, Seq<PolicyResultV>)>::empty());
        assert(policies_view(policies.policies@).subrange(0, np as int) =~= policies_view(
            policies.policies@,
        ));
    }
    while pi < np
        invariant
            pi <= np,
            np == policies.policies@.len(),
            policies_bounded(policies.policies@),
            policies_view(policies.policies@).len() == np,
            forall|j: int|
                0 <= j < np ==> #[trigger] policies_view(policies.policies@)[j]
                    == policies.policies@[j]@,
            spec_eval_policies(
                policies_view(policies.policies@).subrange(pi as int, np as int),
                crate::model::tfb_seq_view(resources@),
                results_view(results@),
            ) == spec_evaluate(
                policies_view(policies.policies@),
                crate::model::tfb_seq_view(resources@),
            ),
        decreases np - pi,
    {
        let policy = &policies.policies[pi];
        let filtered = matching_resources(&policy.resource, resources);
        let ghost gsub = policies_view(policies.policies@).subrange(pi as int, np as int);
        let ghost gres0 = results_view(results@);
        let nf = filtered.len();
        let mut ri: usize = 0;
        proof {
            lemma_tfb_ref_view(filtered@);
            assert(tfb_ref_view(filtered@).subrange(0, filtered@.len() as int) =~= tfb_ref_view(
                filtered@,
            ));
        }
        while ri < nf
            invariant
                ri <= nf,
                nf == filtered@.len(),
                policies_bounded(policies.policies@),
                pi < np,
                np == policies.policies@.len(),
                policy == &policies.policies@[pi as int],
                tfb_ref_view(filtered@).len() == nf,
                forall|j: int|
                    0 <= j < nf ==> #[trigger] tfb_ref_view(filtered@)[j]
                        == crate::model::tfb_view(*filtered@[j]),
                spec_eval_resources(
                    policies.policies@[pi as int]@,
                    tfb_ref_view(filtered@).subrange(ri as int, nf as int),
                    results_view(results@),
                ) == spec_eval_resources(
                    policies.policies@[pi as int]@,
                    tfb_ref_view(filtered@),
                    gres0,
                ),
            decreases nf - ri,
        {
            let resource = filtered[ri];
            let policy_results = evaluate_policy(policy, resource);
            let ghost gsubr = tfb_ref_view(filtered@).subrange(ri as int, nf as int);
            proof {
                assert(gsubr[0] == tfb_ref_view(filtered@)[ri as int]);
                assert(gsubr.drop_first() =~= tfb_ref_view(filtered@).subrange(
                    ri + 1,
                    nf as int,
                ));
            }
            if !policy_results.policy_result {
                let id = resource.get_id();
                results_add(&mut results, id, policy_results);
            }
            ri = ri + 1;
        }
        proof {
            assert(tfb_ref_view(filtered@).subrange(nf as int, nf as int) =~= Seq::<
                TerraformBlockV,
            >::empty());
            assert(gsub[0] == policies_view(policies.policies@)[pi as int]);
            assert(gsub.drop_first() =~= policies_view(policies.policies@).subrange(
                pi + 1,
                np as int,
            ));
        }
        pi = pi + 1;
    }
    proof {
        assert(policies_view(policies.policies@).subrange(np as int, np as int) =~= Seq::<
            PolicyV,
        >::empty());
    }
    results
}

} // verus!
