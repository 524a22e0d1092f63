use vstd::prelude::*;

use crate::model::{
    at_seq_view, at_view, attr_seq_view, jv_pairs_view, jv_seq_view, jv_view,
    spec_convert, Attribute, AttributeType, AttributeTypeV, AttributeV, JsonValue, JsonValueV,
    TerraformBlock, TerraformBlockV, TerraformBlockWithTwoIdentifiers,
};

verus! {

broadcast use vstd::std_specs::vec::group_vec_axioms;

/// One segment of a path expression: `name[]` projects over a collection,
/// `name` selects a single value.
#[derive(Debug, PartialEq, Clone)]
pub enum QueryPart {
    List(String),
    Scalar(String),
}

pub enum QueryPartV {
    List(Seq<char>),
    Scalar(Seq<char>),
}

impl View for QueryPart {
    type V = QueryPartV;

    open spec fn view(&self) -> QueryPartV {
        match self {
            QueryPart::List(s) => QueryPartV::List(s@),
            QueryPart::Scalar(s) => QueryPartV::Scalar(s@),
        }
    }
}

/// A parsed path expression: its segments in traversal order.
#[derive(Debug, PartialEq, Clone)]
pub struct JmespathExpression {
    pub path_parts: Vec<QueryPart>,
}

pub open spec fn qps_view(s: Seq<QueryPart>) -> Seq<QueryPartV>
    decreases s,
{
    if s.len() == 0 {
        Seq::empty()
    } else {
        seq![s[0]@] + qps_view(s.drop_first())
    }
}

pub proof fn lemma_qps_view(s: Seq<QueryPart>)
    ensures
        qps_view(s).len() == s.len(),
        forall|i: int| 0 <= i < s.len() ==> #[trigger] qps_view(s)[i] == s[i]@,
    decreases s,
{
    if s.len() > 0 {
        lemma_qps_view(s.drop_first());
        assert forall|i: int| 0 <= i < s.len() implies #[trigger] qps_view(s)[i] == s[i]@ by {
            if i > 0 {
                assert(qps_view(s.drop_first())[i - 1] == s.drop_first()[i - 1]@);
            }
        }
    }
}

impl View for JmespathExpression {
    type V = Seq<QueryPartV>;

    open spec fn view(&self) -> Seq<QueryPartV> {
        qps_view(self.path_parts@)
    }
}

/// The outcome of evaluating a path expression against a block.
#[derive(Debug, PartialEq)]
pub enum TFQueryResult {
    List(Vec<AttributeType>),
    Scalar(AttributeType),
    Missing,
}

pub enum TFQueryResultV {
    List(Seq<AttributeTypeV>),
    Scalar(AttributeTypeV),
    Missing,
}

impl View for TFQueryResult {
    type V = TFQueryResultV;

    open spec fn view(&self) -> TFQueryResultV {
        match self {
            TFQueryResult::List(vs) => TFQueryResultV::List(at_seq_view(vs@)),
            TFQueryResult::Scalar(v) => TFQueryResultV::Scalar(at_view(*v)),
            TFQueryResult::Missing => TFQueryResultV::Missing,
        }
    }
}

/// Position of the first `.` at or after `i`.
pub open spec fn dot_end(s: Seq<char>, i: int) -> int
    decreases s.len() - i,
{
    if 0 <= i < s.len() && s[i] != '.' {
        dot_end(s, i + 1)
    } else {
        i
    }
}

fn scan_dot(s: &Vec<char>, i: usize) -> (r: usize)
    requires
        i <= s@.len(),
    ensures
        r == dot_end(s@, i as int),
        i <= r <= s@.len(),
    decreases s@.len() - i,
{
    if i < s.len() && s[i] != '.' {
        scan_dot(s, i + 1)
    } else {
        i
    }
}

/// The dot-separated pieces of a path expression, from position `i`.
pub open spec fn spec_split_dots(s: Seq<char>, i: int) -> Seq<Seq<char>>
    decreases s.len() - i,
{
    if !(0 <= i <= s.len()) {
        Seq::empty()
    } else {
        let e = dot_end(s, i);
        if i <= e && e < s.len() {
            seq![s.subrange(i, e)] + spec_split_dots(s, e + 1)
        } else {
            seq![s.subrange(i, s.len() as int)]
        }
    }
}

/// How one piece reads as a segment: a `[]` suffix marks projection.
pub open spec fn spec_part(p: Seq<char>) -> QueryPartV {
    if p.len() >= 2 && p.subrange(p.len() - 2, p.len() as int) == "[]"@ {
        QueryPartV::List(p.subrange(0, p.len() - 2))
    } else {
        QueryPartV::Scalar(p)
    }
}

pub open spec fn spec_parts(ps: Seq<Seq<char>>) -> Seq<QueryPartV>
    decreases ps,
{
    if ps.len() == 0 {
        Seq::empty()
    } else {
        seq![spec_part(ps[0])] + spec_parts(ps.drop_first())
    }
}

/// What a path expression denotes: its pieces split on `.`, each marked
/// as projection or selection.
pub open spec fn spec_parse_jmespath(s: Seq<char>) -> Seq<QueryPartV> {
    spec_parts(spec_split_dots(s, 0))
}

fn parse_part(s: &Vec<char>, from: usize, to: usize) -> (r: QueryPart)
    requires
        from <= to <= s@.len(),
    ensures
        r@ == spec_part(s@.subrange(from as int, to as int)),
{
    proof {
        reveal_strlit("[]");
        assert(s.len() == s@.len());
    }
    proof {
        assert("[]"@ =~= seq!['[', ']']);
    }
    if to - from >= 2 && s[to - 2] == '[' && s[to - 1] == ']' {
        proof {
            let p = s@.subrange(from as int, to as int);
            assert(p[p.len() - 2] == s@[to - 2]);
            assert(p[p.len() - 1] == s@[to - 1]);
            assert(p.subrange(p.len() - 2, p.len() as int) =~= "[]"@);
            assert(p.subrange(0, p.len() - 2) =~= s@.subrange(from as int, to - 2));
        }
        QueryPart::List(crate::json_parser::copy_range(s, from, to - 2))
    } else {
        proof {
            let p = s@.subrange(from as int, to as int);
            if p.len() >= 2 && p.subrange(p.len() - 2, p.len() as int) == "[]"@ {
                assert(p.subrange(p.len() - 2, p.len() as int)[0] == p[p.len() - 2]);
                assert(p.subrange(p.len() - 2, p.len() as int)[1] == p[p.len() - 1]);
                assert(p[p.len() - 2] == s@[to - 2]);
                assert(p[p.len() - 1] == s@[to - 1]);
                assert(false);
            }
        }
        QueryPart::Scalar(crate::json_parser::copy_range(s, from, to))
    }
}

fn split_parts(s: &Vec<char>, i: usize) -> (r: Vec<QueryPart>)
    requires
        i <= s@.len(),
    ensures
        qps_view(r@) == spec_parts(spec_split_dots(s@, i as int)),
    decreases s@.len() - i,
{
    let e = scan_dot(s, i);
    if e < s.len() {
        let head = parse_part(s, i, e);
        let rest = split_parts(s, e + 1);
        let ghost gh = head;
        let ghost grest = rest@;
        let mut out = rest;
        out.insert(0, head);
        proof {
            assert(out@ =~= seq![gh] + grest);
            assert(out@.drop_first() =~= grest);
            assert(out@[0] == gh);
            assert(qps_view(out@) =~= seq![gh@] + qps_view(grest));
            let sd = spec_split_dots(s@, i as int);
            assert(sd == seq![s@.subrange(i as int, e as int)] + spec_split_dots(s@, e + 1));
            assert(sd[0] == s@.subrange(i as int, e as int));
            assert(sd.drop_first() =~= spec_split_dots(s@, e + 1));
            assert(spec_parts(sd) =~= seq![spec_part(sd[0])] + spec_parts(sd.drop_first()));
        }
        out
    } else {
        let head = parse_part(s, i, s.len());
        let ghost gh = head;
        let mut out: Vec<QueryPart> = Vec::new();
        out.push(head);
        proof {
            assert(out@ =~= seq![gh]);
            assert(out@.drop_first() =~= Seq::<QueryPart>::empty());
            assert(qps_view(Seq::<QueryPart>::empty()) =~= Seq::<QueryPartV>::empty());
            assert(qps_view(out@) =~= seq![gh@]);
            let sd = spec_split_dots(s@, i as int);
            assert(sd =~= seq![s@.subrange(i as int, s@.len() as int)]);
            assert(sd.drop_first() =~= Seq::<Seq<char>>::empty());
            assert(spec_parts(Seq::<Seq<char>>::empty()) =~= Seq::<QueryPartV>::empty());
            assert(sd[0] == s@.subrange(i as int, s@.len() as int));
            assert(spec_parts(sd) =~= seq![spec_part(sd[0])]);
        }
        out
    }
}

/// Split a path expression on `.`; a segment ending in `[]` projects over
/// a collection.
pub fn parse_jmespath(jmespath_expression: &str) -> (r: JmespathExpression)
    ensures
        r@ == spec_parse_jmespath(jmespath_expression@),
{
    let chars = crate::text::str_to_chars(jmespath_expression);
    let parts = split_parts(&chars, 0);
    JmespathExpression { path_parts: parts }
}

/// The name a segment matches against.
pub open spec fn qp_name(p: QueryPartV) -> Seq<char> {
    match p {
        QueryPartV::List(s) => s,
        QueryPartV::Scalar(s) => s,
    }
}

/// A matched value is flattened out of its JSON wrapper when returned.
pub open spec fn spec_unwrap(a: AttributeTypeV) -> AttributeTypeV {
    match a {
        AttributeTypeV::Json(j) => spec_convert(j),
        _ => a,
    }
}

/// Querying a two-identifier block: the first attribute whose key equals
/// the first segment's name is selected; with one segment left its value
/// is the match, otherwise the rest of the path descends into the value.
pub open spec fn spec_query_two(attrs: Seq<AttributeV>, parts: Seq<QueryPartV>) -> Seq<
    AttributeTypeV,
>
    decreases attrs,
{
    if parts.len() == 0 || attrs.len() == 0 {
        Seq::empty()
    } else if attrs[0].key == qp_name(parts[0]) {
        if parts.len() == 1 {
            seq![spec_unwrap(attrs[0].value)]
        } else {
            spec_query_at(attrs[0].value, parts.drop_first())
        }
    } else {
        spec_query_two(attrs.drop_first(), parts)
    }
}

/// Querying a value: blocks and arrays distribute the query over their
/// members and concatenate the matches; scalars are themselves the match.
pub open spec fn spec_query_at(a: AttributeTypeV, parts: Seq<QueryPartV>) -> Seq<AttributeTypeV>
    decreases a,
{
    match a {
        AttributeTypeV::TFBlock(b) => spec_query_block(b, parts),
        AttributeTypeV::Block(attrs) => spec_query_attrs_flat(attrs, parts),
        AttributeTypeV::Array(vs) => spec_query_elems_flat(vs, parts),
        AttributeTypeV::Json(j) => spec_query_json(j, parts),
        _ => seq![a],
    }
}

pub open spec fn spec_query_attrs_flat(attrs: Seq<AttributeV>, parts: Seq<QueryPartV>) -> Seq<
    AttributeTypeV,
>
    decreases attrs,
{
    if attrs.len() == 0 {
        Seq::empty()
    } else {
        spec_query_attr(attrs[0], parts) + spec_query_attrs_flat(attrs.drop_first(), parts)
    }
}

/// Querying one attribute: a key match selects or descends; a mismatch
/// contributes nothing.
pub open spec fn spec_query_attr(a: AttributeV, parts: Seq<QueryPartV>) -> Seq<AttributeTypeV>
    decreases a,
{
    if parts.len() == 0 {
        Seq::empty()
    } else if a.key == qp_name(parts[0]) {
        if parts.len() == 1 {
            seq![spec_unwrap(a.value)]
        } else {
            spec_query_at(a.value, parts.drop_first())
        }
    } else {
        Seq::empty()
    }
}

pub open spec fn spec_query_elems_flat(vs: Seq<AttributeTypeV>, parts: Seq<QueryPartV>) -> Seq<
    AttributeTypeV,
>
    decreases vs,
{
    if vs.len() == 0 {
        Seq::empty()
    } else {
        spec_query_at(vs[0], parts) + spec_query_elems_flat(vs.drop_first(), parts)
    }
}

/// Only two-identifier blocks are queryable; the others yield nothing.
pub open spec fn spec_query_block(b: TerraformBlockV, parts: Seq<QueryPartV>) -> Seq<
    AttributeTypeV,
>
    decreases b,
{
    match b {
        TerraformBlockV::WithTwoIdentifiers { attributes, .. } => spec_query_two(
            attributes,
            parts,
        ),
        _ => Seq::empty(),
    }
}

/// Querying inside an embedded JSON document, with each JSON node read as
/// its flattened attribute form.
pub open spec fn spec_query_json(j: JsonValueV, parts: Seq<QueryPartV>) -> Seq<AttributeTypeV>
    decreases j,
{
    match j {
        JsonValueV::Object(ps) => spec_query_jpairs_flat(ps, parts),
        JsonValueV::Array(vs) => spec_query_jarr_flat(vs, parts),
        _ => seq![spec_convert(j)],
    }
}

pub open spec fn spec_query_jpairs_flat(
    ps: Seq<(Seq<char>, JsonValueV)>,
    parts: Seq<QueryPartV>,
) -> Seq<AttributeTypeV>
    decreases ps,
{
    if ps.len() == 0 {
        Seq::empty()
    } else {
        spec_query_jpair(ps[0], parts) + spec_query_jpairs_flat(ps.drop_first(), parts)
    }
}

pub open spec fn spec_query_jpair(p: (Seq<char>, JsonValueV), parts: Seq<QueryPartV>) -> Seq<
    AttributeTypeV,
>
    decreases p,
{
    if parts.len() == 0 {
        Seq::empty()
    } else if p.0 == qp_name(parts[0]) {
        if parts.len() == 1 {
            seq![spec_convert(p.1)]
        } else {
            spec_query_json(p.1, parts.drop_first())
        }
    } else {
        Seq::empty()
    }
}

pub open spec fn spec_query_jarr_flat(vs: Seq<JsonValueV>, parts: Seq<QueryPartV>) -> Seq<
    AttributeTypeV,
>
    decreases vs,
{
    if vs.len() == 0 {
        Seq::empty()
    } else {
        spec_query_json(vs[0], parts) + spec_query_jarr_flat(vs.drop_first(), parts)
    }
}

/// Whether any segment of the expression is a projection.
pub open spec fn spec_has_list_part(parts: Seq<QueryPartV>) -> bool {
    exists|i: int| 0 <= i < parts.len() && parts[i] is List
}

/// The query result, classified: a projection anywhere in the expression
/// makes the result a list, a match without one is a scalar, and no match
/// at all is `None`.
pub open spec fn spec_jmespath_query(b: TerraformBlockV, e: Seq<char>) -> TFQueryResultV {
    let parts = spec_parse_jmespath(e);
    let res = spec_query_block(b, parts);
    if res.len() > 0 {
        if spec_has_list_part(parts) {
            TFQueryResultV::List(res)
        } else {
            TFQueryResultV::Scalar(res[0])
        }
    } else {
        TFQueryResultV::Missing
    }
}


/// `at_seq_view` distributes over concatenation.
pub proof fn lemma_at_view_concat(a: Seq<AttributeType>, b: Seq<AttributeType>)
    ensures
        at_seq_view(a + b) == at_seq_view(a) + at_seq_view(b),
{
    crate::model::lemma_at_seq_view(a);
    crate::model::lemma_at_seq_view(b);
    crate::model::lemma_at_seq_view(a + b);
    assert(at_seq_view(a + b) =~= at_seq_view(a) + at_seq_view(b));
}

/// Join two match lists.
fn concat_ats(a: Vec<AttributeType>, b: Vec<AttributeType>) -> (r: Vec<AttributeType>)
    ensures
        at_seq_view(r@) == at_seq_view(a@) + at_seq_view(b@),
{
    let ghost ga = a@;
    let ghost gb = b@;
    let mut out = a;
    let mut rest = b;
    out.append(&mut rest);
    proof {
        lemma_at_view_concat(ga, gb);
    }
    out
}

fn singleton_result(a: AttributeType) -> (r: Vec<AttributeType>)
    ensures
        at_seq_view(r@) == seq![at_view(a)],
{
    let ghost ga = a;
    let mut out: Vec<AttributeType> = Vec::new();
    out.push(a);
    proof {
        assert(out@ =~= seq![ga]);
        assert(out@.drop_first() =~= Seq::<AttributeType>::empty());
        assert(at_seq_view(Seq::<AttributeType>::empty()) =~= Seq::<AttributeTypeV>::empty());
        assert(at_seq_view(out@) =~= seq![at_view(ga)]);
    }
    out
}

fn empty_result() -> (r: Vec<AttributeType>)
    ensures
        at_seq_view(r@) == Seq::<AttributeTypeV>::empty(),
{
    let out: Vec<AttributeType> = Vec::new();
    proof {
        assert(at_seq_view(out@) =~= Seq::<AttributeTypeV>::empty());
    }
    out
}

/// The name a segment matches against.
fn part_name(p: &QueryPart) -> (r: &String)
    ensures
        r@ == qp_name(p@),
{
    match p {
        QueryPart::List(s) => s,
        QueryPart::Scalar(s) => s,
    }
}

fn clone_query_part(p: &QueryPart) -> (r: QueryPart)
    ensures
        r@ == p@,
{
    match p {
        QueryPart::List(s) => QueryPart::List(s.clone()),
        QueryPart::Scalar(s) => QueryPart::Scalar(s.clone()),
    }
}

/// The expression without its first segment.
fn tail_parts(parts: &Vec<QueryPart>) -> (r: Vec<QueryPart>)
    requires
        parts@.len() >= 1,
    ensures
        qps_view(r@) == qps_view(parts@).drop_first(),
{
    proof {
        lemma_qps_view(parts@);
    }
    let mut out: Vec<QueryPart> = Vec::new();
    let n = parts.len();
    let mut i: usize = 1;
    while i < n
        invariant
            1 <= i <= n,
            n == parts@.len(),
            out@.len() == i - 1,
            forall|j: int| 0 <= j < i - 1 ==> (#[trigger] out@[j])@ == parts@[j + 1]@,
        decreases n - i,
    {
        out.push(clone_query_part(&parts[i]));
        i = i + 1;
    }
    proof {
        lemma_qps_view(out@);
        assert(qps_view(out@) =~= qps_view(parts@).drop_first());
    }
    out
}

/// A matched value, with one JSON wrapper flattened away.
fn unwrap_value(a: &AttributeType) -> (r: AttributeType)
    ensures
        r@ == spec_unwrap(a@),
{
    match a {
        AttributeType::Json(j) => j.convert_to_attribute_type(),
        other => other.clone(),
    }
}

fn query_two_rec(attrs: &Vec<Attribute>, k: usize, parts: &Vec<QueryPart>) -> (r: Vec<
    AttributeType,
>)
    requires
        k <= attrs@.len(),
    ensures
        at_seq_view(r@) == spec_query_two(
            attr_seq_view(attrs@).subrange(k as int, attrs@.len() as int),
            qps_view(parts@),
        ),
    decreases attrs, attrs@.len() - k,
{
    proof {
        crate::model::lemma_attr_seq_view(attrs@);
        lemma_qps_view(parts@);
    }
    let ghost sub = attr_seq_view(attrs@).subrange(k as int, attrs@.len() as int);
    if parts.len() == 0 || k >= attrs.len() {
        let out = empty_result();
        return out;
    }
    let a = &attrs[k];
    proof {
        assert(sub[0] == attr_seq_view(attrs@)[k as int]);
        assert(sub.drop_first() =~= attr_seq_view(attrs@).subrange(k + 1, attrs@.len() as int));
    }
    let name = part_name(&parts[0]);
    if a.key.eq(name) {
        if parts.len() == 1 {
            singleton_result(unwrap_value(&a.value))
        } else {
            let tail = tail_parts(parts);
            query_at_rec(&a.value, &tail)
        }
    } else {
        query_two_rec(attrs, k + 1, parts)
    }
}

fn query_at_rec(a: &AttributeType, parts: &Vec<QueryPart>) -> (r: Vec<AttributeType>)
    ensures
        at_seq_view(r@) == spec_query_at(a@, qps_view(parts@)),
    decreases a,
{
    match a {
        AttributeType::TFBlock(b) => query_block_rec(b, parts),
        AttributeType::Block(attrs) => {
            let out = query_attrs_flat_rec(attrs, 0, parts);
            proof {
                crate::model::lemma_attr_seq_view(attrs@);
                assert(attr_seq_view(attrs@).subrange(0, attrs@.len() as int) =~= attr_seq_view(
                    attrs@,
                ));
            }
            out
        },
        AttributeType::Array(vs) => {
            let out = query_elems_flat_rec(vs, 0, parts);
            proof {
                crate::model::lemma_at_seq_view(vs@);
                assert(at_seq_view(vs@).subrange(0, vs@.len() as int) =~= at_seq_view(vs@));
            }
            out
        },
        AttributeType::Json(j) => query_json_rec(j, parts),
        _ => singleton_result(a.clone()),
    }
}

fn query_attr_rec(a: &Attribute, parts: &Vec<QueryPart>) -> (r: Vec<AttributeType>)
    ensures
        at_seq_view(r@) == spec_query_attr(a@, qps_view(parts@)),
    decreases a,
{
    proof {
        lemma_qps_view(parts@);
    }
    if parts.len() == 0 {
        return empty_result();
    }
    let name = part_name(&parts[0]);
    if a.key.eq(name) {
        if parts.len() == 1 {
            singleton_result(unwrap_value(&a.value))
        } else {
            let tail = tail_parts(parts);
            query_at_rec(&a.value, &tail)
        }
    } else {
        empty_result()
    }
}

fn query_attrs_flat_rec(attrs: &Vec<Attribute>, k: usize, parts: &Vec<QueryPart>) -> (r: Vec<
    AttributeType,
>)
    requires
        k <= attrs@.len(),
    ensures
        at_seq_view(r@) == spec_query_attrs_flat(
            attr_seq_view(attrs@).subrange(k as int, attrs@.len() as int),
            qps_view(parts@),
        ),
    decreases attrs, attrs@.len() - k,
{
    proof {
        crate::model::lemma_attr_seq_view(attrs@);
    }
    let ghost sub = attr_seq_view(attrs@).subrange(k as int, attrs@.len() as int);
    if k >= attrs.len() {
        let out = empty_result();
        proof {
            assert(at_seq_view(out@) =~= spec_query_attrs_flat(sub, qps_view(parts@)));
        }
        return out;
    }
    proof {
        assert(sub[0] == attr_seq_view(attrs@)[k as int]);
        assert(sub.drop_first() =~= attr_seq_view(attrs@).subrange(k + 1, attrs@.len() as int));
    }
    let head = query_attr_rec(&attrs[k], parts);
    let rest = query_attrs_flat_rec(attrs, k + 1, parts);
    concat_ats(head, rest)
}

fn query_elems_flat_rec(vs: &Vec<AttributeType>, k: usize, parts: &Vec<QueryPart>) -> (r: Vec<
    AttributeType,
>)
    requires
        k <= vs@.len(),
    ensures
        at_seq_view(r@) == spec_query_elems_flat(
            at_seq_view(vs@).subrange(k as int, vs@.len() as int),
            qps_view(parts@),
        ),
    decreases vs, vs@.len() - k,
{
    proof {
        crate::model::lemma_at_seq_view(vs@);
    }
    let ghost sub = at_seq_view(vs@).subrange(k as int, vs@.len() as int);
    if k >= vs.len() {
        let out = empty_result();
        proof {
            assert(at_seq_view(out@) =~= spec_query_elems_flat(sub, qps_view(parts@)));
        }
        return out;
    }
    proof {
        assert(sub[0] == at_seq_view(vs@)[k as int]);
        assert(sub.drop_first() =~= at_seq_view(vs@).subrange(k + 1, vs@.len() as int));
    }
    let head = query_at_rec(&vs[k], parts);
    let rest = query_elems_flat_rec(vs, k + 1, parts);
    concat_ats(head, rest)
}

fn query_block_rec(b: &TerraformBlock, parts: &Vec<QueryPart>) -> (r: Vec<AttributeType>)
    ensures
        at_seq_view(r@) == spec_query_block(b@, qps_view(parts@)),
    decreases b,
{
    match b {
        TerraformBlock::WithTwoIdentifiers(x) => {
            let out = query_two_rec(&x.attributes, 0, parts);
            proof {
                crate::model::lemma_attr_seq_view(x.attributes@);
                assert(attr_seq_view(x.attributes@).subrange(
                    0,
                    x.attributes@.len() as int,
                ) =~= attr_seq_view(x.attributes@));
            }
            out
        },
        _ => empty_result(),
    }
}

fn query_json_rec(j: &JsonValue, parts: &Vec<QueryPart>) -> (r: Vec<AttributeType>)
    ensures
        at_seq_view(r@) == spec_query_json(j@, qps_view(parts@)),
    decreases j,
{
    match j {
        JsonValue::Object(ps) => {
            let out = query_jpairs_flat_rec(ps, 0, parts);
            proof {
                crate::model::lemma_jv_pairs_view(ps@);
                assert(jv_pairs_view(ps@).subrange(0, ps@.len() as int) =~= jv_pairs_view(ps@));
            }
            out
        },
        JsonValue::Array(vs) => {
            let out = query_jarr_flat_rec(vs, 0, parts);
            proof {
                crate::model::lemma_jv_seq_view(vs@);
                assert(jv_seq_view(vs@).subrange(0, vs@.len() as int) =~= jv_seq_view(vs@));
            }
            out
        },
        _ => singleton_result(j.convert_to_attribute_type()),
    }
}

fn query_jpair_rec(p: &(String, JsonValue), parts: &Vec<QueryPart>) -> (r: Vec<AttributeType>)
    ensures
        at_seq_view(r@) == spec_query_jpair((p.0@, jv_view(p.1)), qps_view(parts@)),
    decreases p,
{
    proof {
        lemma_qps_view(parts@);
    }
    if parts.len() == 0 {
        return empty_result();
    }
    let name = part_name(&parts[0]);
    if p.0.eq(name) {
        if parts.len() == 1 {
            singleton_result(p.1.convert_to_attribute_type())
        } else {
            let tail = tail_parts(parts);
            query_json_rec(&p.1, &tail)
        }
    } else {
        empty_result()
    }
}

fn query_jpairs_flat_rec(
    ps: &Vec<(String, JsonValue)>,
    k: usize,
    parts: &Vec<QueryPart>,
) -> (r: Vec<AttributeType>)
    requires
        k <= ps@.len(),
    ensures
        at_seq_view(r@) == spec_query_jpairs_flat(
            jv_pairs_view(ps@).subrange(k as int, ps@.len() as int),
            qps_view(parts@),
        ),
    decreases ps, ps@.len() - k,
{
    proof {
        crate::model::lemma_jv_pairs_view(ps@);
    }
    let ghost sub = jv_pairs_view(ps@).subrange(k as int, ps@.len() as int);
    if k >= ps.len() {
        let out = empty_result();
        proof {
            assert(at_seq_view(out@) =~= spec_query_jpairs_flat(sub, qps_view(parts@)));
        }
        return out;
    }
    proof {
        assert(sub[0] == jv_pairs_view(ps@)[k as int]);
        assert(sub.drop_first() =~= jv_pairs_view(ps@).subrange(k + 1, ps@.len() as int));
    }
    let head = query_jpair_rec(&ps[k], parts);
    let rest = query_jpairs_flat_rec(ps, k + 1, parts);
    concat_ats(head, rest)
}

fn query_jarr_flat_rec(vs: &Vec<JsonValue>, k: usize, parts: &Vec<QueryPart>) -> (r: Vec<
    AttributeType,
>)
    requires
        k <= vs@.len(),
    ensures
        at_seq_view(r@) == spec_query_jarr_flat(
            jv_seq_view(vs@).subrange(k as int, vs@.len() as int),
            qps_view(parts@),
        ),
    decreases vs, vs@.len() - k,
{
    proof {
        crate::model::lemma_jv_seq_view(vs@);
    }
    let ghost sub = jv_seq_view(vs@).subrange(k as int, vs@.len() as int);
    if k >= vs.len() {
        let out = empty_result();
        proof {
            assert(at_seq_view(out@) =~= spec_query_jarr_flat(sub, qps_view(parts@)));
        }
        return out;
    }
    proof {
        assert(sub[0] == jv_seq_view(vs@)[k as int]);
        assert(sub.drop_first() =~= jv_seq_view(vs@).subrange(k + 1, vs@.len() as int));
    }
    let head = query_json_rec(&vs[k], parts);
    let rest = query_jarr_flat_rec(vs, k + 1, parts);
    concat_ats(head, rest)
}

fn has_list(parts: &Vec<QueryPart>) -> (r: bool)
    ensures
        r == spec_has_list_part(qps_view(parts@)),
{
    proof {
        lemma_qps_view(parts@);
    }
    let n = parts.len();
    let mut i: usize = 0;
    while i < n
        invariant
            i <= n,
            n == parts@.len(),
            qps_view(parts@).len() == n,
            forall|j: int| 0 <= j < n ==> #[trigger] qps_view(parts@)[j] == parts@[j]@,
            forall|j: int| 0 <= j < i ==> !(#[trigger] qps_view(parts@)[j] is List),
        decreases n - i,
    {
        let is_l = match &parts[i] {
            QueryPart::List(_) => true,
            QueryPart::Scalar(_) => false,
        };
        if is_l {
            proof {
                assert(qps_view(parts@)[i as int] is List);
            }
            return true;
        }
        i = i + 1;
    }
    proof {
        if spec_has_list_part(qps_view(parts@)) {
            let w = choose|j: int| 0 <= j < qps_view(parts@).len() && qps_view(parts@)[j] is List;
            assert(!(qps_view(parts@)[w] is List));
        }
    }
    false
}

impl TerraformBlockWithTwoIdentifiers {
    /// All matches of `expression` in this block's attributes.
    pub fn query(&self, expression: &JmespathExpression) -> (r: Vec<AttributeType>)
        ensures
            at_seq_view(r@) == spec_query_block(self@, expression@),
    {
        let out = query_two_rec(&self.attributes, 0, &expression.path_parts);
        proof {
            crate::model::lemma_attr_seq_view(self.attributes@);
            assert(attr_seq_view(self.attributes@).subrange(
                0,
                self.attributes@.len() as int,
            ) =~= attr_seq_view(self.attributes@));
        }
        out
    }
}

impl TerraformBlock {
    /// All matches of `expression`; only two-identifier blocks hold
    /// queryable attributes.
    pub fn query(&self, expression: &JmespathExpression) -> (r: Vec<AttributeType>)
        ensures
            at_seq_view(r@) == spec_query_block(self@, expression@),
    {
        query_block_rec(self, &expression.path_parts)
    }
}

impl Attribute {
    /// The matches of `expression` under this attribute.
    pub fn query(&self, expression: &JmespathExpression) -> (r: Vec<AttributeType>)
        ensures
            at_seq_view(r@) == spec_query_attr(self@, expression@),
    {
        query_attr_rec(self, &expression.path_parts)
    }
}

impl AttributeType {
    /// The matches of `expression` within this value.
    pub fn query(&self, expression: &JmespathExpression) -> (r: Vec<AttributeType>)
        ensures
            at_seq_view(r@) == spec_query_at(self@, expression@),
    {
        query_at_rec(self, &expression.path_parts)
    }
}

/// Evaluate a path expression against a block.  A projection anywhere in
/// the expression yields `List`, a plain match `Scalar`, and no match
/// `Missing`.
pub fn jmespath_query(
    tf_block: &TerraformBlockWithTwoIdentifiers,
    jmespath_expression: &str,
) -> (r: TFQueryResult)
    ensures
        r@ == spec_jmespath_query(tf_block@, jmespath_expression@),
{
    let expression = parse_jmespath(jmespath_expression);
    let result = tf_block.query(&expression);
    let is_list = has_list(&expression.path_parts);
    if result.len() > 0 {
        proof {
            crate::model::lemma_at_seq_view(result@);
        }
        if is_list {
            TFQueryResult::List(result)
        } else {
            let first = result[0].clone();
            TFQueryResult::Scalar(first)
        }
    } else {
        proof {
            crate::model::lemma_at_seq_view(result@);
        }
        TFQueryResult::Missing
    }
}

} // verus!
