use vstd::prelude::*;

use crate::model::{at_view, AttributeType, AttributeTypeV};
use crate::number::{num_lt, NumberV};
use crate::query::{TFQueryResult, TFQueryResultV};

verus! {

broadcast use vstd::std_specs::vec::group_vec_axioms;

/// The comparisons a filter can ask for.
pub enum Operation {
    Eq(),
    Contains(),
    LessThan(),
    GreaterThan(),
}

/// One condition of a policy: a query path, an operator name, and the
/// value compared against.
#[derive(Debug, PartialEq)]
pub struct Filter {
    pub key: String,
    pub op: String,
    pub value: String,
}

pub struct FilterV {
    pub key: Seq<char>,
    pub op: Seq<char>,
    pub value: Seq<char>,
}

impl View for Filter {
    type V = FilterV;

    open spec fn view(&self) -> FilterV {
        FilterV { key: self.key@, op: self.op@, value: self.value@ }
    }
}

/// A filter together with whether it held.
#[derive(Debug, PartialEq, Clone)]
pub struct FilterResult {
    pub filter: Filter,
    pub result: bool,
}

pub struct FilterResultV {
    pub filter: FilterV,
    pub result: bool,
}

impl View for FilterResult {
    type V = FilterResultV;

    open spec fn view(&self) -> FilterResultV {
        FilterResultV { filter: self.filter@, result: self.result }
    }
}

impl FilterResult {
    pub fn new(filter: Filter, result: bool) -> (r: FilterResult)
        ensures
            r@ == (FilterResultV { filter: filter@, result }),
    {
        FilterResult { filter, result }
    }
}

/// A named policy: which resource type it covers and the filters that
/// must all hold.
#[derive(Debug, PartialEq, Clone)]
pub struct Policy {
    pub name: String,
    pub description: String,
    pub resource: String,
    pub filters: Vec<Filter>,
}

pub struct PolicyV {
    pub name: Seq<char>,
    pub description: Seq<char>,
    pub resource: Seq<char>,
    pub filters: Seq<FilterV>,
}

pub open spec fn filters_view(s: Seq<Filter>) -> Seq<FilterV>
    decreases s,
{
    if s.len() == 0 {
        Seq::empty()
    } else {
        seq![s[0]@] + filters_view(s.drop_first())
    }
}

pub proof fn lemma_filters_view(s: Seq<Filter>)
    ensures
        filters_view(s).len() == s.len(),
        forall|i: int| 0 <= i < s.len() ==> #[trigger] filters_view(s)[i] == s[i]@,
    decreases s,
{
    if s.len() > 0 {
        lemma_filters_view(s.drop_first());
        assert forall|i: int| 0 <= i < s.len() implies #[trigger] filters_view(s)[i] == s[i]@ by {
            if i > 0 {
                assert(filters_view(s.drop_first())[i - 1] == s.drop_first()[i - 1]@);
            }
        }
    }
}

impl View for Policy {
    type V = PolicyV;

    open spec fn view(&self) -> PolicyV {
        PolicyV {
            name: self.name@,
            description: self.description@,
            resource: self.resource@,
            filters: filters_view(self.filters@),
        }
    }
}

impl Policy {
    pub fn new(name: &str, description: &str, resource: &str, filters: Vec<Filter>) -> (r:
        Policy)
        ensures
            r@ == (PolicyV {
                name: name@,
                description: description@,
                resource: resource@,
                filters: filters_view(filters@),
            }),
    {
        Policy {
            name: name.to_owned(),
            description: description.to_owned(),
            resource: resource.to_owned(),
            filters,
        }
    }
}

/// The externally loaded list of policies.
#[derive(Debug, PartialEq, Clone)]
pub struct Policies {
    pub policies: Vec<Policy>,
}

/// The outcome of holding one policy against one resource.
#[derive(Debug, PartialEq)]
pub struct PolicyResult {
    policy: Policy,
    passed: bool,
    resource_id: String,
    linked_resource_id: String,
}

impl Clone for Filter {
    fn clone(&self) -> (r: Filter)
        ensures
            r@ == self@,
    {
        Filter { key: self.key.clone(), op: self.op.clone(), value: self.value.clone() }
    }
}

impl Filter {
    pub fn new(key: &str, op: &str, value: &str) -> (r: Filter)
        ensures
            r@ == (FilterV { key: key@, op: op@, value: value@ }),
    {
        Filter { key: key.to_owned(), op: op.to_owned(), value: value.to_owned() }
    }
}

/// A filter value read as a number: the whole string must be one numeric
/// literal.
pub open spec fn spec_filter_num(s: Seq<char>) -> Option<NumberV> {
    match crate::json_parser::spec_parse_number(s, 0) {
        Some((n, j)) => if j == s.len() {
            Some(n)
        } else {
            Option::None
        },
        Option::None => Option::None,
    }
}

pub fn filter_num(s: &String) -> (r: Option<crate::number::Number>)
    requires
        s@.len() < 0x1000_0000_0000,
    ensures
        match (r, spec_filter_num(s@)) {
            (Some(n), Some(sn)) => n@ == sn,
            (Option::None, Option::None) => true,
            _ => false,
        },
{
    let chars = crate::text::str_to_chars(s.as_str());
    match crate::json_parser::parse_number(&chars, 0) {
        Some((n, j)) => if j == chars.len() {
            Some(n)
        } else {
            Option::None
        },
        Option::None => Option::None,
    }
}

/// Lexicographic order on strings by code point.
pub open spec fn str_lt(a: Seq<char>, b: Seq<char>) -> bool
    decreases a.len(),
{
    if a.len() == 0 {
        b.len() > 0
    } else if b.len() == 0 {
        false
    } else if a[0] != b[0] {
        (a[0] as u32) < (b[0] as u32)
    } else {
        str_lt(a.drop_first(), b.drop_first())
    }
}

pub fn str_lt_exec(a: &String, b: &String) -> (r: bool)
    ensures
        r == str_lt(a@, b@),
{
    let x = crate::text::str_to_chars(a.as_str());
    let y = crate::text::str_to_chars(b.as_str());
    let nx = x.len();
    let ny = y.len();
    proof {
        assert(x@.subrange(0, nx as int) =~= x@);
        assert(y@.subrange(0, ny as int) =~= y@);
    }
    let mut i: usize = 0;
    while i < nx && i < ny
        invariant
            i <= nx,
            i <= ny,
            nx == x@.len(),
            ny == y@.len(),
            x@ == a@,
            y@ == b@,
            str_lt(a@, b@) == str_lt(
                x@.subrange(i as int, nx as int),
                y@.subrange(i as int, ny as int),
            ),
        decreases nx - i,
    {
        let ghost xs = x@.subrange(i as int, nx as int);
        let ghost ys = y@.subrange(i as int, ny as int);
        proof {
            assert(xs[0] == x@[i as int]);
            assert(ys[0] == y@[i as int]);
            assert(xs.drop_first() =~= x@.subrange(i + 1, nx as int));
            assert(ys.drop_first() =~= y@.subrange(i + 1, ny as int));
        }
        if (x[i] as u32) < (y[i] as u32) {
            return true;
        }
        if x[i] != y[i] {
            return false;
        }
        i = i + 1;
    }
    proof {
        let xs = x@.subrange(i as int, nx as int);
        let ys = y@.subrange(i as int, ny as int);
        if i >= nx {
            assert(xs.len() == 0);
        } else {
            assert(ys.len() == 0);
        }
    }
    i >= nx && ny > nx
}

/// What `eq` means against one value: strings compare verbatim, numbers
/// by numeric value (a filter value that is not a number matches no
/// number), and an inline block compares its first attribute's value.
pub open spec fn spec_match_eq(fv: Seq<char>, a: AttributeTypeV) -> bool {
    match a {
        AttributeTypeV::Block(attrs) => if attrs.len() > 0 {
            match attrs[0].value {
                AttributeTypeV::Str(val) => val == fv,
                AttributeTypeV::Num(val) => spec_filter_num(fv) == Some(val),
                _ => false,
            }
        } else {
            false
        },
        AttributeTypeV::Str(val) => val == fv,
        AttributeTypeV::Num(val) => spec_filter_num(fv) == Some(val),
        _ => false,
    }
}

/// What one operator means against one value; an unknown operator never
/// matches.
pub open spec fn spec_match_value(op: Seq<char>, fv: Seq<char>, a: AttributeTypeV) -> bool {
    if op == "eq"@ {
        spec_match_eq(fv, a)
    } else if op == "lt"@ {
        match a {
            AttributeTypeV::Str(val) => str_lt(val, fv),
            AttributeTypeV::Num(val) => match spec_filter_num(fv) {
                Some(n) => num_lt(val, n),
                Option::None => false,
            },
            _ => false,
        }
    } else if op == "gt"@ {
        match a {
            AttributeTypeV::Str(val) => str_lt(fv, val),
            AttributeTypeV::Num(val) => match spec_filter_num(fv) {
                Some(n) => num_lt(n, val),
                Option::None => false,
            },
            _ => false,
        }
    } else {
        false
    }
}

/// `eq` over a list holds when every element matches.
pub open spec fn spec_all_eq(vs: Seq<AttributeTypeV>, fv: Seq<char>) -> bool {
    forall|i: int| 0 <= i < vs.len() ==> spec_match_eq(fv, #[trigger] vs[i])
}

/// `contains` over a list holds when some element matches.
pub open spec fn spec_any_eq(vs: Seq<AttributeTypeV>, fv: Seq<char>) -> bool {
    exists|i: int| 0 <= i < vs.len() && spec_match_eq(fv, #[trigger] vs[i])
}

/// The verdict of a filter on a query result: a scalar is matched with
/// the filter's operator; a list needs every element (`eq`) or some
/// element (`contains`); a miss never matches.
pub open spec fn spec_filter_verdict(f: FilterV, qr: TFQueryResultV) -> bool {
    match qr {
        TFQueryResultV::Scalar(a) => spec_match_value(f.op, f.value, a),
        TFQueryResultV::List(vs) => if f.op == "eq"@ {
            spec_all_eq(vs, f.value)
        } else if f.op == "contains"@ {
            spec_any_eq(vs, f.value)
        } else {
            false
        },
        TFQueryResultV::Missing => false,
    }
}

pub(crate) fn match_eq(fv: &String, a: &AttributeType) -> (r: bool)
    requires
        fv@.len() < 0x1000_0000_0000,
    ensures
        r == spec_match_eq(fv@, a@),
{
    match a {
        AttributeType::Block(attrs) => {
            proof {
                crate::model::lemma_attr_seq_view(attrs@);
            }
            if attrs.len() > 0 {
                match &attrs[0].value {
                    AttributeType::Str(val) => val.eq(fv),
                    AttributeType::Num(val) => match filter_num(fv) {
                        Some(n) => val.eq_value(&n),
                        Option::None => false,
                    },
                    _ => false,
                }
            } else {
                false
            }
        },
        AttributeType::Str(val) => val.eq(fv),
        AttributeType::Num(val) => match filter_num(fv) {
            Some(n) => val.eq_value(&n),
            Option::None => false,
        },
        _ => false,
    }
}

fn match_value(operator: &String, filter_value: &String, query_result_value: &AttributeType) -> (r:
    bool)
    requires
        filter_value@.len() < 0x1000_0000_0000,
    ensures
        r == spec_match_value(operator@, filter_value@, query_result_value@),
{
    proof {
        reveal_strlit("eq");
        reveal_strlit("lt");
        reveal_strlit("gt");
    }
    if crate::text::str_eq(operator.as_str(), "eq") {
        match_eq(filter_value, query_result_value)
    } else if crate::text::str_eq(operator.as_str(), "lt") {
        match query_result_value {
            AttributeType::Str(val) => str_lt_exec(val, filter_value),
            AttributeType::Num(val) => match filter_num(filter_value) {
                Some(n) => val.lt(&n),
                Option::None => false,
            },
            _ => false,
        }
    } else if crate::text::str_eq(operator.as_str(), "gt") {
        match query_result_value {
            AttributeType::Str(val) => str_lt_exec(filter_value, val),
            AttributeType::Num(val) => match filter_num(filter_value) {
                Some(n) => n.lt(val),
                Option::None => false,
            },
            _ => false,
        }
    } else {
        false
    }
}

impl Filter {
    /// Hold this filter against a query result.  The verdict is `true`
    /// exactly when the operator relates the result to the filter value.
    pub fn evaluate(&self, query_result: TFQueryResult) -> (r: FilterResult)
        requires
            self.value@.len() < 0x1000_0000_0000,
        ensures
            r@.filter == self@,
            r@.result == spec_filter_verdict(self@, query_result@),
    {
        proof {
            reveal_strlit("eq");
            reveal_strlit("contains");
        }
        let result: bool = match &query_result {
            TFQueryResult::Scalar(attr_type) => match_value(&self.op, &self.value, attr_type),
            TFQueryResult::List(attr_types) => {
                proof {
                    crate::model::lemma_at_seq_view(attr_types@);
                }
                if crate::text::str_eq(self.op.as_str(), "eq") {
                    let mut res = true;
                    let n = attr_types.len();
                    let mut i: usize = 0;
                    while i < n
                        invariant
                            i <= n,
                            n == attr_types@.len(),
                            self.value@.len() < 0x1000_0000_0000,
                            at_seq_view_ok(attr_types@),
                            res == forall|j: int|
                                0 <= j < i ==> spec_match_eq(
                                    self.value@,
                                    #[trigger] crate::model::at_seq_view(attr_types@)[j],
                                ),
                        decreases n - i,
                    {
                        let m = match_eq(&self.value, &attr_types[i]);
                        let ghost old_res = res;
                        res = res && m;
                        proof {
                            assert(crate::model::at_seq_view(attr_types@)[i as int] == at_view(
                                attr_types@[i as int],
                            ));
                            if res {
                                assert forall|j: int| 0 <= j < i + 1 implies spec_match_eq(
                                    self.value@,
                                    #[trigger] crate::model::at_seq_view(attr_types@)[j],
                                ) by {}
                            } else {
                                if old_res {
                                    assert(!spec_match_eq(
                                        self.value@,
                                        crate::model::at_seq_view(attr_types@)[i as int],
                                    ));
                                }
                            }
                        }
                        i = i + 1;
                    }
                    res
                } else if crate::text::str_eq(self.op.as_str(), "contains") {
                    let mut res = false;
                    let n = attr_types.len();
                    let mut i: usize = 0;
                    while i < n
                        invariant
                            i <= n,
                            n == attr_types@.len(),
                            self.value@.len() < 0x1000_0000_0000,
                            at_seq_view_ok(attr_types@),
                            res == exists|j: int|
                                0 <= j < i && spec_match_eq(
                                    self.value@,
                                    #[trigger] crate::model::at_seq_view(attr_types@)[j],
                                ),
                        decreases n - i,
                    {
                        let m = match_eq(&self.value, &attr_types[i]);
                        proof {
                            assert(crate::model::at_seq_view(attr_types@)[i as int] == at_view(
                                attr_types@[i as int],
                            ));
                        }
                        res = res || m;
                        i = i + 1;
                    }
                    res
                } else {
                    false
                }
            },
            TFQueryResult::Missing => false,
        };

        FilterResult { filter: self.clone(), result }
    }
}

/// The element views of a vector agree with its sequence view.
pub open spec fn at_seq_view_ok(s: Seq<AttributeType>) -> bool {
    crate::model::at_seq_view(s).len() == s.len() && forall|i: int|
        0 <= i < s.len() ==> #[trigger] crate::model::at_seq_view(s)[i] == at_view(s[i])
}

} // verus!
