use vstd::prelude::*;

use crate::model::{spec_extract, spec_extract_seq};
use crate::query::{jmespath_query, spec_jmespath_query, TFQueryResult, TFQueryResultV};
use crate::model::{TerraformBlockV, TerraformBlockWithTwoIdentifiers};
use crate::text::{
    lemma_strs_view, spec_contains_sub, spec_replace, str_to_chars, strs_view,
};

verus! {

broadcast use vstd::std_specs::vec::group_vec_axioms;

/// Why a relationship specification was rejected.
#[derive(Debug)]
pub struct ValidationError {
    pub details: String,
}

impl ValidationError {
    pub fn new(msg: &str) -> (r: ValidationError)
        ensures
            r.details@ == msg@,
    {
        ValidationError { details: msg.to_owned() }
    }

    /// The message this error carries.
    pub fn details(&self) -> (r: &String)
        ensures
            r@ == self.details@,
    {
        &self.details
    }
}

/// One discovered or specified relationship: a source path or id, a
/// target path or id, and a label.
#[derive(Debug, PartialEq)]
pub struct Relationship {
    pub source: String,
    pub target: String,
    pub label: String,
}

pub struct RelationshipV {
    pub source: Seq<char>,
    pub target: Seq<char>,
    pub label: Seq<char>,
}

impl View for Relationship {
    type V = RelationshipV;

    open spec fn view(&self) -> RelationshipV {
        RelationshipV { source: self.source@, target: self.target@, label: self.label@ }
    }
}

impl Clone for Relationship {
    fn clone(&self) -> (r: Self)
        ensures
            r@ == self@,
    {
        Relationship {
            source: self.source.clone(),
            target: self.target.clone(),
            label: self.label.clone(),
        }
    }
}

impl Relationship {
    /// A specification is well formed only when its target is the fixed
    /// policy-statement path.
    pub fn validate(&self) -> (r: Result<(), ValidationError>)
        ensures
            r is Ok <==> self.target@ == "policy.Statement[].Resource"@,
            r matches Err(e) ==> e.details@ == "target is not formatted correctly"@,
    {
        if !crate::text::str_eq(self.target.as_str(), "policy.Statement[].Resource") {
            return Err(ValidationError::new("target is not formatted correctly"));
        }
        Ok(())
    }

    /// This relationship as one edge of the diagram JSON.
    pub fn render(&self) -> (r: String)
        ensures
            r@ == "{\"in\":\""@ + self.source@ + "\",\"out\":\""@ + self.target@
                + "\",\"label\":\""@ + self.label@ + "\"}"@,
    {
        let mut s = String::new();
        s.append("{\"in\":\"");
        s.append(self.source.as_str());
        s.append("\",\"out\":\"");
        s.append(self.target.as_str());
        s.append("\",\"label\":\"");
        s.append(self.label.as_str());
        s.append("\"}");
        s
    }
}

pub open spec fn rels_view(s: Seq<Relationship>) -> Seq<RelationshipV>
    decreases s,
{
    if s.len() == 0 {
        Seq::empty()
    } else {
        seq![s[0]@] + rels_view(s.drop_first())
    }
}

pub proof fn lemma_rels_view(s: Seq<Relationship>)
    ensures
        rels_view(s).len() == s.len(),
        forall|i: int| 0 <= i < s.len() ==> #[trigger] rels_view(s)[i] == s[i]@,
    decreases s,
{
    if s.len() > 0 {
        lemma_rels_view(s.drop_first());
        assert forall|i: int| 0 <= i < s.len() implies #[trigger] rels_view(s)[i] == s[i]@ by {
            if i > 0 {
                assert(rels_view(s.drop_first())[i - 1] == s.drop_first()[i - 1]@);
            }
        }
    }
}

/// Position of the first `:` at or after `i`.
pub open spec fn colon_end(s: Seq<char>, i: int) -> int
    decreases s.len() - i,
{
    if 0 <= i < s.len() && s[i] != ':' {
        colon_end(s, i + 1)
    } else {
        i
    }
}

fn scan_colon(s: &Vec<char>, i: usize) -> (r: usize)
    requires
        i <= s@.len(),
    ensures
        r == colon_end(s@, i as int),
        i <= r <= s@.len(),
    decreases s@.len() - i,
{
    if i < s.len() && s[i] != ':' {
        scan_colon(s, i + 1)
    } else {
        i
    }
}

/// The colon-separated pieces of an identifier, from position `i`.
pub open spec fn spec_split_colons(s: Seq<char>, i: int) -> Seq<Seq<char>>
    decreases s.len() - i,
{
    if !(0 <= i <= s.len()) {
        Seq::empty()
    } else {
        let e = colon_end(s, i);
        if i <= e && e < s.len() {
            seq![s.subrange(i, e)] + spec_split_colons(s, e + 1)
        } else {
            seq![s.subrange(i, s.len() as int)]
        }
    }
}

fn split_colons(s: &Vec<char>, i: usize) -> (r: Vec<String>)
    requires
        i <= s@.len(),
    ensures
        strs_view(r@) == spec_split_colons(s@, i as int),
    decreases s@.len() - i,
{
    let e = scan_colon(s, i);
    if e < s.len() {
        let head = crate::json_parser::copy_range(s, i, e);
        let rest = split_colons(s, e + 1);
        let ghost gh = head;
        let ghost grest = rest@;
        let mut out = rest;
        out.insert(0, head);
        proof {
            assert(out@ =~= seq![gh] + grest);
            assert(out@.drop_first() =~= grest);
            assert(out@[0] == gh);
            assert(strs_view(out@) =~= seq![gh@] + strs_view(grest));
            let sd = spec_split_colons(s@, i as int);
            assert(sd[0] == s@.subrange(i as int, e as int));
            assert(sd.drop_first() =~= spec_split_colons(s@, e + 1));
        }
        out
    } else {
        let head = crate::json_parser::copy_range(s, i, s.len());
        let ghost gh = head;
        let mut out: Vec<String> = Vec::new();
        out.push(head);
        proof {
            assert(out@ =~= seq![gh]);
            assert(out@.drop_first() =~= Seq::<String>::empty());
            assert(strs_view(Seq::<String>::empty()) =~= Seq::<Seq<char>>::empty());
            assert(strs_view(out@) =~= seq![gh@]);
            assert(spec_split_colons(s@, i as int) =~= seq![
                s@.subrange(i as int, s@.len() as int),
            ]);
        }
        out
    }
}

/// The short dotted resource reference an ARN denotes, per service; `None`
/// for log groups, unknown services, and ARNs with too few parts.
pub open spec fn spec_convert_arn(s: Seq<char>) -> Option<Seq<char>> {
    let toks = spec_split_colons(s, 0);
    if toks.len() <= 2 {
        Option::None
    } else {
        let svc = toks[2];
        if svc == "dynamodb"@ {
            if toks.len() <= 5 {
                Option::None
            } else {
                Some(
                    "aws_dynamodb_table."@ + spec_replace(
                        spec_replace(toks[5], "table/"@, Seq::empty()),
                        "/*"@,
                        Seq::empty(),
                    ),
                )
            }
        } else if svc == "sns"@ {
            if toks.len() <= 5 {
                Option::None
            } else {
                Some("aws_sns_topic."@ + toks[5])
            }
        } else if svc == "s3"@ {
            if toks.len() <= 5 {
                Option::None
            } else {
                let t = toks[5];
                if t.len() >= 2 && t.subrange(t.len() - 2, t.len() as int) == "/*"@ {
                    Some("aws_s3_bucket."@ + t.subrange(0, t.len() - 2))
                } else {
                    Some("aws_s3_bucket."@ + t)
                }
            }
        } else if svc == "lambda"@ {
            if toks.len() <= 6 {
                Option::None
            } else {
                Some("aws_lambda_function."@ + toks[6])
            }
        } else if svc == "sqs"@ {
            if toks.len() <= 5 {
                Option::None
            } else {
                Some("aws_sqs_queue."@ + toks[5])
            }
        } else if svc == "kinesis"@ {
            if toks.len() <= 5 {
                Option::None
            } else {
                let t = toks[5];
                let p = slash_pos(t, 0);
                if p < t.len() {
                    Some("aws_kinesis_stream."@ + t.subrange(0, p))
                } else {
                    Some("aws_kinesis_stream."@ + t)
                }
            }
        } else {
            Option::None
        }
    }
}

pub open spec fn slash_pos(s: Seq<char>, i: int) -> int
    decreases s.len() - i,
{
    if 0 <= i < s.len() && s[i] != '/' {
        slash_pos(s, i + 1)
    } else {
        i
    }
}

fn scan_slash(s: &Vec<char>, i: usize) -> (r: usize)
    requires
        i <= s@.len(),
    ensures
        r == slash_pos(s@, i as int),
        i <= r <= s@.len(),
    decreases s@.len() - i,
{
    if i < s.len() && s[i] != '/' {
        scan_slash(s, i + 1)
    } else {
        i
    }
}

/// ARNs are split into colon-separated parts; from those a resource
/// reference in dotted syntax is generated, per service.
pub fn convert_arn_to_dot_syntax(arn_resource: &String) -> (r: Option<String>)
    ensures
        match (r, spec_convert_arn(arn_resource@)) {
            (Some(v), Some(sv)) => v@ == sv,
            (Option::None, Option::None) => true,
            _ => false,
        },
{
    let chars = str_to_chars(arn_resource.as_str());
    let tokens = split_colons(&chars, 0);
    proof {
        lemma_strs_view(tokens@);
    }
    if tokens.len() <= 2 {
        return Option::None;
    }
    let svc = &tokens[2];
    if crate::text::str_eq(svc.as_str(), "dynamodb") {
        if tokens.len() <= 5 {
            return Option::None;
        }
        let t1 = crate::text::replace_str(&tokens[5], "table/", "");
        let t2 = crate::text::replace_str(&t1, "/*", "");
        let mut out = crate::text::lit_string("aws_dynamodb_table.");
        out.append(t2.as_str());
        proof {
            reveal_strlit("");
            assert(""@ =~= Seq::<char>::empty());
        }
        Some(out)
    } else if crate::text::str_eq(svc.as_str(), "sns") {
        if tokens.len() <= 5 {
            return Option::None;
        }
        let mut out = crate::text::lit_string("aws_sns_topic.");
        out.append(tokens[5].as_str());
        Some(out)
    } else if crate::text::str_eq(svc.as_str(), "s3") {
        if tokens.len() <= 5 {
            return Option::None;
        }
        let t = str_to_chars(tokens[5].as_str());
        proof {
            reveal_strlit("/*");
            assert("/*"@ =~= seq!['/', '*']);
            assert(t.len() == t@.len());
        }
        let ends_wild = t.len() >= 2 && t[t.len() - 2] == '/' && t[t.len() - 1] == '*';
        proof {
            let tv = t@;
            if tv.len() >= 2 {
                assert(tv.subrange(tv.len() - 2, tv.len() as int)[0] == tv[tv.len() - 2]);
                assert(tv.subrange(tv.len() - 2, tv.len() as int)[1] == tv[tv.len() - 1]);
                if ends_wild {
                    assert(tv.subrange(tv.len() - 2, tv.len() as int) =~= "/*"@);
                }
            }
        }
        let mut out = crate::text::lit_string("aws_s3_bucket.");
        if ends_wild {
            let trimmed = crate::json_parser::copy_range(&t, 0, t.len() - 2);
            out.append(trimmed.as_str());
        } else {
            out.append(tokens[5].as_str());
        }
        Some(out)
    } else if crate::text::str_eq(svc.as_str(), "lambda") {
        if tokens.len() <= 6 {
            return Option::None;
        }
        let mut out = crate::text::lit_string("aws_lambda_function.");
        out.append(tokens[6].as_str());
        Some(out)
    } else if crate::text::str_eq(svc.as_str(), "sqs") {
        if tokens.len() <= 5 {
            return Option::None;
        }
        let mut out = crate::text::lit_string("aws_sqs_queue.");
        out.append(tokens[5].as_str());
        Some(out)
    } else if crate::text::str_eq(svc.as_str(), "kinesis") {
        if tokens.len() <= 5 {
            return Option::None;
        }
        let t = str_to_chars(tokens[5].as_str());
        let p = scan_slash(&t, 0);
        let mut out = crate::text::lit_string("aws_kinesis_stream.");
        if p < t.len() {
            let head = crate::json_parser::copy_range(&t, 0, p);
            out.append(head.as_str());
        } else {
            out.append(tokens[5].as_str());
            proof {
                assert(t@.subrange(0, t@.len() as int) =~= t@);
            }
        }
        Some(out)
    } else {
        Option::None
    }
}

/// A raw extracted identifier reduced to a dotted resource reference:
/// ARNs go through the per-service table, template wrappers and
/// attribute suffixes are stripped, and short wildcards pass through.
pub open spec fn spec_clean(resource: Seq<char>) -> Option<Seq<char>> {
    if resource.len() > 2 {
        if resource.subrange(0, 3) == "arn"@ {
            spec_convert_arn(resource)
        } else {
            let wb = if resource.subrange(0, 2) == "${"@ {
                resource.subrange(2, resource.len() - 1)
            } else {
                resource
            };
            Some(
                spec_replace(spec_replace(wb, ".id"@, Seq::empty()), ".arn"@, Seq::empty()),
            )
        }
    } else {
        Some(resource)
    }
}

pub fn clean_resource_identifier(resource: &String) -> (r: Option<String>)
    ensures
        match (r, spec_clean(resource@)) {
            (Some(v), Some(sv)) => v@ == sv,
            (Option::None, Option::None) => true,
            _ => false,
        },
{
    let chars = str_to_chars(resource.as_str());
    proof {
        reveal_strlit("arn");
        reveal_strlit("${");
        reveal_strlit("");
        assert("arn"@ =~= seq!['a', 'r', 'n']);
        assert("${"@ =~= seq!['$', '{']);
        assert(""@ =~= Seq::<char>::empty());
        assert(chars.len() == chars@.len());
    }
    if chars.len() > 2 {
        let is_arn = chars[0] == 'a' && chars[1] == 'r' && chars[2] == 'n';
        proof {
            let cv = chars@;
            assert(cv.subrange(0, 3)[0] == cv[0]);
            assert(cv.subrange(0, 3)[1] == cv[1]);
            assert(cv.subrange(0, 3)[2] == cv[2]);
            if is_arn {
                assert(cv.subrange(0, 3) =~= "arn"@);
            }
        }
        if is_arn {
            convert_arn_to_dot_syntax(resource)
        } else {
            let wrapped = chars[0] == '$' && chars[1] == '{';
            proof {
                let cv = chars@;
                assert(cv.subrange(0, 2)[0] == cv[0]);
                assert(cv.subrange(0, 2)[1] == cv[1]);
                if wrapped {
                    assert(cv.subrange(0, 2) =~= "${"@);
                }
            }
            let base: String = if wrapped {
                crate::json_parser::copy_range(&chars, 2, chars.len() - 1)
            } else {
                resource.clone()
            };
            let t1 = crate::text::replace_str(&base, ".id", "");
            let t2 = crate::text::replace_str(&t1, ".arn", "");
            Some(t2)
        }
    } else {
        // a wildcard or similarly short identifier passes through
        Some(resource.clone())
    }
}

/// The identifier strings of a query result; a miss contributes the
/// sentinel error string.
pub open spec fn spec_extract_qr(qr: TFQueryResultV) -> Seq<Seq<char>> {
    match qr {
        TFQueryResultV::Scalar(a) => spec_extract(a),
        TFQueryResultV::List(vs) => spec_extract_seq(vs),
        TFQueryResultV::Missing => seq!["MASSIVE ERROR!!!"@],
    }
}

pub fn extract_query_result(resource: &TFQueryResult) -> (r: Vec<String>)
    ensures
        strs_view(r@) == spec_extract_qr(resource@),
{
    match resource {
        TFQueryResult::Scalar(attribute) => attribute.extract_attributetype(),
        TFQueryResult::List(attributes) => {
            proof {
                crate::model::lemma_at_seq_view(attributes@);
            }
            let mut out: Vec<String> = Vec::new();
            let n = attributes.len();
            let mut i: usize = 0;
            proof {
                assert(strs_view(out@) =~= Seq::<Seq<char>>::empty());
                assert(spec_extract_seq(
                    crate::model::at_seq_view(attributes@).subrange(0, 0),
                ) =~= Seq::<Seq<char>>::empty());
            }
            while i < n
                invariant
                    i <= n,
                    n == attributes@.len(),
                    crate::model::at_seq_view(attributes@).len() == n,
                    forall|j: int|
                        0 <= j < n ==> #[trigger] crate::model::at_seq_view(attributes@)[j]
                            == crate::model::at_view(attributes@[j]),
                    strs_view(out@) == spec_extract_seq(
                        crate::model::at_seq_view(attributes@).subrange(0, i as int),
                    ),
                decreases n - i,
            {
                let part = attributes[i].extract_attributetype();
                let ghost gout = out@;
                let ghost gpart = part@;
                crate::model::append_strings(&mut out, part);
                proof {
                    crate::model::lemma_strs_concat(gout, gpart);
                    crate::model::lemma_extract_seq_snoc(
                        crate::model::at_seq_view(attributes@),
                        i as int,
                    );
                }
                i = i + 1;
            }
            proof {
                assert(crate::model::at_seq_view(attributes@).subrange(0, n as int)
                    =~= crate::model::at_seq_view(attributes@));
            }
            out
        },
        TFQueryResult::Missing => {
            let mut out: Vec<String> = Vec::new();
            let e = crate::text::lit_string("MASSIVE ERROR!!!");
            let ghost ge = e;
            out.push(e);
            proof {
                assert(out@ =~= seq![ge]);
                assert(out@.drop_first() =~= Seq::<String>::empty());
                assert(strs_view(Seq::<String>::empty()) =~= Seq::<Seq<char>>::empty());
                assert(strs_view(out@) =~= seq![ge@]);
            }
            out
        },
    }
}

/// Lambda targets named bare (no dot) get their resource prefix restored.
pub open spec fn spec_hack(key: Seq<char>, val: Seq<char>) -> Seq<char> {
    if key == "function_name"@ && !spec_contains_sub(val, "."@) {
        "aws_lambda_function."@ + val
    } else {
        val
    }
}

fn hack_lambda_attributes(key: &String, val: String) -> (r: String)
    ensures
        r@ == spec_hack(key@, val@),
{
    proof {
        reveal_strlit("function_name");
        reveal_strlit(".");
    }
    if crate::text::str_eq(key.as_str(), "function_name") && !crate::text::contains_sub(
        &val,
        ".",
    ) {
        let mut out = crate::text::lit_string("aws_lambda_function.");
        out.append(val.as_str());
        out
    } else {
        val
    }
}


/// The first specification entry for a resource type.
pub open spec fn spec_lookup(
    specs: Seq<(Seq<char>, RelationshipV)>,
    key: Seq<char>,
) -> Option<RelationshipV>
    decreases specs,
{
    if specs.len() == 0 {
        Option::None
    } else if specs[0].0 == key {
        Some(specs[0].1)
    } else {
        spec_lookup(specs.drop_first(), key)
    }
}

pub open spec fn specs_view(s: Seq<(String, Relationship)>) -> Seq<(Seq<char>, RelationshipV)>
    decreases s,
{
    if s.len() == 0 {
        Seq::empty()
    } else {
        seq![(s[0].0@, s[0].1@)] + specs_view(s.drop_first())
    }
}

/// Cleaned identifiers of the extracted targets; identifiers the table
/// rejects are dropped.
pub open spec fn spec_clean_list(ts: Seq<Seq<char>>) -> Seq<Seq<char>>
    decreases ts,
{
    if ts.len() == 0 {
        Seq::empty()
    } else {
        (match spec_clean(ts[0]) {
            Some(v) => seq![v],
            Option::None => Seq::<Seq<char>>::empty(),
        }) + spec_clean_list(ts.drop_first())
    }
}

/// One relationship per cleaned target, all sharing the cleaned source.
pub open spec fn spec_mk_rels(src: Seq<char>, tkey: Seq<char>, ts: Seq<Seq<char>>) -> Seq<
    RelationshipV,
>
    decreases ts,
{
    if ts.len() == 0 {
        Seq::empty()
    } else {
        seq![
            RelationshipV {
                source: src,
                target: spec_hack(tkey, ts[0]),
                label: Seq::<char>::empty(),
            },
        ] + spec_mk_rels(src, tkey, ts.drop_first())
    }
}

/// Drop each relationship whose target repeats the previously kept one.
pub open spec fn spec_dedup_tail(s: Seq<RelationshipV>, prev: RelationshipV) -> Seq<
    RelationshipV,
>
    decreases s,
{
    if s.len() == 0 {
        Seq::empty()
    } else if s[0].target == prev.target {
        spec_dedup_tail(s.drop_first(), prev)
    } else {
        seq![s[0]] + spec_dedup_tail(s.drop_first(), s[0])
    }
}

pub open spec fn spec_dedup_rels(s: Seq<RelationshipV>) -> Seq<RelationshipV> {
    if s.len() == 0 {
        Seq::empty()
    } else {
        seq![s[0]] + spec_dedup_tail(s.drop_first(), s[0])
    }
}

/// The relationships one block contributes, per its resource type's
/// specification: the cleaned source related to each cleaned target,
/// consecutive duplicate targets collapsed.
pub open spec fn spec_parse_relationships(
    b: TerraformBlockV,
    specs: Seq<(Seq<char>, RelationshipV)>,
) -> Seq<RelationshipV> {
    match b {
        TerraformBlockV::WithTwoIdentifiers { first_identifier, .. } => {
            match spec_lookup(specs, first_identifier) {
                Option::None => Seq::empty(),
                Some(rel) => {
                    let es = spec_extract_qr(spec_jmespath_query(b, rel.source));
                    let et = spec_extract_qr(spec_jmespath_query(b, rel.target));
                    if es.len() == 0 {
                        Seq::empty()
                    } else {
                        match spec_clean(es[0]) {
                            Option::None => Seq::empty(),
                            Some(sv) => {
                                let targets = spec_clean_list(et);
                                if targets.len() > 0 {
                                    spec_dedup_rels(
                                        spec_mk_rels(
                                            spec_hack(rel.source, sv),
                                            rel.target,
                                            targets,
                                        ),
                                    )
                                } else {
                                    Seq::empty()
                                }
                            },
                        }
                    }
                },
            }
        },
        _ => Seq::empty(),
    }
}

fn lookup_spec<'a>(specs: &'a Vec<(String, Relationship)>, key: &String) -> (r: Option<
    &'a Relationship,
>)
    ensures
        match (r, spec_lookup(specs_view(specs@), key@)) {
            (Some(v), Some(sv)) => v@ == sv,
            (Option::None, Option::None) => true,
            _ => false,
        },
{
    proof {
        lemma_specs_view(specs@);
        assert(specs_view(specs@).subrange(0, specs@.len() as int) =~= specs_view(specs@));
    }
    let n = specs.len();
    let mut i: usize = 0;
    while i < n
        invariant
            i <= n,
            n == specs@.len(),
            specs_view(specs@).len() == n,
            forall|j: int|
                0 <= j < n ==> #[trigger] specs_view(specs@)[j] == (
                    specs@[j].0@,
                    specs@[j].1@,
                ),
            forall|j: int| 0 <= j < i ==> (#[trigger] specs_view(specs@)[j]).0 != key@,
            spec_lookup(specs_view(specs@), key@) == spec_lookup(
                specs_view(specs@).subrange(i as int, n as int),
                key@,
            ),
        decreases n - i,
    {
        let ghost sub = specs_view(specs@).subrange(i as int, n as int);
        proof {
            assert(sub[0] == specs_view(specs@)[i as int]);
            assert(sub.drop_first() =~= specs_view(specs@).subrange(i + 1, n as int));
        }
        if specs[i].0.eq(key) {
            return Some(&specs[i].1);
        }
        i = i + 1;
    }
    proof {
        assert(specs_view(specs@).subrange(n as int, n as int) =~= Seq::<
            (Seq<char>, RelationshipV),
        >::empty());
    }
    Option::None
}

pub proof fn lemma_specs_view(s: Seq<(String, Relationship)>)
    ensures
        specs_view(s).len() == s.len(),
        forall|i: int|
            0 <= i < s.len() ==> #[trigger] specs_view(s)[i] == (s[i].0@, s[i].1@),
    decreases s,
{
    if s.len() > 0 {
        lemma_specs_view(s.drop_first());
        assert forall|i: int| 0 <= i < s.len() implies #[trigger] specs_view(s)[i] == (
        s[i].0@, s[i].1@) by {
            if i > 0 {
                assert(specs_view(s.drop_first())[i - 1] == (
                    s.drop_first()[i - 1].0@,
                    s.drop_first()[i - 1].1@,
                ));
            }
        }
    }
}

fn clean_list(ts: &Vec<String>, k: usize) -> (r: Vec<String>)
    requires
        k <= ts@.len(),
    ensures
        strs_view(r@) == spec_clean_list(strs_view(ts@).subrange(k as int, ts@.len() as int)),
    decreases ts@.len() - k,
{
    proof {
        lemma_strs_view(ts@);
    }
    let ghost sub = strs_view(ts@).subrange(k as int, ts@.len() as int);
    if k >= ts.len() {
        let out: Vec<String> = Vec::new();
        proof {
            assert(strs_view(out@) =~= spec_clean_list(sub));
        }
        return out;
    }
    proof {
        assert(sub[0] == strs_view(ts@)[k as int]);
        assert(sub.drop_first() =~= strs_view(ts@).subrange(k + 1, ts@.len() as int));
    }
    let rest = clean_list(ts, k + 1);
    match clean_resource_identifier(&ts[k]) {
        Some(v) => {
            let ghost gv = v;
            let ghost grest = rest@;
            let mut out = rest;
            out.insert(0, v);
            proof {
                assert(out@ =~= seq![gv] + grest);
                assert(out@.drop_first() =~= grest);
                assert(out@[0] == gv);
                assert(strs_view(out@) =~= seq![gv@] + strs_view(grest));
            }
            out
        },
        Option::None => rest,
    }
}

fn mk_rels(src: &String, tkey: &String, ts: &Vec<String>, k: usize) -> (r: Vec<Relationship>)
    requires
        k <= ts@.len(),
    ensures
        rels_view(r@) == spec_mk_rels(
            src@,
            tkey@,
            strs_view(ts@).subrange(k as int, ts@.len() as int),
        ),
    decreases ts@.len() - k,
{
    proof {
        lemma_strs_view(ts@);
    }
    let ghost sub = strs_view(ts@).subrange(k as int, ts@.len() as int);
    if k >= ts.len() {
        let out: Vec<Relationship> = Vec::new();
        proof {
            assert(rels_view(out@) =~= spec_mk_rels(src@, tkey@, sub));
        }
        return out;
    }
    proof {
        assert(sub[0] == strs_view(ts@)[k as int]);
        assert(sub.drop_first() =~= strs_view(ts@).subrange(k + 1, ts@.len() as int));
    }
    let target_id = hack_lambda_attributes(tkey, ts[k].clone());
    let head = Relationship {
        source: src.clone(),
        target: target_id,
        label: crate::text::lit_string(""),
    };
    let rest = mk_rels(src, tkey, ts, k + 1);
    let ghost gh = head;
    let ghost grest = rest@;
    let mut out = rest;
    out.insert(0, head);
    proof {
        reveal_strlit("");
        assert(""@ =~= Seq::<char>::empty());
        assert(out@ =~= seq![gh] + grest);
        assert(out@.drop_first() =~= grest);
        assert(out@[0] == gh);
        assert(rels_view(out@) =~= seq![gh@] + rels_view(grest));
    }
    out
}

fn dedup_rels(rels: Vec<Relationship>) -> (r: Vec<Relationship>)
    ensures
        rels_view(r@) == spec_dedup_rels(rels_view(rels@)),
{
    proof {
        lemma_rels_view(rels@);
    }
    if rels.len() == 0 {
        proof {
            assert(rels_view(rels@) =~= Seq::<RelationshipV>::empty());
        }
        return rels;
    }
    let mut out: Vec<Relationship> = Vec::new();
    let n = rels.len();
    let ghost rv = rels_view(rels@);
    let mut i: usize = 1;
    let first = rels[0].clone();
    let mut prev_idx: usize = 0;
    out.push(first);
    proof {
        assert(out@.len() == 1);
        assert(out@[0]@ == rv[0]);
        assert(rels_view(out@) =~= seq![rv[0]] + rels_view(out@.drop_first()));
        assert(out@.drop_first() =~= Seq::<Relationship>::empty());
        assert(rels_view(Seq::<Relationship>::empty()) =~= Seq::<RelationshipV>::empty());
        assert(rels_view(out@) =~= seq![rv[0]] + spec_dedup_tail(
            rv.subrange(1, 1),
            rv[prev_idx as int],
        ));
    }
    while i < n
        invariant
            1 <= i <= n,
            n == rels@.len(),
            prev_idx < i,
            rv == rels_view(rels@),
            rv.len() == n,
            forall|j: int| 0 <= j < n ==> #[trigger] rels_view(rels@)[j] == rels@[j]@,
            out@.len() >= 1,
            rels_view(out@) + spec_dedup_tail(rv.subrange(i as int, n as int), rv[prev_idx as int])
                == spec_dedup_rels(rv),
            out@[out@.len() - 1]@ == rv[prev_idx as int],
        decreases n - i,
    {
        let ghost sub = rv.subrange(i as int, n as int);
        proof {
            assert(sub[0] == rv[i as int]);
            assert(sub.drop_first() =~= rv.subrange(i + 1, n as int));
        }
        let same = rels[i].target.eq(&rels[prev_idx].target);
        if !same {
            let item = rels[i].clone();
            let ghost gout = out@;
            out.push(item);
            proof {
                lemma_rels_view(gout);
                lemma_rels_view(out@);
                assert(out@.len() == gout.len() + 1);
                assert(out@[out@.len() - 1]@ == rv[i as int]);
                lemma_rels_concat(gout, out@.subrange(gout.len() as int, out@.len() as int));
                assert(out@ =~= gout + out@.subrange(gout.len() as int, out@.len() as int));
                assert(rels_view(out@.subrange(gout.len() as int, out@.len() as int)) =~= seq![
                    rv[i as int],
                ]);
            }
            prev_idx = i;
        }
        i = i + 1;
    }
    proof {
        assert(rv.subrange(n as int, n as int) =~= Seq::<RelationshipV>::empty());
        assert(spec_dedup_tail(Seq::<RelationshipV>::empty(), rv[prev_idx as int]) =~= Seq::<
            RelationshipV,
        >::empty());
        assert(rels_view(out@) + Seq::<RelationshipV>::empty() =~= rels_view(out@));
    }
    out
}

pub proof fn lemma_rels_concat(a: Seq<Relationship>, b: Seq<Relationship>)
    ensures
        rels_view(a + b) == rels_view(a) + rels_view(b),
{
    lemma_rels_view(a);
    lemma_rels_view(b);
    lemma_rels_view(a + b);
    assert(rels_view(a + b) =~= rels_view(a) + rels_view(b));
}

/// Extract this block's relationships according to the per-resource-type
/// specifications: query the source and target paths, clean the
/// identifiers, and emit one edge per distinct target.
pub fn parse(
    block: &TerraformBlockWithTwoIdentifiers,
    aws_relationship_specs: &Vec<(String, Relationship)>,
) -> (r: Vec<Relationship>)
    ensures
        rels_view(r@) == spec_parse_relationships(block@, specs_view(aws_relationship_specs@)),
{
    match lookup_spec(aws_relationship_specs, &block.first_identifier) {
        Option::None => {
            let out: Vec<Relationship> = Vec::new();
            proof {
                assert(rels_view(out@) =~= Seq::<RelationshipV>::empty());
            }
            out
        },
        Some(rel) => {
            let source_tf_result = jmespath_query(block, rel.source.as_str());
            let target_tf_result = jmespath_query(block, rel.target.as_str());
            let extracted_source = extract_query_result(&source_tf_result);
            let extracted_target = extract_query_result(&target_tf_result);
            proof {
                lemma_strs_view(extracted_source@);
            }
            if extracted_source.len() == 0 {
                let out: Vec<Relationship> = Vec::new();
                proof {
                    assert(rels_view(out@) =~= Seq::<RelationshipV>::empty());
                }
                return out;
            }
            match clean_resource_identifier(&extracted_source[0]) {
                Option::None => {
                    let out: Vec<Relationship> = Vec::new();
                    proof {
                        assert(rels_view(out@) =~= Seq::<RelationshipV>::empty());
                    }
                    out
                },
                Some(source_val) => {
                    let cleaned_targets = clean_list(&extracted_target, 0);
                    proof {
                        lemma_strs_view(extracted_target@);
                        assert(strs_view(extracted_target@).subrange(
                            0,
                            extracted_target@.len() as int,
                        ) =~= strs_view(extracted_target@));
                        lemma_strs_view(cleaned_targets@);
                    }
                    if cleaned_targets.len() > 0 {
                        let lambda_hack_source = hack_lambda_attributes(&rel.source, source_val);
                        let new_relationships = mk_rels(
                            &lambda_hack_source,
                            &rel.target,
                            &cleaned_targets,
                            0,
                        );
                        proof {
                            assert(strs_view(cleaned_targets@).subrange(
                                0,
                                cleaned_targets@.len() as int,
                            ) =~= strs_view(cleaned_targets@));
                        }
                        dedup_rels(new_relationships)
                    } else {
                        let out: Vec<Relationship> = Vec::new();
                        proof {
                            assert(rels_view(out@) =~= Seq::<RelationshipV>::empty());
                        }
                        out
                    }
                },
            }
        },
    }
}

} // verus!
