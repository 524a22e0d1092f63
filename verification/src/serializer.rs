use vstd::prelude::*;

use crate::model::{
    at_seq_view, attr_seq_view, jv_pairs_view, jv_seq_view, Attribute, AttributeType, AttributeTypeV, AttributeV, JsonValue, JsonValueV, TemplateString,
    TemplateStringV, TerraformBlock, TerraformBlockV,
};
use crate::number::spec_render_fixed1;
use crate::text::{spec_contains_sub, spec_replace};

verus! {

broadcast use vstd::std_specs::vec::group_vec_axioms;

/// A string value in the rendered output: quoted, with apostrophes
/// removed.
pub open spec fn spec_visit_str(s: Seq<char>) -> Seq<char> {
    seq!['"'] + spec_replace(s, "'"@, Seq::empty()) + seq!['"']
}

/// A templated string renders as its reference; built-in calls render as
/// a fixed marker, and anything naming `md5` is blanked.
pub open spec fn spec_visit_ts(t: TemplateStringV) -> Seq<char> {
    let val = match t {
        TemplateStringV::Variable(v) => v,
        TemplateStringV::BuiltInFunction(_, _) => "builtinfunction"@,
    };
    seq!['"'] + (if spec_contains_sub(val, "md5"@) {
        Seq::<char>::empty()
    } else {
        val
    }) + seq!['"']
}

pub open spec fn spec_visit_bool(b: bool) -> Seq<char> {
    if b {
        seq!['"'] + "true"@ + seq!['"']
    } else {
        seq!['"'] + "false"@ + seq!['"']
    }
}

pub open spec fn spec_visit_num(n: crate::number::NumberV) -> Seq<char> {
    seq!['"'] + spec_render_fixed1(n) + seq!['"']
}

/// One value of the tree rendered as diagram JSON.
pub open spec fn spec_visit_at(a: AttributeTypeV) -> Seq<char>
    decreases a,
{
    match a {
        AttributeTypeV::Str(s) => spec_visit_str(s),
        AttributeTypeV::TemplatedString(t) => spec_visit_ts(t),
        AttributeTypeV::Boolean(b) => spec_visit_bool(b),
        AttributeTypeV::Num(n) => spec_visit_num(n),
        AttributeTypeV::Array(vs) => seq!['['] + spec_visit_elems(vs) + seq![']'],
        AttributeTypeV::Block(attrs) => seq!['{'] + spec_visit_attrs(attrs) + seq!['}'],
        AttributeTypeV::TFBlock(b) => spec_visit_tfblock(b),
        AttributeTypeV::Json(j) => spec_visit_json(j),
    }
}

pub open spec fn spec_visit_elems(vs: Seq<AttributeTypeV>) -> Seq<char>
    decreases vs,
{
    if vs.len() == 0 {
        Seq::empty()
    } else if vs.len() == 1 {
        spec_visit_at(vs[0])
    } else {
        spec_visit_at(vs[0]) + seq![','] + spec_visit_elems(vs.drop_first())
    }
}

pub open spec fn spec_visit_attr(a: AttributeV) -> Seq<char>
    decreases a,
{
    seq!['"'] + a.key + seq!['"', ':'] + spec_visit_at(a.value)
}

pub open spec fn spec_visit_attrs(attrs: Seq<AttributeV>) -> Seq<char>
    decreases attrs,
{
    if attrs.len() == 0 {
        Seq::empty()
    } else if attrs.len() == 1 {
        spec_visit_attr(attrs[0])
    } else {
        spec_visit_attr(attrs[0]) + seq![','] + spec_visit_attrs(attrs.drop_first())
    }
}

pub open spec fn spec_visit_json(j: JsonValueV) -> Seq<char>
    decreases j,
{
    match j {
        JsonValueV::Str(s) => spec_visit_str(s),
        JsonValueV::Boolean(b) => spec_visit_bool(b),
        JsonValueV::Num(n) => spec_visit_num(n),
        JsonValueV::Null => spec_visit_str("null"@),
        JsonValueV::Array(vs) => seq!['['] + spec_visit_jelems(vs) + seq![']'],
        JsonValueV::Object(ps) => seq!['{'] + spec_visit_jpairs(ps) + seq!['}'],
    }
}

pub open spec fn spec_visit_jelems(vs: Seq<JsonValueV>) -> Seq<char>
    decreases vs,
{
    if vs.len() == 0 {
        Seq::empty()
    } else if vs.len() == 1 {
        spec_visit_json(vs[0])
    } else {
        spec_visit_json(vs[0]) + seq![','] + spec_visit_jelems(vs.drop_first())
    }
}

pub open spec fn spec_visit_jpair(p: (Seq<char>, JsonValueV)) -> Seq<char>
    decreases p,
{
    seq!['"'] + p.0 + seq!['"', ':'] + spec_visit_json(p.1)
}

pub open spec fn spec_visit_jpairs(ps: Seq<(Seq<char>, JsonValueV)>) -> Seq<char>
    decreases ps,
{
    if ps.len() == 0 {
        Seq::empty()
    } else if ps.len() == 1 {
        spec_visit_jpair(ps[0])
    } else {
        spec_visit_jpair(ps[0]) + seq![','] + spec_visit_jpairs(ps.drop_first())
    }
}

/// A whole block as diagram JSON: two-identifier blocks expose the first
/// identifier as the type and the second as the name.
pub open spec fn spec_visit_tfblock(b: TerraformBlockV) -> Seq<char>
    decreases b,
{
    match b {
        TerraformBlockV::NoIdentifiers { block_type, attributes } => "{\"type\":\""@ + block_type
            + "\",\"body\":{"@ + spec_visit_attrs(attributes) + "}}"@,
        TerraformBlockV::WithOneIdentifier { block_type, first_identifier, attributes } =>
            "{\"type\":\""@ + block_type + "\",\"name\":\""@ + first_identifier
            + "\",\"body\":{"@ + spec_visit_attrs(attributes) + "}}"@,
        TerraformBlockV::WithTwoIdentifiers {
            block_type,
            first_identifier,
            second_identifier,
            attributes,
        } => "{\"type\":\""@ + first_identifier + "\",\"name\":\""@ + second_identifier
            + "\",\"body\":{"@ + spec_visit_attrs(attributes) + "}}"@,
    }
}

fn render_str(value: &String) -> (r: String)
    ensures
        r@ == spec_visit_str(value@),
{
    let mut s = String::new();
    s.append("\"");
    let cleaned = crate::text::replace_str(value, "'", "");
    s.append(cleaned.as_str());
    s.append("\"");
    proof {
        reveal_strlit("\"");
        reveal_strlit("");
        assert("\""@ =~= seq!['"']);
        assert(""@ =~= Seq::<char>::empty());
        assert(s@ =~= spec_visit_str(value@));
    }
    s
}

fn render_ts(value: &TemplateString) -> (r: String)
    ensures
        r@ == spec_visit_ts(value@),
{
    let val: String = match value {
        TemplateString::Variable(tstring) => tstring.clone(),
        TemplateString::BuiltInFunction(_) => crate::text::lit_string("builtinfunction"),
    };
    let mut s = String::new();
    s.append("\"");
    if !crate::text::contains_sub(&val, "md5") {
        s.append(val.as_str());
    }
    s.append("\"");
    proof {
        reveal_strlit("\"");
        assert("\""@ =~= seq!['"']);
        assert(s@ =~= spec_visit_ts(value@));
    }
    s
}

fn render_bool(value: bool) -> (r: String)
    ensures
        r@ == spec_visit_bool(value),
{
    let mut s = String::new();
    s.append("\"");
    if value {
        s.append("true");
    } else {
        s.append("false");
    }
    s.append("\"");
    proof {
        reveal_strlit("\"");
        assert("\""@ =~= seq!['"']);
        assert(s@ =~= spec_visit_bool(value));
    }
    s
}

fn render_num(value: &crate::number::Number) -> (r: String)
    ensures
        r@ == spec_visit_num(value@),
{
    let mut s = String::new();
    s.append("\"");
    let lit = value.to_fixed1();
    s.append(lit.as_str());
    s.append("\"");
    proof {
        reveal_strlit("\"");
        assert("\""@ =~= seq!['"']);
        assert(s@ =~= spec_visit_num(value@));
    }
    s
}

fn render_at(a: &AttributeType) -> (r: String)
    ensures
        r@ == spec_visit_at(a@),
    decreases a,
{
    match a {
        AttributeType::Str(s) => render_str(s),
        AttributeType::TemplatedString(t) => render_ts(t),
        AttributeType::Boolean(b) => render_bool(*b),
        AttributeType::Num(n) => render_num(n),
        AttributeType::Array(vs) => {
            let mut s = String::new();
            s.append("[");
            let body = render_elems(vs, 0);
            s.append(body.as_str());
            s.append("]");
            proof {
                reveal_strlit("[");
                reveal_strlit("]");
                assert("["@ =~= seq!['[']);
                assert("]"@ =~= seq![']']);
                crate::model::lemma_at_seq_view(vs@);
                assert(at_seq_view(vs@).subrange(0, vs@.len() as int) =~= at_seq_view(vs@));
                assert(s@ =~= spec_visit_at(a@));
            }
            s
        },
        AttributeType::Block(attrs) => {
            let mut s = String::new();
            s.append("{");
            let body = render_attrs(attrs, 0);
            s.append(body.as_str());
            s.append("}");
            proof {
                reveal_strlit("{");
                reveal_strlit("}");
                assert("{"@ =~= seq!['{']);
                assert("}"@ =~= seq!['}']);
                crate::model::lemma_attr_seq_view(attrs@);
                assert(attr_seq_view(attrs@).subrange(0, attrs@.len() as int) =~= attr_seq_view(
                    attrs@,
                ));
                assert(s@ =~= spec_visit_at(a@));
            }
            s
        },
        AttributeType::TFBlock(b) => render_tfblock_rec(b),
        AttributeType::Json(j) => render_json(j),
    }
}

fn render_elems(vs: &Vec<AttributeType>, k: usize) -> (r: String)
    requires
        k <= vs@.len(),
    ensures
        r@ == spec_visit_elems(at_seq_view(vs@).subrange(k as int, vs@.len() as int)),
    decreases vs, vs@.len() - k,
{
    proof {
        crate::model::lemma_at_seq_view(vs@);
    }
    let ghost sub = at_seq_view(vs@).subrange(k as int, vs@.len() as int);
    if k >= vs.len() {
        let s = String::new();
        return s;
    }
    proof {
        assert(sub[0] == at_seq_view(vs@)[k as int]);
        assert(sub.drop_first() =~= at_seq_view(vs@).subrange(k + 1, vs@.len() as int));
    }
    let mut s = render_at(&vs[k]);
    if k + 1 < vs.len() {
        s.append(",");
        let rest = render_elems(vs, k + 1);
        s.append(rest.as_str());
        proof {
            reveal_strlit(",");
            assert(","@ =~= seq![',']);
            assert(s@ =~= spec_visit_elems(sub));
        }
    }
    s
}

fn render_attr(a: &Attribute) -> (r: String)
    ensures
        r@ == spec_visit_attr(a@),
    decreases a,
{
    let mut s = String::new();
    s.append("\"");
    s.append(a.key.as_str());
    s.append("\":");
    let v = render_at(&a.value);
    s.append(v.as_str());
    proof {
        reveal_strlit("\"");
        reveal_strlit("\":");
        assert("\""@ =~= seq!['"']);
        assert("\":"@ =~= seq!['"', ':']);
        assert(s@ =~= spec_visit_attr(a@));
    }
    s
}

fn render_attrs(attrs: &Vec<Attribute>, k: usize) -> (r: String)
    requires
        k <= attrs@.len(),
    ensures
        r@ == spec_visit_attrs(attr_seq_view(attrs@).subrange(k as int, attrs@.len() as int)),
    decreases attrs, attrs@.len() - k,
{
    proof {
        crate::model::lemma_attr_seq_view(attrs@);
    }
    let ghost sub = attr_seq_view(attrs@).subrange(k as int, attrs@.len() as int);
    if k >= attrs.len() {
        let s = String::new();
        return s;
    }
    proof {
        assert(sub[0] == attr_seq_view(attrs@)[k as int]);
        assert(sub.drop_first() =~= attr_seq_view(attrs@).subrange(k + 1, attrs@.len() as int));
    }
    let mut s = render_attr(&attrs[k]);
    if k + 1 < attrs.len() {
        s.append(",");
        let rest = render_attrs(attrs, k + 1);
        s.append(rest.as_str());
        proof {
            reveal_strlit(",");
            assert(","@ =~= seq![',']);
            assert(s@ =~= spec_visit_attrs(sub));
        }
    }
    s
}

fn render_json(j: &JsonValue) -> (r: String)
    ensures
        r@ == spec_visit_json(j@),
    decreases j,
{
    match j {
        JsonValue::Str(s) => render_str(s),
        JsonValue::Boolean(b) => render_bool(*b),
        JsonValue::Num(n) => render_num(n),
        JsonValue::Null => {
            let nl = crate::text::lit_string("null");
            let r = render_str(&nl);
            r
        },
        JsonValue::Array(vs) => {
            let mut s = String::new();
            s.append("[");
            let body = render_jelems(vs, 0);
            s.append(body.as_str());
            s.append("]");
            proof {
                reveal_strlit("[");
                reveal_strlit("]");
                assert("["@ =~= seq!['[']);
                assert("]"@ =~= seq![']']);
                crate::model::lemma_jv_seq_view(vs@);
                assert(jv_seq_view(vs@).subrange(0, vs@.len() as int) =~= jv_seq_view(vs@));
                assert(s@ =~= spec_visit_json(j@));
            }
            s
        },
        JsonValue::Object(ps) => {
            let mut s = String::new();
            s.append("{");
            let body = render_jpairs(ps, 0);
            s.append(body.as_str());
            s.append("}");
            proof {
                reveal_strlit("{");
                reveal_strlit("}");
                assert("{"@ =~= seq!['{']);
                assert("}"@ =~= seq!['}']);
                crate::model::lemma_jv_pairs_view(ps@);
                assert(jv_pairs_view(ps@).subrange(0, ps@.len() as int) =~= jv_pairs_view(ps@));
                assert(s@ =~= spec_visit_json(j@));
            }
            s
        },
    }
}

fn render_jelems(vs: &Vec<JsonValue>, k: usize) -> (r: String)
    requires
        k <= vs@.len(),
    ensures
        r@ == spec_visit_jelems(jv_seq_view(vs@).subrange(k as int, vs@.len() as int)),
    decreases vs, vs@.len() - k,
{
    proof {
        crate::model::lemma_jv_seq_view(vs@);
    }
    let ghost sub = jv_seq_view(vs@).subrange(k as int, vs@.len() as int);
    if k >= vs.len() {
        let s = String::new();
        return s;
    }
    proof {
        assert(sub[0] == jv_seq_view(vs@)[k as int]);
        assert(sub.drop_first() =~= jv_seq_view(vs@).subrange(k + 1, vs@.len() as int));
    }
    let mut s = render_json(&vs[k]);
    if k + 1 < vs.len() {
        s.append(",");
        let rest = render_jelems(vs, k + 1);
        s.append(rest.as_str());
        proof {
            reveal_strlit(",");
            assert(","@ =~= seq![',']);
            assert(s@ =~= spec_visit_jelems(sub));
        }
    }
    s
}

fn render_jpairs(ps: &Vec<(String, JsonValue)>, k: usize) -> (r: String)
    requires
        k <= ps@.len(),
    ensures
        r@ == spec_visit_jpairs(jv_pairs_view(ps@).subrange(k as int, ps@.len() as int)),
    decreases ps, ps@.len() - k,
{
    proof {
        crate::model::lemma_jv_pairs_view(ps@);
    }
    let ghost sub = jv_pairs_view(ps@).subrange(k as int, ps@.len() as int);
    if k >= ps.len() {
        let s = String::new();
        return s;
    }
    proof {
        assert(sub[0] == jv_pairs_view(ps@)[k as int]);
        assert(sub.drop_first() =~= jv_pairs_view(ps@).subrange(k + 1, ps@.len() as int));
    }
    let pair = &ps[k];
    let mut s = String::new();
    s.append("\"");
    s.append(pair.0.as_str());
    s.append("\":");
    let v = render_json(&pair.1);
    s.append(v.as_str());
    proof {
        reveal_strlit("\"");
        reveal_strlit("\":");
        assert("\""@ =~= seq!['"']);
        assert("\":"@ =~= seq!['"', ':']);
        assert(s@ =~= spec_visit_jpair(sub[0]));
    }
    if k + 1 < ps.len() {
        s.append(",");
        let rest = render_jpairs(ps, k + 1);
        s.append(rest.as_str());
        proof {
            reveal_strlit(",");
            assert(","@ =~= seq![',']);
            assert(s@ =~= spec_visit_jpairs(sub));
        }
    }
    s
}

fn render_tfblock_rec(b: &TerraformBlock) -> (r: String)
    ensures
        r@ == spec_visit_tfblock(b@),
    decreases b,
{
    match b {
        TerraformBlock::NoIdentifiers(x) => {
            let mut s = String::new();
            s.append("{\"type\":\"");
            s.append(x.block_type.as_str());
            s.append("\",\"body\":{");
            let body = render_attrs(&x.attributes, 0);
            s.append(body.as_str());
            s.append("}}");
            proof {
                crate::model::lemma_attr_seq_view(x.attributes@);
                assert(attr_seq_view(x.attributes@).subrange(
                    0,
                    x.attributes@.len() as int,
                ) =~= attr_seq_view(x.attributes@));
                assert(s@ =~= spec_visit_tfblock(b@));
            }
            s
        },
        TerraformBlock::WithOneIdentifier(x) => {
            let mut s = String::new();
            s.append("{\"type\":\"");
            s.append(x.block_type.as_str());
            s.append("\",\"name\":\"");
            s.append(x.first_identifier.as_str());
            s.append("\",\"body\":{");
            let body = render_attrs(&x.attributes, 0);
            s.append(body.as_str());
            s.append("}}");
            proof {
                crate::model::lemma_attr_seq_view(x.attributes@);
                assert(attr_seq_view(x.attributes@).subrange(
                    0,
                    x.attributes@.len() as int,
                ) =~= attr_seq_view(x.attributes@));
                assert(s@ =~= spec_visit_tfblock(b@));
            }
            s
        },
        TerraformBlock::WithTwoIdentifiers(x) => {
            let mut s = String::new();
            s.append("{\"type\":\"");
            s.append(x.first_identifier.as_str());
            s.append("\",\"name\":\"");
            s.append(x.second_identifier.as_str());
            s.append("\",\"body\":{");
            let body = render_attrs(&x.attributes, 0);
            s.append(body.as_str());
            s.append("}}");
            proof {
                crate::model::lemma_attr_seq_view(x.attributes@);
                assert(attr_seq_view(x.attributes@).subrange(
                    0,
                    x.attributes@.len() as int,
                ) =~= attr_seq_view(x.attributes@));
                assert(s@ =~= spec_visit_tfblock(b@));
            }
            s
        },
    }
}


/// One relationship as an edge object.
pub open spec fn spec_render_rel(r: crate::relationships::RelationshipV) -> Seq<char> {
    "{\"in\":\""@ + r.source + "\",\"out\":\""@ + r.target + "\",\"label\":\""@ + r.label
        + "\"}"@
}

pub open spec fn spec_render_rels(rs: Seq<crate::relationships::RelationshipV>) -> Seq<char>
    decreases rs,
{
    if rs.len() == 0 {
        Seq::empty()
    } else if rs.len() == 1 {
        spec_render_rel(rs[0])
    } else {
        spec_render_rel(rs[0]) + seq![','] + spec_render_rels(rs.drop_first())
    }
}

/// Renders each structure of the parsed tree as diagram JSON, collecting
/// any relationships handed to it along the way.
pub struct JsonVisitor {
    pub relationships: Vec<crate::relationships::Relationship>,
}

impl JsonVisitor {
    /// Remember one discovered relationship.
    pub fn add_relationship(&mut self, relationship: crate::relationships::Relationship)
        ensures
            final(self).relationships@ == old(self).relationships@.push(relationship),
    {
        self.relationships.push(relationship);
    }

    /// The collected relationships as a JSON array.
    pub fn output_relationships(&self) -> (r: String)
        ensures
            r@ == seq!['['] + spec_render_rels(
                crate::relationships::rels_view(self.relationships@),
            ) + seq![']'],
    {
        proof {
            crate::relationships::lemma_rels_view(self.relationships@);
        }
        let mut s = String::new();
        s.append("[");
        let body = render_rels(&self.relationships, 0);
        s.append(body.as_str());
        s.append("]");
        proof {
            reveal_strlit("[");
            reveal_strlit("]");
            assert("["@ =~= seq!['[']);
            assert("]"@ =~= seq![']']);
            assert(crate::relationships::rels_view(self.relationships@).subrange(
                0,
                self.relationships@.len() as int,
            ) =~= crate::relationships::rels_view(self.relationships@));
            assert(s@ =~= seq!['['] + spec_render_rels(
                crate::relationships::rels_view(self.relationships@),
            ) + seq![']']);
        }
        s
    }

    pub fn visit_str(&self, value: &String) -> (r: String)
        ensures
            r@ == spec_visit_str(value@),
    {
        render_str(value)
    }

    pub fn visit_template_string(&self, value: &TemplateString) -> (r: String)
        ensures
            r@ == spec_visit_ts(value@),
    {
        render_ts(value)
    }

    pub fn visit_boolean(&self, value: &bool) -> (r: String)
        ensures
            r@ == spec_visit_bool(*value),
    {
        render_bool(*value)
    }

    pub fn visit_num(&self, value: &crate::number::Number) -> (r: String)
        ensures
            r@ == spec_visit_num(value@),
    {
        render_num(value)
    }

    pub fn visit_block(&self, value: &Vec<Attribute>) -> (r: String)
        ensures
            r@ == seq!['{'] + spec_visit_attrs(attr_seq_view(value@)) + seq!['}'],
    {
        let mut s = String::new();
        s.append("{");
        let body = render_attrs(value, 0);
        s.append(body.as_str());
        s.append("}");
        proof {
            reveal_strlit("{");
            reveal_strlit("}");
            assert("{"@ =~= seq!['{']);
            assert("}"@ =~= seq!['}']);
            crate::model::lemma_attr_seq_view(value@);
            assert(attr_seq_view(value@).subrange(0, value@.len() as int) =~= attr_seq_view(
                value@,
            ));
            assert(s@ =~= seq!['{'] + spec_visit_attrs(attr_seq_view(value@)) + seq!['}']);
        }
        s
    }

    pub fn visit_array(&self, value: &Vec<AttributeType>) -> (r: String)
        ensures
            r@ == seq!['['] + spec_visit_elems(at_seq_view(value@)) + seq![']'],
    {
        let mut s = String::new();
        s.append("[");
        let body = render_elems(value, 0);
        s.append(body.as_str());
        s.append("]");
        proof {
            reveal_strlit("[");
            reveal_strlit("]");
            assert("["@ =~= seq!['[']);
            assert("]"@ =~= seq![']']);
            crate::model::lemma_at_seq_view(value@);
            assert(at_seq_view(value@).subrange(0, value@.len() as int) =~= at_seq_view(value@));
            assert(s@ =~= seq!['['] + spec_visit_elems(at_seq_view(value@)) + seq![']']);
        }
        s
    }

    pub fn visit_json_array(&self, value: &Vec<JsonValue>) -> (r: String)
        ensures
            r@ == seq!['['] + spec_visit_jelems(jv_seq_view(value@)) + seq![']'],
    {
        let mut s = String::new();
        s.append("[");
        let body = render_jelems(value, 0);
        s.append(body.as_str());
        s.append("]");
        proof {
            reveal_strlit("[");
            reveal_strlit("]");
            assert("["@ =~= seq!['[']);
            assert("]"@ =~= seq![']']);
            crate::model::lemma_jv_seq_view(value@);
            assert(jv_seq_view(value@).subrange(0, value@.len() as int) =~= jv_seq_view(value@));
            assert(s@ =~= seq!['['] + spec_visit_jelems(jv_seq_view(value@)) + seq![']']);
        }
        s
    }

    pub fn visit_json_object(&self, value: &Vec<(String, JsonValue)>) -> (r: String)
        ensures
            r@ == seq!['{'] + spec_visit_jpairs(jv_pairs_view(value@)) + seq!['}'],
    {
        let mut s = String::new();
        s.append("{");
        let body = render_jpairs(value, 0);
        s.append(body.as_str());
        s.append("}");
        proof {
            reveal_strlit("{");
            reveal_strlit("}");
            assert("{"@ =~= seq!['{']);
            assert("}"@ =~= seq!['}']);
            crate::model::lemma_jv_pairs_view(value@);
            assert(jv_pairs_view(value@).subrange(0, value@.len() as int) =~= jv_pairs_view(
                value@,
            ));
            assert(s@ =~= seq!['{'] + spec_visit_jpairs(jv_pairs_view(value@)) + seq!['}']);
        }
        s
    }

    pub fn visit_json(&self, value: &JsonValue) -> (r: String)
        ensures
            r@ == spec_visit_json(value@),
    {
        render_json(value)
    }

    pub fn visit_attribute(&self, attr: &Attribute) -> (r: String)
        ensures
            r@ == spec_visit_attr(attr@),
    {
        render_attr(attr)
    }

    pub fn visit_tfblock(&self, value: &TerraformBlock) -> (r: String)
        ensures
            r@ == spec_visit_tfblock(value@),
    {
        render_tfblock_rec(value)
    }
}

fn render_rels(rels: &Vec<crate::relationships::Relationship>, k: usize) -> (r: String)
    requires
        k <= rels@.len(),
    ensures
        r@ == spec_render_rels(
            crate::relationships::rels_view(rels@).subrange(k as int, rels@.len() as int),
        ),
    decreases rels@.len() - k,
{
    proof {
        crate::relationships::lemma_rels_view(rels@);
    }
    let ghost sub = crate::relationships::rels_view(rels@).subrange(k as int, rels@.len() as int);
    if k >= rels.len() {
        let s = String::new();
        return s;
    }
    proof {
        assert(sub[0] == crate::relationships::rels_view(rels@)[k as int]);
        assert(sub.drop_first() =~= crate::relationships::rels_view(rels@).subrange(
            k + 1,
            rels@.len() as int,
        ));
    }
    let mut s = rels[k].render();
    if k + 1 < rels.len() {
        s.append(",");
        let rest = render_rels(rels, k + 1);
        s.append(rest.as_str());
        proof {
            reveal_strlit(",");
            assert(","@ =~= seq![',']);
            assert(s@ =~= spec_render_rels(sub));
        }
    }
    s
}

/// Walks the tree looking for relationships and hands rendering to the
/// downstream JSON visitor.
pub struct RelationshipVisitor {
    pub downstream_visitor: JsonVisitor,
    pub aws_relationship_specs: Vec<(String, crate::relationships::Relationship)>,
}

/// The dotted reference a single attribute value contributes: templated
/// references and plain strings with their attribute suffixes stripped;
/// anything else is empty.
pub open spec fn spec_extract_value(a: Option<AttributeV>) -> Option<Seq<char>> {
    match a {
        Some(attr) => match attr.value {
            AttributeTypeV::TemplatedString(TemplateStringV::Variable(v)) => Some(
                spec_replace(
                    spec_replace(v, ".id"@, Seq::empty()),
                    ".arn"@,
                    Seq::empty(),
                ),
            ),
            AttributeTypeV::TemplatedString(_) => Some(Seq::empty()),
            AttributeTypeV::Str(sv) => Some(
                spec_replace(
                    spec_replace(sv, ".id"@, Seq::empty()),
                    ".arn"@,
                    Seq::empty(),
                ),
            ),
            _ => Some(Seq::empty()),
        },
        Option::None => Some(Seq::empty()),
    }
}

impl RelationshipVisitor {
    /// The reference an attribute contributes to a relationship.
    pub fn extract_value(attribute: Option<&Attribute>) -> (r: Option<String>)
        ensures
            match (r, spec_extract_value(
                match attribute {
                    Some(a) => Some(a@),
                    Option::None => Option::None,
                },
            )) {
                (Some(v), Some(sv)) => v@ == sv,
                (Option::None, Option::None) => true,
                _ => false,
            },
    {
        proof {
            reveal_strlit("");
        }
        match attribute {
            Some(attr) => match &attr.value {
                AttributeType::TemplatedString(t) => match t {
                    TemplateString::Variable(v_string) => {
                        let t1 = crate::text::replace_str(v_string, ".id", "");
                        let t2 = crate::text::replace_str(&t1, ".arn", "");
                        proof {
                            assert(""@ =~= Seq::<char>::empty());
                        }
                        Some(t2)
                    },
                    _ => Some(String::new()),
                },
                AttributeType::Str(str_val) => {
                    let t1 = crate::text::replace_str(str_val, ".id", "");
                    let t2 = crate::text::replace_str(&t1, ".arn", "");
                    proof {
                        assert(""@ =~= Seq::<char>::empty());
                    }
                    Some(t2)
                },
                _ => Some(String::new()),
            },
            Option::None => Some(String::new()),
        }
    }

    /// ARNs are split into parts separated by a colon; from these parts a
    /// resource reference in dotted syntax is generated.
    pub fn convert_arn_to_dot_syntax(arn_resource: &String) -> (r: Option<String>)
        ensures
            match (r, crate::relationships::spec_convert_arn(arn_resource@)) {
                (Some(v), Some(sv)) => v@ == sv,
                (Option::None, Option::None) => true,
                _ => false,
            },
    {
        crate::relationships::convert_arn_to_dot_syntax(arn_resource)
    }

    pub fn visit_str(&self, value: &String) -> (r: String)
        ensures
            r@ == spec_visit_str(value@),
    {
        self.downstream_visitor.visit_str(value)
    }

    pub fn visit_template_string(&self, value: &TemplateString) -> (r: String)
        ensures
            r@ == spec_visit_ts(value@),
    {
        self.downstream_visitor.visit_template_string(value)
    }

    pub fn visit_boolean(&self, value: &bool) -> (r: String)
        ensures
            r@ == spec_visit_bool(*value),
    {
        self.downstream_visitor.visit_boolean(value)
    }

    pub fn visit_num(&self, value: &crate::number::Number) -> (r: String)
        ensures
            r@ == spec_visit_num(value@),
    {
        self.downstream_visitor.visit_num(value)
    }

    pub fn visit_block(&self, value: &Vec<Attribute>) -> (r: String)
        ensures
            r@ == seq!['{'] + spec_visit_attrs(attr_seq_view(value@)) + seq!['}'],
    {
        self.downstream_visitor.visit_block(value)
    }

    pub fn visit_array(&self, value: &Vec<AttributeType>) -> (r: String)
        ensures
            r@ == seq!['['] + spec_visit_elems(at_seq_view(value@)) + seq![']'],
    {
        self.downstream_visitor.visit_array(value)
    }

    pub fn visit_attribute(&self, value: &Attribute) -> (r: String)
        ensures
            r@ == spec_visit_attr(value@),
    {
        self.downstream_visitor.visit_attribute(value)
    }

    pub fn visit_tfblock(&self, value: &TerraformBlock) -> (r: String)
        ensures
            r@ == spec_visit_tfblock(value@),
    {
        self.downstream_visitor.visit_tfblock(value)
    }
}


pub open spec fn spec_render_filter(f: crate::policies::FilterV) -> Seq<char> {
    "{\"key\":\""@ + f.key + "\",\"op\":\""@ + f.op + "\",\"value\":\""@ + f.value + "\"}"@
}

pub open spec fn spec_render_fr(fr: crate::policy_evaluator::FilterResultV) -> Seq<char> {
    "{\"filter\":"@ + spec_render_filter(fr.filter) + ",\"result\":"@ + (if fr.result {
        "true"@
    } else {
        "false"@
    }) + "}"@
}

pub open spec fn spec_render_frs(s: Seq<crate::policy_evaluator::FilterResultV>) -> Seq<char>
    decreases s,
{
    if s.len() == 0 {
        Seq::empty()
    } else if s.len() == 1 {
        spec_render_fr(s[0])
    } else {
        spec_render_fr(s[0]) + seq![','] + spec_render_frs(s.drop_first())
    }
}

pub open spec fn spec_render_pr(pr: crate::policy_evaluator::PolicyResultV) -> Seq<char> {
    "{\"filters\":["@ + spec_render_frs(pr.filters) + "],\"policy_id\":\""@ + pr.policy_id
        + "\",\"policy_result\":"@ + (if pr.policy_result {
        "true"@
    } else {
        "false"@
    }) + "}"@
}

pub open spec fn spec_render_prs(s: Seq<crate::policy_evaluator::PolicyResultV>) -> Seq<char>
    decreases s,
{
    if s.len() == 0 {
        Seq::empty()
    } else if s.len() == 1 {
        spec_render_pr(s[0])
    } else {
        spec_render_pr(s[0]) + seq![','] + spec_render_prs(s.drop_first())
    }
}

pub open spec fn spec_render_entry(e: (Seq<char>, Seq<crate::policy_evaluator::PolicyResultV>)) -> Seq<char> {
    seq!['"'] + e.0 + "\":["@ + spec_render_prs(e.1) + seq![']']
}

pub open spec fn spec_render_entries(
    m: Seq<(Seq<char>, Seq<crate::policy_evaluator::PolicyResultV>)>,
) -> Seq<char>
    decreases m,
{
    if m.len() == 0 {
        Seq::empty()
    } else if m.len() == 1 {
        spec_render_entry(m[0])
    } else {
        spec_render_entry(m[0]) + seq![','] + spec_render_entries(m.drop_first())
    }
}

/// The grouped policy verdicts as one JSON object.
pub open spec fn spec_render_results(
    m: Seq<(Seq<char>, Seq<crate::policy_evaluator::PolicyResultV>)>,
) -> Seq<char> {
    seq!['{'] + spec_render_entries(m) + seq!['}']
}

pub open spec fn spec_render_blocks(bs: Seq<TerraformBlockV>) -> Seq<char>
    decreases bs,
{
    if bs.len() == 0 {
        Seq::empty()
    } else if bs.len() == 1 {
        spec_visit_tfblock(bs[0])
    } else {
        spec_visit_tfblock(bs[0]) + seq![','] + spec_render_blocks(bs.drop_first())
    }
}

/// The whole document handed downstream: rendered resources, the
/// discovered relationships, and the policy verdicts.
pub open spec fn spec_dispatch(
    bs: Seq<TerraformBlockV>,
    results: Seq<(Seq<char>, Seq<crate::policy_evaluator::PolicyResultV>)>,
) -> Seq<char> {
    "{\"resources\":["@ + spec_render_blocks(bs) + "],\"relationships\":[],\"policy_results\":"@
        + spec_render_results(results) + seq!['}']
}

fn render_filter(f: &crate::policies::Filter) -> (r: String)
    ensures
        r@ == spec_render_filter(f@),
{
    let mut s = String::new();
    s.append("{\"key\":\"");
    s.append(f.key.as_str());
    s.append("\",\"op\":\"");
    s.append(f.op.as_str());
    s.append("\",\"value\":\"");
    s.append(f.value.as_str());
    s.append("\"}");
    s
}

fn render_fr(fr: &crate::policy_evaluator::FilterResult) -> (r: String)
    ensures
        r@ == spec_render_fr(fr@),
{
    let mut s = String::new();
    s.append("{\"filter\":");
    let f = render_filter(&fr.filter);
    s.append(f.as_str());
    s.append(",\"result\":");
    if fr.result {
        s.append("true");
    } else {
        s.append("false");
    }
    s.append("}");
    proof {
        reveal_strlit("}");
        assert("}"@ =~= seq!['}']);
        assert(s@ =~= spec_render_fr(fr@));
    }
    s
}

fn render_frs(frs: &Vec<crate::policy_evaluator::FilterResult>, k: usize) -> (r: String)
    requires
        k <= frs@.len(),
    ensures
        r@ == spec_render_frs(
            crate::policy_evaluator::frs_view(frs@).subrange(k as int, frs@.len() as int),
        ),
    decreases frs@.len() - k,
{
    proof {
        crate::policy_evaluator::lemma_frs_view(frs@);
    }
    let ghost sub = crate::policy_evaluator::frs_view(frs@).subrange(k as int, frs@.len() as int);
    if k >= frs.len() {
        let s = String::new();
        return s;
    }
    proof {
        assert(sub[0] == crate::policy_evaluator::frs_view(frs@)[k as int]);
        assert(sub.drop_first() =~= crate::policy_evaluator::frs_view(frs@).subrange(
            k + 1,
            frs@.len() as int,
        ));
    }
    let mut s = render_fr(&frs[k]);
    if k + 1 < frs.len() {
        s.append(",");
        let rest = render_frs(frs, k + 1);
        s.append(rest.as_str());
        proof {
            reveal_strlit(",");
            assert(","@ =~= seq![',']);
            assert(s@ =~= spec_render_frs(sub));
        }
    }
    s
}

fn render_pr(pr: &crate::policy_evaluator::PolicyResult) -> (r: String)
    ensures
        r@ == spec_render_pr(pr@),
{
    let mut s = String::new();
    s.append("{\"filters\":[");
    let body = render_frs(&pr.filters, 0);
    s.append(body.as_str());
    s.append("],\"policy_id\":\"");
    s.append(pr.policy_id.as_str());
    s.append("\",\"policy_result\":");
    if pr.policy_result {
        s.append("true");
    } else {
        s.append("false");
    }
    s.append("}");
    proof {
        reveal_strlit("}");
        assert("}"@ =~= seq!['}']);
        crate::policy_evaluator::lemma_frs_view(pr.filters@);
        assert(crate::policy_evaluator::frs_view(pr.filters@).subrange(
            0,
            pr.filters@.len() as int,
        ) =~= crate::policy_evaluator::frs_view(pr.filters@));
        assert(s@ =~= spec_render_pr(pr@));
    }
    s
}

fn render_prs(prs: &Vec<crate::policy_evaluator::PolicyResult>, k: usize) -> (r: String)
    requires
        k <= prs@.len(),
    ensures
        r@ == spec_render_prs(
            crate::policy_evaluator::prs_view(prs@).subrange(k as int, prs@.len() as int),
        ),
    decreases prs@.len() - k,
{
    proof {
        crate::policy_evaluator::lemma_prs_view(prs@);
    }
    let ghost sub = crate::policy_evaluator::prs_view(prs@).subrange(k as int, prs@.len() as int);
    if k >= prs.len() {
        let s = String::new();
        return s;
    }
    proof {
        assert(sub[0] == crate::policy_evaluator::prs_view(prs@)[k as int]);
        assert(sub.drop_first() =~= crate::policy_evaluator::prs_view(prs@).subrange(
            k + 1,
            prs@.len() as int,
        ));
    }
    let mut s = render_pr(&prs[k]);
    if k + 1 < prs.len() {
        s.append(",");
        let rest = render_prs(prs, k + 1);
        s.append(rest.as_str());
        proof {
            reveal_strlit(",");
            assert(","@ =~= seq![',']);
            assert(s@ =~= spec_render_prs(sub));
        }
    }
    s
}

fn render_entries(
    m: &Vec<(String, Vec<crate::policy_evaluator::PolicyResult>)>,
    k: usize,
) -> (r: String)
    requires
        k <= m@.len(),
    ensures
        r@ == spec_render_entries(
            crate::policy_evaluator::results_view(m@).subrange(k as int, m@.len() as int),
        ),
    decreases m@.len() - k,
{
    proof {
        crate::policy_evaluator::lemma_results_view(m@);
    }
    let ghost sub = crate::policy_evaluator::results_view(m@).subrange(k as int, m@.len() as int);
    if k >= m.len() {
        let s = String::new();
        return s;
    }
    proof {
        assert(sub[0] == crate::policy_evaluator::results_view(m@)[k as int]);
        assert(sub.drop_first() =~= crate::policy_evaluator::results_view(m@).subrange(
            k + 1,
            m@.len() as int,
        ));
    }
    let entry = &m[k];
    let mut s = String::new();
    s.append("\"");
    s.append(entry.0.as_str());
    s.append("\":[");
    let body = render_prs(&entry.1, 0);
    s.append(body.as_str());
    s.append("]");
    proof {
        reveal_strlit("\"");
        reveal_strlit("]");
        assert("\""@ =~= seq!['"']);
        assert("]"@ =~= seq![']']);
        crate::policy_evaluator::lemma_prs_view(entry.1@);
        assert(crate::policy_evaluator::prs_view(entry.1@).subrange(
            0,
            entry.1@.len() as int,
        ) =~= crate::policy_evaluator::prs_view(entry.1@));
        assert(s@ =~= spec_render_entry(sub[0]));
    }
    if k + 1 < m.len() {
        s.append(",");
        let rest = render_entries(m, k + 1);
        s.append(rest.as_str());
        proof {
            reveal_strlit(",");
            assert(","@ =~= seq![',']);
            assert(s@ =~= spec_render_entries(sub));
        }
    }
    s
}

fn render_blocks(bs: &Vec<TerraformBlock>, k: usize) -> (r: String)
    requires
        k <= bs@.len(),
    ensures
        r@ == spec_render_blocks(
            crate::model::tfb_seq_view(bs@).subrange(k as int, bs@.len() as int),
        ),
    decreases bs@.len() - k,
{
    proof {
        crate::model::lemma_tfb_seq_view(bs@);
    }
    let ghost sub = crate::model::tfb_seq_view(bs@).subrange(k as int, bs@.len() as int);
    if k >= bs.len() {
        let s = String::new();
        return s;
    }
    proof {
        assert(sub[0] == crate::model::tfb_seq_view(bs@)[k as int]);
        assert(sub.drop_first() =~= crate::model::tfb_seq_view(bs@).subrange(
            k + 1,
            bs@.len() as int,
        ));
    }
    let mut s = render_tfblock_rec(&bs[k]);
    if k + 1 < bs.len() {
        s.append(",");
        let rest = render_blocks(bs, k + 1);
        s.append(rest.as_str());
        proof {
            reveal_strlit(",");
            assert(","@ =~= seq![',']);
            assert(s@ =~= spec_render_blocks(sub));
        }
    }
    s
}

/// Render the parsed resources, the discovered relationships, and the
/// policy verdicts as one JSON document.
#[verifier::rlimit(100)]
pub fn dispatch(
    resources: &Vec<TerraformBlock>,
    aws_relationship_specs: Vec<(String, crate::relationships::Relationship)>,
    policies: crate::policies::Policies,
) -> (r: String)
    requires
        crate::policy_evaluator::policies_bounded(policies.policies@),
    ensures
        r@ == spec_dispatch(
            crate::model::tfb_seq_view(resources@),
            crate::policy_evaluator::spec_evaluate(
                crate::policy_evaluator::policies_view(policies.policies@),
                crate::model::tfb_seq_view(resources@),
            ),
        ),
{
    let json_visitor = JsonVisitor { relationships: Vec::new() };
    let visitor = RelationshipVisitor {
        downstream_visitor: json_visitor,
        aws_relationship_specs,
    };
    let mut s = String::new();
    s.append("{\"resources\":[");
    let blocks = render_blocks(resources, 0);
    s.append(blocks.as_str());
    s.append("],\"relationships\":");
    let rels = visitor.downstream_visitor.output_relationships();
    s.append(rels.as_str());
    s.append(",\"policy_results\":");
    let policy_results = crate::policy_evaluator::evaluate(policies, resources);
    s.append("{");
    let entries = render_entries(&policy_results, 0);
    s.append(entries.as_str());
    s.append("}");
    s.append("}");
    proof {
        reveal_strlit("{");
        reveal_strlit("}");
        reveal_strlit("[]");
        reveal_strlit("],\"relationships\":");
        reveal_strlit(",\"policy_results\":");
        reveal_strlit("],\"relationships\":[],\"policy_results\":");
        assert("{"@ =~= seq!['{']);
        assert("}"@ =~= seq!['}']);
        crate::model::lemma_tfb_seq_view(resources@);
        assert(crate::model::tfb_seq_view(resources@).subrange(
            0,
            resources@.len() as int,
        ) =~= crate::model::tfb_seq_view(resources@));
        crate::policy_evaluator::lemma_results_view(policy_results@);
        assert(crate::policy_evaluator::results_view(policy_results@).subrange(
            0,
            policy_results@.len() as int,
        ) =~= crate::policy_evaluator::results_view(policy_results@));
        assert(crate::relationships::rels_view(Seq::<
            crate::relationships::Relationship,
        >::empty()) =~= Seq::<crate::relationships::RelationshipV>::empty());
        assert(spec_render_rels(Seq::<crate::relationships::RelationshipV>::empty()) =~= Seq::<
            char,
        >::empty());
        assert(rels@ =~= "[]"@);
        let bsv = crate::model::tfb_seq_view(resources@);
        let rsv = crate::policy_evaluator::results_view(policy_results@);
        assert(s@ =~= "{\"resources\":["@ + spec_render_blocks(bsv)
            + "],\"relationships\":"@ + "[]"@ + ",\"policy_results\":"@ + (seq!['{']
            + spec_render_entries(rsv) + seq!['}']) + seq!['}']);
        assert("],\"relationships\":"@ + "[]"@ + ",\"policy_results\":"@
            =~= "],\"relationships\":[],\"policy_results\":"@);
        assert(seq!['{'] + spec_render_entries(rsv) + seq!['}'] == spec_render_results(rsv));
        assert(s@ =~= spec_dispatch(bsv, rsv));
    }
    s
}

} // verus!
