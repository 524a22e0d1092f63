use vstd::prelude::*;

use crate::number::{Number, NumberV};

verus! {

broadcast use vstd::std_specs::vec::group_vec_axioms;

/// Mathematical form of a parsed JSON document.
pub enum JsonValueV {
    Str(Seq<char>),
    Boolean(bool),
    Null,
    Num(NumberV),
    Array(Seq<JsonValueV>),
    Object(Seq<(Seq<char>, JsonValueV)>),
}

/// A parsed JSON document: a tagged tree.  `Object` keeps its pairs in
/// declaration order and may hold duplicate keys; it is not a map.
#[derive(Debug, PartialEq)]
pub enum JsonValue {
    Str(String),
    Boolean(bool),
    Null,
    Num(Number),
    Array(Vec<JsonValue>),
    Object(Vec<(String, JsonValue)>),
}

pub open spec fn jv_view(v: JsonValue) -> JsonValueV
    decreases v,
{
    match v {
        JsonValue::Str(s) => JsonValueV::Str(s@),
        JsonValue::Boolean(b) => JsonValueV::Boolean(b),
        JsonValue::Null => JsonValueV::Null,
        JsonValue::Num(n) => JsonValueV::Num(n@),
        JsonValue::Array(vs) => JsonValueV::Array(jv_seq_view(vs@)),
        JsonValue::Object(ps) => JsonValueV::Object(jv_pairs_view(ps@)),
    }
}

pub open spec fn jv_seq_view(s: Seq<JsonValue>) -> Seq<JsonValueV>
    decreases s,
{
    if s.len() == 0 {
        Seq::empty()
    } else {
        seq![jv_view(s[0])] + jv_seq_view(s.drop_first())
    }
}

pub open spec fn jv_pairs_view(s: Seq<(String, JsonValue)>) -> Seq<(Seq<char>, JsonValueV)>
    decreases s,
{
    if s.len() == 0 {
        Seq::empty()
    } else {
        seq![(s[0].0@, jv_view(s[0].1))] + jv_pairs_view(s.drop_first())
    }
}

impl View for JsonValue {
    type V = JsonValueV;

    open spec fn view(&self) -> JsonValueV {
        jv_view(*self)
    }
}

pub proof fn lemma_jv_seq_view(s: Seq<JsonValue>)
    ensures
        jv_seq_view(s).len() == s.len(),
        forall|i: int| 0 <= i < s.len() ==> #[trigger] jv_seq_view(s)[i] == jv_view(s[i]),
    decreases s,
{
    if s.len() > 0 {
        lemma_jv_seq_view(s.drop_first());
        assert forall|i: int| 0 <= i < s.len() implies #[trigger] jv_seq_view(s)[i] == jv_view(
            s[i],
        ) by {
            if i > 0 {
                assert(jv_seq_view(s.drop_first())[i - 1] == jv_view(s.drop_first()[i - 1]));
            }
        }
    }
}

pub proof fn lemma_jv_pairs_view(s: Seq<(String, JsonValue)>)
    ensures
        jv_pairs_view(s).len() == s.len(),
        forall|i: int|
            0 <= i < s.len() ==> #[trigger] jv_pairs_view(s)[i] == (s[i].0@, jv_view(s[i].1)),
    decreases s,
{
    if s.len() > 0 {
        lemma_jv_pairs_view(s.drop_first());
        assert forall|i: int| 0 <= i < s.len() implies #[trigger] jv_pairs_view(s)[i] == (
        s[i].0@, jv_view(s[i].1)) by {
            if i > 0 {
                assert(jv_pairs_view(s.drop_first())[i - 1] == (
                    s.drop_first()[i - 1].0@,
                    jv_view(s.drop_first()[i - 1].1),
                ));
            }
        }
    }
}

/// A single-argument built-in call found inside an interpolation template.
#[derive(Debug, PartialEq)]
pub struct BuiltInFunction {
    pub name: String,
    pub param: TemplateString,
}

/// What stands between `${` and `}` in a templated string: either a dotted
/// reference captured verbatim, or one recognized built-in function call
/// wrapping a nested template value.  Only single-argument calls are modeled.
#[derive(Debug, PartialEq)]
pub enum TemplateString {
    Variable(String),
    BuiltInFunction(Box<BuiltInFunction>),
}

pub enum TemplateStringV {
    Variable(Seq<char>),
    BuiltInFunction(Seq<char>, Box<TemplateStringV>),
}

pub open spec fn ts_view(t: TemplateString) -> TemplateStringV
    decreases t,
{
    match t {
        TemplateString::Variable(s) => TemplateStringV::Variable(s@),
        TemplateString::BuiltInFunction(b) => TemplateStringV::BuiltInFunction(
            b.name@,
            Box::new(ts_view(b.param)),
        ),
    }
}

impl View for TemplateString {
    type V = TemplateStringV;

    open spec fn view(&self) -> TemplateStringV {
        ts_view(*self)
    }
}

/// The value side of a configuration attribute.
#[derive(Debug, PartialEq)]
pub enum AttributeType {
    Str(String),
    TemplatedString(TemplateString),
    Boolean(bool),
    Num(Number),
    Array(Vec<AttributeType>),
    Block(Vec<Attribute>),
    TFBlock(TerraformBlock),
    Json(JsonValue),
}

/// One `key = value` pair inside a block.
#[derive(Debug, PartialEq)]
pub struct Attribute {
    pub key: String,
    pub value: AttributeType,
}

/// A parsed configuration block, tagged by how many identifiers preceded
/// the opening brace.
#[derive(Debug, PartialEq)]
pub enum TerraformBlock {
    NoIdentifiers(TerraformBlockWithNoIdentifiers),
    WithOneIdentifier(TerraformBlockWithOneIdentifier),
    WithTwoIdentifiers(TerraformBlockWithTwoIdentifiers),
}

#[derive(Debug, PartialEq)]
pub struct TerraformBlockWithNoIdentifiers {
    pub block_type: String,
    pub attributes: Vec<Attribute>,
}

#[derive(Debug, PartialEq)]
pub struct TerraformBlockWithOneIdentifier {
    pub block_type: String,
    pub first_identifier: String,
    pub attributes: Vec<Attribute>,
}

#[derive(Debug, PartialEq)]
pub struct TerraformBlockWithTwoIdentifiers {
    pub block_type: String,
    pub first_identifier: String,
    pub second_identifier: String,
    pub attributes: Vec<Attribute>,
}

pub enum AttributeTypeV {
    Str(Seq<char>),
    TemplatedString(TemplateStringV),
    Boolean(bool),
    Num(NumberV),
    Array(Seq<AttributeTypeV>),
    Block(Seq<AttributeV>),
    TFBlock(TerraformBlockV),
    Json(JsonValueV),
}

pub struct AttributeV {
    pub key: Seq<char>,
    pub value: AttributeTypeV,
}

pub enum TerraformBlockV {
    NoIdentifiers { block_type: Seq<char>, attributes: Seq<AttributeV> },
    WithOneIdentifier { block_type: Seq<char>, first_identifier: Seq<char>, attributes: Seq<AttributeV> },
    WithTwoIdentifiers {
        block_type: Seq<char>,
        first_identifier: Seq<char>,
        second_identifier: Seq<char>,
        attributes: Seq<AttributeV>,
    },
}

pub open spec fn at_view(a: AttributeType) -> AttributeTypeV
    decreases a,
{
    match a {
        AttributeType::Str(s) => AttributeTypeV::Str(s@),
        AttributeType::TemplatedString(t) => AttributeTypeV::TemplatedString(ts_view(t)),
        AttributeType::Boolean(b) => AttributeTypeV::Boolean(b),
        AttributeType::Num(n) => AttributeTypeV::Num(n@),
        AttributeType::Array(vs) => AttributeTypeV::Array(at_seq_view(vs@)),
        AttributeType::Block(attrs) => AttributeTypeV::Block(attr_seq_view(attrs@)),
        AttributeType::TFBlock(b) => AttributeTypeV::TFBlock(tfb_view(b)),
        AttributeType::Json(j) => AttributeTypeV::Json(jv_view(j)),
    }
}

pub open spec fn at_seq_view(s: Seq<AttributeType>) -> Seq<AttributeTypeV>
    decreases s,
{
    if s.len() == 0 {
        Seq::empty()
    } else {
        seq![at_view(s[0])] + at_seq_view(s.drop_first())
    }
}

pub open spec fn attr_view(a: Attribute) -> AttributeV {
    AttributeV { key: a.key@, value: at_view(a.value) }
}

pub open spec fn attr_seq_view(s: Seq<Attribute>) -> Seq<AttributeV>
    decreases s,
{
    if s.len() == 0 {
        Seq::empty()
    } else {
        seq![AttributeV { key: s[0].key@, value: at_view(s[0].value) }] + attr_seq_view(
            s.drop_first(),
        )
    }
}

pub open spec fn tfb_view(b: TerraformBlock) -> TerraformBlockV
    decreases b,
{
    match b {
        TerraformBlock::NoIdentifiers(x) => TerraformBlockV::NoIdentifiers {
            block_type: x.block_type@,
            attributes: attr_seq_view(x.attributes@),
        },
        TerraformBlock::WithOneIdentifier(x) => TerraformBlockV::WithOneIdentifier {
            block_type: x.block_type@,
            first_identifier: x.first_identifier@,
            attributes: attr_seq_view(x.attributes@),
        },
        TerraformBlock::WithTwoIdentifiers(x) => TerraformBlockV::WithTwoIdentifiers {
            block_type: x.block_type@,
            first_identifier: x.first_identifier@,
            second_identifier: x.second_identifier@,
            attributes: attr_seq_view(x.attributes@),
        },
    }
}

impl View for AttributeType {
    type V = AttributeTypeV;

    open spec fn view(&self) -> AttributeTypeV {
        at_view(*self)
    }
}

impl View for Attribute {
    type V = AttributeV;

    open spec fn view(&self) -> AttributeV {
        attr_view(*self)
    }
}

impl View for TerraformBlock {
    type V = TerraformBlockV;

    open spec fn view(&self) -> TerraformBlockV {
        tfb_view(*self)
    }
}

impl View for TerraformBlockWithNoIdentifiers {
    type V = TerraformBlockV;

    open spec fn view(&self) -> TerraformBlockV {
        TerraformBlockV::NoIdentifiers {
            block_type: self.block_type@,
            attributes: attr_seq_view(self.attributes@),
        }
    }
}

impl View for TerraformBlockWithOneIdentifier {
    type V = TerraformBlockV;

    open spec fn view(&self) -> TerraformBlockV {
        TerraformBlockV::WithOneIdentifier {
            block_type: self.block_type@,
            first_identifier: self.first_identifier@,
            attributes: attr_seq_view(self.attributes@),
        }
    }
}

impl View for TerraformBlockWithTwoIdentifiers {
    type V = TerraformBlockV;

    open spec fn view(&self) -> TerraformBlockV {
        TerraformBlockV::WithTwoIdentifiers {
            block_type: self.block_type@,
            first_identifier: self.first_identifier@,
            second_identifier: self.second_identifier@,
            attributes: attr_seq_view(self.attributes@),
        }
    }
}

pub proof fn lemma_at_seq_view(s: Seq<AttributeType>)
    ensures
        at_seq_view(s).len() == s.len(),
        forall|i: int| 0 <= i < s.len() ==> #[trigger] at_seq_view(s)[i] == at_view(s[i]),
    decreases s,
{
    if s.len() > 0 {
        lemma_at_seq_view(s.drop_first());
        assert forall|i: int| 0 <= i < s.len() implies #[trigger] at_seq_view(s)[i] == at_view(
            s[i],
        ) by {
            if i > 0 {
                assert(at_seq_view(s.drop_first())[i - 1] == at_view(s.drop_first()[i - 1]));
            }
        }
    }
}

pub proof fn lemma_attr_seq_view(s: Seq<Attribute>)
    ensures
        attr_seq_view(s).len() == s.len(),
        forall|i: int| 0 <= i < s.len() ==> #[trigger] attr_seq_view(s)[i] == attr_view(s[i]),
    decreases s,
{
    if s.len() > 0 {
        lemma_attr_seq_view(s.drop_first());
        assert forall|i: int| 0 <= i < s.len() implies #[trigger] attr_seq_view(s)[i]
            == attr_view(s[i]) by {
            if i > 0 {
                assert(attr_seq_view(s.drop_first())[i - 1] == attr_view(
                    s.drop_first()[i - 1],
                ));
            }
        }
    }
}


pub open spec fn tfb_seq_view(s: Seq<TerraformBlock>) -> Seq<TerraformBlockV>
    decreases s,
{
    if s.len() == 0 {
        Seq::empty()
    } else {
        seq![tfb_view(s[0])] + tfb_seq_view(s.drop_first())
    }
}

pub proof fn lemma_tfb_seq_view(s: Seq<TerraformBlock>)
    ensures
        tfb_seq_view(s).len() == s.len(),
        forall|i: int| 0 <= i < s.len() ==> #[trigger] tfb_seq_view(s)[i] == tfb_view(s[i]),
    decreases s,
{
    if s.len() > 0 {
        lemma_tfb_seq_view(s.drop_first());
        assert forall|i: int| 0 <= i < s.len() implies #[trigger] tfb_seq_view(s)[i] == tfb_view(
            s[i],
        ) by {
            if i > 0 {
                assert(tfb_seq_view(s.drop_first())[i - 1] == tfb_view(s.drop_first()[i - 1]));
            }
        }
    }
}


/// How a JSON subtree flattens into the attribute model: objects become
/// inline blocks, arrays become arrays, `null` becomes the string "null".
pub open spec fn spec_convert(j: JsonValueV) -> AttributeTypeV
    decreases j,
{
    match j {
        JsonValueV::Str(s) => AttributeTypeV::Str(s),
        JsonValueV::Boolean(b) => AttributeTypeV::Boolean(b),
        JsonValueV::Null => AttributeTypeV::Str("null"@),
        JsonValueV::Num(n) => AttributeTypeV::Num(n),
        JsonValueV::Array(vs) => AttributeTypeV::Array(spec_convert_seq(vs)),
        JsonValueV::Object(ps) => AttributeTypeV::Block(spec_convert_pairs(ps)),
    }
}

pub open spec fn spec_convert_seq(vs: Seq<JsonValueV>) -> Seq<AttributeTypeV>
    decreases vs,
{
    if vs.len() == 0 {
        Seq::empty()
    } else {
        seq![spec_convert(vs[0])] + spec_convert_seq(vs.drop_first())
    }
}

pub open spec fn spec_convert_pairs(ps: Seq<(Seq<char>, JsonValueV)>) -> Seq<AttributeV>
    decreases ps,
{
    if ps.len() == 0 {
        Seq::empty()
    } else {
        seq![AttributeV { key: ps[0].0, value: spec_convert(ps[0].1) }] + spec_convert_pairs(
            ps.drop_first(),
        )
    }
}

impl JsonValue {
    /// Flatten this JSON value into the attribute model.
    pub fn convert_to_attribute_type(&self) -> (r: AttributeType)
        ensures
            r@ == spec_convert(self@),
    {
        convert_json_value(self)
    }
}

#[verifier::loop_isolation(false)]
fn convert_json_value(v: &JsonValue) -> (r: AttributeType)
    ensures
        r@ == spec_convert(v@),
    decreases v,
{
    {
        match v {
            JsonValue::Str(s) => AttributeType::Str(s.clone()),
            JsonValue::Boolean(b) => AttributeType::Boolean(*b),
            JsonValue::Null => AttributeType::Str(crate::text::lit_string("null")),
            JsonValue::Num(n) => AttributeType::Num(n.clone_value()),
            JsonValue::Array(vs) => {
                let mut out: Vec<AttributeType> = Vec::new();
                let n = vs.len();
                let mut i: usize = 0;
                while i < n
                    invariant
                        i <= n,
                        n == vs@.len(),
                        out@.len() == i,
                        forall|j: int|
                            0 <= j < i ==> at_view(#[trigger] out@[j]) == spec_convert(jv_view(
                                vs@[j],
                            )),
                    decreases n - i,
                {
                    out.push(convert_json_value(&vs[i]));
                    i = i + 1;
                }
                proof {
                    lemma_at_seq_view(out@);
                    lemma_jv_seq_view(vs@);
                    lemma_convert_seq(jv_seq_view(vs@));
                    assert(at_seq_view(out@) =~= spec_convert_seq(jv_seq_view(vs@)));
                }
                AttributeType::Array(out)
            },
            JsonValue::Object(ps) => {
                let mut out: Vec<Attribute> = Vec::new();
                let n = ps.len();
                let mut i: usize = 0;
                while i < n
                    invariant
                        i <= n,
                        n == ps@.len(),
                        out@.len() == i,
                        forall|j: int|
                            0 <= j < i ==> (#[trigger] out@[j]).key@ == ps@[j].0@ && at_view(
                                out@[j].value,
                            ) == spec_convert(jv_view(ps@[j].1)),
                    decreases n - i,
                {
                    let p = &ps[i];
                    out.push(
                        Attribute { key: p.0.clone(), value: convert_json_value(&p.1) },
                    );
                    i = i + 1;
                }
                proof {
                    lemma_attr_seq_view(out@);
                    lemma_jv_pairs_view(ps@);
                    lemma_convert_pairs(jv_pairs_view(ps@));
                    assert(attr_seq_view(out@) =~= spec_convert_pairs(jv_pairs_view(ps@)));
                }
                AttributeType::Block(out)
            },
        }
    }
}

pub proof fn lemma_convert_seq(vs: Seq<JsonValueV>)
    ensures
        spec_convert_seq(vs).len() == vs.len(),
        forall|i: int|
            0 <= i < vs.len() ==> #[trigger] spec_convert_seq(vs)[i] == spec_convert(vs[i]),
    decreases vs,
{
    if vs.len() > 0 {
        lemma_convert_seq(vs.drop_first());
        assert forall|i: int| 0 <= i < vs.len() implies #[trigger] spec_convert_seq(vs)[i]
            == spec_convert(vs[i]) by {
            if i > 0 {
                assert(spec_convert_seq(vs.drop_first())[i - 1] == spec_convert(
                    vs.drop_first()[i - 1],
                ));
            }
        }
    }
}

pub proof fn lemma_convert_pairs(ps: Seq<(Seq<char>, JsonValueV)>)
    ensures
        spec_convert_pairs(ps).len() == ps.len(),
        forall|i: int|
            0 <= i < ps.len() ==> #[trigger] spec_convert_pairs(ps)[i] == (AttributeV {
                key: ps[i].0,
                value: spec_convert(ps[i].1),
            }),
    decreases ps,
{
    if ps.len() > 0 {
        lemma_convert_pairs(ps.drop_first());
        assert forall|i: int| 0 <= i < ps.len() implies #[trigger] spec_convert_pairs(ps)[i]
            == (AttributeV { key: ps[i].0, value: spec_convert(ps[i].1) }) by {
            if i > 0 {
                assert(spec_convert_pairs(ps.drop_first())[i - 1] == (AttributeV {
                    key: ps.drop_first()[i - 1].0,
                    value: spec_convert(ps.drop_first()[i - 1].1),
                }));
            }
        }
    }
}

/// The identifier strings a value contributes to relationship extraction:
/// strings, booleans, numbers and template references, flattened through
/// arrays; any other shape yields the sentinel error string.
pub open spec fn spec_extract(a: AttributeTypeV) -> Seq<Seq<char>>
    decreases a,
{
    match a {
        AttributeTypeV::Str(s) => seq![s],
        AttributeTypeV::Boolean(b) => seq![
            if b {
                "true"@
            } else {
                "false"@
            },
        ],
        AttributeTypeV::Num(n) => seq![crate::number::spec_render_number(n)],
        AttributeTypeV::TemplatedString(t) => match t {
            TemplateStringV::Variable(v) => seq![v],
            TemplateStringV::BuiltInFunction(_, _) => seq!["MASSIVE ERROR!!!"@],
        },
        AttributeTypeV::Array(vs) => spec_extract_seq(vs),
        _ => seq!["MASSIVE ERROR!!!"@],
    }
}

pub open spec fn spec_extract_seq(vs: Seq<AttributeTypeV>) -> Seq<Seq<char>>
    decreases vs,
{
    if vs.len() == 0 {
        Seq::empty()
    } else {
        spec_extract(vs[0]) + spec_extract_seq(vs.drop_first())
    }
}

impl AttributeType {
    /// The identifier strings this value contributes to relationship
    /// extraction.
    pub fn extract_attributetype(&self) -> (r: Vec<String>)
        ensures
            crate::text::strs_view(r@) == spec_extract(self@),
    {
        extract_attribute_type(self)
    }
}

#[verifier::loop_isolation(false)]
fn extract_attribute_type(a: &AttributeType) -> (r: Vec<String>)
    ensures
        crate::text::strs_view(r@) == spec_extract(a@),
    decreases a,
{
    {
        match a {
            AttributeType::Str(value) => extract_single(value.clone()),
            AttributeType::Boolean(value) => {
                if *value {
                    extract_single(crate::text::lit_string("true"))
                } else {
                    extract_single(crate::text::lit_string("false"))
                }
            },
            AttributeType::Num(value) => extract_single(value.to_literal()),
            AttributeType::TemplatedString(t) => match t {
                TemplateString::Variable(value) => extract_single(value.clone()),
                TemplateString::BuiltInFunction(_) => extract_single(
                    crate::text::lit_string("MASSIVE ERROR!!!"),
                ),
            },
            AttributeType::Array(values) => {
                let mut out: Vec<String> = Vec::new();
                let n = values.len();
                let mut i: usize = 0;
                proof {
                    lemma_at_seq_view(values@);
                    assert(crate::text::strs_view(out@) =~= Seq::<Seq<char>>::empty());
                    assert(spec_extract_seq(at_seq_view(values@).subrange(0, 0))
                        =~= Seq::<Seq<char>>::empty());
                }
                while i < n
                    invariant
                        i <= n,
                        n == values@.len(),
                        at_seq_view(values@).len() == n,
                        forall|j: int|
                            0 <= j < n ==> #[trigger] at_seq_view(values@)[j] == at_view(
                                values@[j],
                            ),
                        crate::text::strs_view(out@) == spec_extract_seq(
                            at_seq_view(values@).subrange(0, i as int),
                        ),
                    decreases n - i,
                {
                    let mut part = extract_attribute_type(&values[i]);
                    let ghost gout = out@;
                    let ghost gpart = part@;
                    append_strings(&mut out, part);
                    proof {
                        lemma_strs_concat(gout, gpart);
                        lemma_extract_seq_snoc(at_seq_view(values@), i as int);
                    }
                    i = i + 1;
                }
                proof {
                    assert(at_seq_view(values@).subrange(0, n as int) =~= at_seq_view(values@));
                }
                out
            },
            _ => extract_single(crate::text::lit_string("MASSIVE ERROR!!!")),
        }
    }
}

fn extract_single(s: String) -> (r: Vec<String>)
    ensures
        crate::text::strs_view(r@) == seq![s@],
{
    let ghost gs = s;
    let mut out: Vec<String> = Vec::new();
    out.push(s);
    proof {
        assert(out@ =~= seq![gs]);
        assert(out@.drop_first() =~= Seq::<String>::empty());
        assert(crate::text::strs_view(Seq::<String>::empty()) =~= Seq::<Seq<char>>::empty());
        assert(crate::text::strs_view(out@) =~= seq![gs@]);
    }
    out
}

/// Move every string of `src` onto the end of `dst`.
pub fn append_strings(dst: &mut Vec<String>, src: Vec<String>)
    ensures
        crate::text::strs_view(final(dst)@) == crate::text::strs_view(old(dst)@)
            + crate::text::strs_view(src@),
        final(dst)@ == old(dst)@ + src@,
{
    let ghost gsrc = src@;
    let mut s = src;
    let n = s.len();
    let mut i: usize = 0;
    while i < n
        invariant
            i <= n,
            n == gsrc.len(),
            s@ == gsrc,
            dst@ == old(dst)@ + gsrc.subrange(0, i as int),
        decreases n - i,
    {
        let ghost gdst = dst@;
        let item = s[i].clone();
        proof {
            assert(gsrc[i as int]@ == s@[i as int]@);
        }
        dst.push(item);
        proof {
            assert(dst@ =~= old(dst)@ + gsrc.subrange(0, i + 1));
        }
        i = i + 1;
    }
    proof {
        assert(gsrc.subrange(0, n as int) =~= gsrc);
        assert(dst@ =~= old(dst)@ + gsrc);
        lemma_strs_concat(old(dst)@, gsrc);
    }
}

/// `strs_view` distributes over concatenation.
pub proof fn lemma_strs_concat(a: Seq<String>, b: Seq<String>)
    ensures
        crate::text::strs_view(a + b) == crate::text::strs_view(a) + crate::text::strs_view(b),
    decreases a,
{
    crate::text::lemma_strs_view(a);
    crate::text::lemma_strs_view(b);
    crate::text::lemma_strs_view(a + b);
    assert(crate::text::strs_view(a + b) =~= crate::text::strs_view(a) + crate::text::strs_view(
        b,
    ));
}

/// Extracting from one more element extends the flattened result.
pub proof fn lemma_extract_seq_snoc(vs: Seq<AttributeTypeV>, i: int)
    requires
        0 <= i < vs.len(),
    ensures
        spec_extract_seq(vs.subrange(0, i + 1)) == spec_extract_seq(vs.subrange(0, i))
            + spec_extract(vs[i]),
    decreases i,
{
    lemma_extract_seq_concat(vs.subrange(0, i), seq![vs[i]]);
    assert(vs.subrange(0, i + 1) =~= vs.subrange(0, i) + seq![vs[i]]);
    assert(seq![vs[i]].drop_first() =~= Seq::<AttributeTypeV>::empty());
    assert(spec_extract_seq(Seq::<AttributeTypeV>::empty()) =~= Seq::<Seq<char>>::empty());
    assert(spec_extract_seq(seq![vs[i]]) =~= spec_extract(vs[i]));
}

/// Flattened extraction distributes over concatenation.
pub proof fn lemma_extract_seq_concat(a: Seq<AttributeTypeV>, b: Seq<AttributeTypeV>)
    ensures
        spec_extract_seq(a + b) == spec_extract_seq(a) + spec_extract_seq(b),
    decreases a,
{
    if a.len() == 0 {
        assert(a + b =~= b);
        assert(spec_extract_seq(a) =~= Seq::<Seq<char>>::empty());
        assert(spec_extract_seq(a + b) =~= spec_extract_seq(a) + spec_extract_seq(b));
    } else {
        lemma_extract_seq_concat(a.drop_first(), b);
        assert((a + b).drop_first() =~= a.drop_first() + b);
        assert((a + b)[0] == a[0]);
        assert(spec_extract_seq(a + b) =~= spec_extract_seq(a) + spec_extract_seq(b));
    }
}


/// The stable external identity of a block, derived from its identifiers.
pub open spec fn spec_get_id(b: TerraformBlockV) -> Seq<char> {
    match b {
        TerraformBlockV::NoIdentifiers { block_type, .. } => block_type,
        TerraformBlockV::WithOneIdentifier { block_type, first_identifier, .. } => block_type
            + seq!['_'] + first_identifier,
        TerraformBlockV::WithTwoIdentifiers { first_identifier, second_identifier, .. } =>
            first_identifier + seq!['_'] + second_identifier,
    }
}

impl TerraformBlock {
    /// The block's external key: `first_identifier + "_" + second_identifier`
    /// for two-identifier blocks, `block_type + "_" + first_identifier` for
    /// one-identifier blocks, and the bare block type otherwise.
    pub fn get_id(&self) -> (r: String)
        ensures
            r@ == spec_get_id(self@),
    {
        proof {
            reveal_strlit("_");
            assert("_"@ =~= seq!['_']);
        }
        match self {
            TerraformBlock::NoIdentifiers(resource) => resource.block_type.clone(),
            TerraformBlock::WithOneIdentifier(resource) => {
                let mut s = resource.block_type.clone();
                s.append("_");
                s.append(resource.first_identifier.as_str());
                s
            },
            TerraformBlock::WithTwoIdentifiers(resource) => {
                let mut s = resource.first_identifier.clone();
                s.append("_");
                s.append(resource.second_identifier.as_str());
                s
            },
        }
    }
}

impl TerraformBlockWithTwoIdentifiers {
    pub fn new(
        block_type: &str,
        first_identifier: &str,
        second_identifier: &str,
        attributes: Vec<Attribute>,
    ) -> (r: TerraformBlockWithTwoIdentifiers)
        ensures
            r@ == (TerraformBlockV::WithTwoIdentifiers {
                block_type: block_type@,
                first_identifier: first_identifier@,
                second_identifier: second_identifier@,
                attributes: attr_seq_view(attributes@),
            }),
    {
        TerraformBlockWithTwoIdentifiers {
            block_type: block_type.to_owned(),
            first_identifier: first_identifier.to_owned(),
            second_identifier: second_identifier.to_owned(),
            attributes,
        }
    }
}

#[verifier::loop_isolation(false)]
fn clone_json(v: &JsonValue) -> (r: JsonValue)
    ensures
        r@ == v@,
    decreases v,
{
    match v {
        JsonValue::Str(s) => JsonValue::Str(s.clone()),
        JsonValue::Boolean(b) => JsonValue::Boolean(*b),
        JsonValue::Null => JsonValue::Null,
        JsonValue::Num(n) => JsonValue::Num(n.clone_value()),
        JsonValue::Array(vs) => {
            let mut out: Vec<JsonValue> = Vec::new();
            let n = vs.len();
            let mut i: usize = 0;
            while i < n
                invariant
                    i <= n,
                    n == vs@.len(),
                    out@.len() == i,
                    forall|j: int| 0 <= j < i ==> jv_view(#[trigger] out@[j]) == jv_view(vs@[j]),
                decreases n - i,
            {
                out.push(clone_json(&vs[i]));
                i = i + 1;
            }
            proof {
                lemma_jv_seq_view(out@);
                lemma_jv_seq_view(vs@);
                assert(jv_seq_view(out@) =~= jv_seq_view(vs@));
            }
            JsonValue::Array(out)
        },
        JsonValue::Object(ps) => {
            let mut out: Vec<(String, JsonValue)> = Vec::new();
            let n = ps.len();
            let mut i: usize = 0;
            while i < n
                invariant
                    i <= n,
                    n == ps@.len(),
                    out@.len() == i,
                    forall|j: int|
                        0 <= j < i ==> (#[trigger] out@[j]).0@ == ps@[j].0@ && jv_view(out@[j].1)
                            == jv_view(ps@[j].1),
                decreases n - i,
            {
                let pair = &ps[i];
                out.push((pair.0.clone(), clone_json(&pair.1)));
                i = i + 1;
            }
            proof {
                lemma_jv_pairs_view(out@);
                lemma_jv_pairs_view(ps@);
                assert(jv_pairs_view(out@) =~= jv_pairs_view(ps@));
            }
            JsonValue::Object(out)
        },
    }
}

fn clone_template(t: &TemplateString) -> (r: TemplateString)
    ensures
        r@ == t@,
    decreases t,
{
    match t {
        TemplateString::Variable(s) => TemplateString::Variable(s.clone()),
        TemplateString::BuiltInFunction(b) => TemplateString::BuiltInFunction(
            Box::new(BuiltInFunction { name: b.name.clone(), param: clone_template(&b.param) }),
        ),
    }
}

#[verifier::loop_isolation(false)]
fn clone_attribute_type(a: &AttributeType) -> (r: AttributeType)
    ensures
        r@ == a@,
    decreases a,
{
    match a {
        AttributeType::Str(s) => AttributeType::Str(s.clone()),
        AttributeType::TemplatedString(t) => AttributeType::TemplatedString(clone_template(t)),
        AttributeType::Boolean(b) => AttributeType::Boolean(*b),
        AttributeType::Num(n) => AttributeType::Num(n.clone_value()),
        AttributeType::Array(vs) => {
            let mut out: Vec<AttributeType> = Vec::new();
            let n = vs.len();
            let mut i: usize = 0;
            while i < n
                invariant
                    i <= n,
                    n == vs@.len(),
                    out@.len() == i,
                    forall|j: int| 0 <= j < i ==> at_view(#[trigger] out@[j]) == at_view(vs@[j]),
                decreases n - i,
            {
                out.push(clone_attribute_type(&vs[i]));
                i = i + 1;
            }
            proof {
                lemma_at_seq_view(out@);
                lemma_at_seq_view(vs@);
                assert(at_seq_view(out@) =~= at_seq_view(vs@));
            }
            AttributeType::Array(out)
        },
        AttributeType::Block(attrs) => AttributeType::Block(clone_attributes(attrs)),
        AttributeType::TFBlock(b) => AttributeType::TFBlock(clone_tf_block(b)),
        AttributeType::Json(j) => AttributeType::Json(clone_json(j)),
    }
}

#[verifier::loop_isolation(false)]
fn clone_attributes(attrs: &Vec<Attribute>) -> (r: Vec<Attribute>)
    ensures
        attr_seq_view(r@) == attr_seq_view(attrs@),
        r@.len() == attrs@.len(),
    decreases attrs,
{
    let mut out: Vec<Attribute> = Vec::new();
    let n = attrs.len();
    let mut i: usize = 0;
    while i < n
        invariant
            i <= n,
            n == attrs@.len(),
            out@.len() == i,
            forall|j: int| 0 <= j < i ==> attr_view(#[trigger] out@[j]) == attr_view(attrs@[j]),
        decreases n - i,
    {
        let a = &attrs[i];
        out.push(Attribute { key: a.key.clone(), value: clone_attribute_type(&a.value) });
        i = i + 1;
    }
    proof {
        lemma_attr_seq_view(out@);
        lemma_attr_seq_view(attrs@);
        assert(attr_seq_view(out@) =~= attr_seq_view(attrs@));
    }
    out
}

fn clone_tf_block(b: &TerraformBlock) -> (r: TerraformBlock)
    ensures
        r@ == b@,
    decreases b,
{
    match b {
        TerraformBlock::NoIdentifiers(x) => TerraformBlock::NoIdentifiers(
            TerraformBlockWithNoIdentifiers {
                block_type: x.block_type.clone(),
                attributes: clone_attributes(&x.attributes),
            },
        ),
        TerraformBlock::WithOneIdentifier(x) => TerraformBlock::WithOneIdentifier(
            TerraformBlockWithOneIdentifier {
                block_type: x.block_type.clone(),
                first_identifier: x.first_identifier.clone(),
                attributes: clone_attributes(&x.attributes),
            },
        ),
        TerraformBlock::WithTwoIdentifiers(x) => TerraformBlock::WithTwoIdentifiers(
            TerraformBlockWithTwoIdentifiers {
                block_type: x.block_type.clone(),
                first_identifier: x.first_identifier.clone(),
                second_identifier: x.second_identifier.clone(),
                attributes: clone_attributes(&x.attributes),
            },
        ),
    }
}

impl Clone for JsonValue {
    fn clone(&self) -> (r: Self)
        ensures
            r@ == self@,
    {
        clone_json(self)
    }
}

impl Clone for TemplateString {
    fn clone(&self) -> (r: Self)
        ensures
            r@ == self@,
    {
        clone_template(self)
    }
}

impl Clone for BuiltInFunction {
    fn clone(&self) -> (r: Self)
        ensures
            r.name@ == self.name@,
            r.param@ == self.param@,
    {
        BuiltInFunction { name: self.name.clone(), param: clone_template(&self.param) }
    }
}

impl Clone for AttributeType {
    fn clone(&self) -> (r: Self)
        ensures
            r@ == self@,
    {
        clone_attribute_type(self)
    }
}

impl Clone for Attribute {
    fn clone(&self) -> (r: Self)
        ensures
            r@ == self@,
    {
        Attribute { key: self.key.clone(), value: clone_attribute_type(&self.value) }
    }
}

impl Clone for TerraformBlock {
    fn clone(&self) -> (r: Self)
        ensures
            r@ == self@,
    {
        clone_tf_block(self)
    }
}

impl Clone for TerraformBlockWithTwoIdentifiers {
    fn clone(&self) -> (r: Self)
        ensures
            r@ == self@,
    {
        TerraformBlockWithTwoIdentifiers {
            block_type: self.block_type.clone(),
            first_identifier: self.first_identifier.clone(),
            second_identifier: self.second_identifier.clone(),
            attributes: clone_attributes(&self.attributes),
        }
    }
}

} // verus!
