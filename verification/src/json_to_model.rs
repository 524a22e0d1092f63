use vstd::prelude::*;

use crate::json_parser::{parse_json, spec_parse_json};
use crate::model::{
    spec_convert, Attribute, AttributeType, AttributeTypeV, JsonValue, JsonValueV,
    TerraformBlock, TerraformBlockV, TerraformBlockWithTwoIdentifiers,
};

verus! {

broadcast use vstd::std_specs::vec::group_vec_axioms;

/// The value under the first occurrence of `key` in an object's pairs.
pub open spec fn spec_first_val(ps: Seq<(Seq<char>, JsonValueV)>, key: Seq<char>) -> Option<
    JsonValueV,
>
    decreases ps,
{
    if ps.len() == 0 {
        Option::None
    } else if ps[0].0 == key {
        Some(ps[0].1)
    } else {
        spec_first_val(ps.drop_first(), key)
    }
}

/// The string a JSON value contributes as an identifier: its text when it
/// is a string, nothing otherwise.
pub open spec fn spec_ident_of(v: Option<JsonValueV>) -> Seq<char> {
    match v {
        Some(JsonValueV::Str(s)) => s,
        _ => Seq::empty(),
    }
}

/// The attributes a JSON `body` value contributes: the flattened pairs of
/// an object, nothing otherwise.
pub open spec fn spec_attrs_of(v: Option<JsonValueV>) -> Seq<crate::model::AttributeV> {
    match v {
        Some(body) => match spec_convert(body) {
            AttributeTypeV::Block(attrs) => attrs,
            _ => Seq::empty(),
        },
        Option::None => Seq::empty(),
    }
}

/// The block a rendered-JSON document denotes: `type` and `name` become
/// the identifiers, `body` the attributes, under the fixed block type
/// `resource`.  Input that is not a JSON object yields the empty block.
pub open spec fn spec_block_from_json(s: Seq<char>) -> TerraformBlockV {
    match spec_parse_json(s, 0) {
        Some((JsonValueV::Object(ps), _)) => TerraformBlockV::WithTwoIdentifiers {
            block_type: "resource"@,
            first_identifier: spec_ident_of(spec_first_val(ps, "type"@)),
            second_identifier: spec_ident_of(spec_first_val(ps, "name"@)),
            attributes: spec_attrs_of(spec_first_val(ps, "body"@)),
        },
        _ => TerraformBlockV::WithTwoIdentifiers {
            block_type: "resource"@,
            first_identifier: Seq::empty(),
            second_identifier: Seq::empty(),
            attributes: Seq::empty(),
        },
    }
}

fn first_val<'a>(ps: &'a Vec<(String, JsonValue)>, key: &str) -> (r: Option<&'a JsonValue>)
    ensures
        match (r, spec_first_val(crate::model::jv_pairs_view(ps@), key@)) {
            (Some(v), Some(sv)) => v@ == sv,
            (Option::None, Option::None) => true,
            _ => false,
        },
{
    proof {
        crate::model::lemma_jv_pairs_view(ps@);
        assert(crate::model::jv_pairs_view(ps@).subrange(0, ps@.len() as int)
            =~= crate::model::jv_pairs_view(ps@));
    }
    let n = ps.len();
    let mut i: usize = 0;
    while i < n
        invariant
            i <= n,
            n == ps@.len(),
            crate::model::jv_pairs_view(ps@).len() == n,
            forall|j: int|
                0 <= j < n ==> #[trigger] crate::model::jv_pairs_view(ps@)[j] == (
                    ps@[j].0@,
                    crate::model::jv_view(ps@[j].1),
                ),
            spec_first_val(crate::model::jv_pairs_view(ps@), key@) == spec_first_val(
                crate::model::jv_pairs_view(ps@).subrange(i as int, n as int),
                key@,
            ),
        decreases n - i,
    {
        let ghost sub = crate::model::jv_pairs_view(ps@).subrange(i as int, n as int);
        proof {
            assert(sub[0] == crate::model::jv_pairs_view(ps@)[i as int]);
            assert(sub.drop_first() =~= crate::model::jv_pairs_view(ps@).subrange(
                i + 1,
                n as int,
            ));
        }
        if crate::text::str_eq(ps[i].0.as_str(), key) {
            return Some(&ps[i].1);
        }
        i = i + 1;
    }
    proof {
        assert(crate::model::jv_pairs_view(ps@).subrange(n as int, n as int) =~= Seq::<
            (Seq<char>, JsonValueV),
        >::empty());
    }
    Option::None
}

fn ident_of(v: Option<&JsonValue>) -> (r: String)
    ensures
        r@ == spec_ident_of(
            match v {
                Some(x) => Some(x@),
                Option::None => Option::None,
            },
        ),
{
    match v {
        Some(JsonValue::Str(s)) => s.clone(),
        _ => String::new(),
    }
}

/// Build a two-identifier block back from its rendered JSON form.
pub fn make_block_with_two_identifiers_from_json(input: &str) -> (r:
    TerraformBlockWithTwoIdentifiers)
    requires
        input@.len() < 0x1000_0000_0000,
    ensures
        r@ == spec_block_from_json(input@),
{
    let parsed = parse_json(input);
    match parsed {
        Some((JsonValue::Object(ps), _)) => {
            let first_identifier = ident_of(first_val(&ps, "type"));
            let second_identifier = ident_of(first_val(&ps, "name"));
            let attributes: Vec<Attribute> = match first_val(&ps, "body") {
                Some(body) => {
                    let converted = body.convert_to_attribute_type();
                    match converted {
                        AttributeType::Block(attrs) => attrs,
                        _ => Vec::new(),
                    }
                },
                Option::None => Vec::new(),
            };
            proof {
                if !(spec_attrs_of(
                    spec_first_val(crate::model::jv_pairs_view(ps@), "body"@),
                ) =~= crate::model::attr_seq_view(attributes@)) {
                    assert(crate::model::attr_seq_view(Seq::<Attribute>::empty()) =~= Seq::<
                        crate::model::AttributeV,
                    >::empty());
                }
                assert(crate::model::attr_seq_view(Seq::<Attribute>::empty()) =~= Seq::<
                    crate::model::AttributeV,
                >::empty());
            }
            TerraformBlockWithTwoIdentifiers {
                block_type: crate::text::lit_string("resource"),
                first_identifier,
                second_identifier,
                attributes,
            }
        },
        _ => {
            proof {
                assert(crate::model::attr_seq_view(Seq::<Attribute>::empty()) =~= Seq::<
                    crate::model::AttributeV,
                >::empty());
            }
            TerraformBlockWithTwoIdentifiers {
                block_type: crate::text::lit_string("resource"),
                first_identifier: String::new(),
                second_identifier: String::new(),
                attributes: Vec::new(),
            }
        },
    }
}

/// The block a rendered-JSON document denotes, wrapped as a block value.
pub fn convert_json_to_model(input: &str) -> (r: TerraformBlock)
    requires
        input@.len() < 0x1000_0000_0000,
    ensures
        r@ == spec_block_from_json(input@),
{
    let block = make_block_with_two_identifiers_from_json(input);
    TerraformBlock::WithTwoIdentifiers(block)
}

/// Whether a rendered block document carries exactly the expected keys.
pub open spec fn spec_has_model_keys(s: Seq<char>) -> bool {
    match spec_parse_json(s, 0) {
        Some((JsonValueV::Object(ps), _)) => {
            &&& spec_first_val(ps, "type"@) is Some
            &&& spec_first_val(ps, "name"@) is Some
            &&& spec_first_val(ps, "body"@) is Some
        },
        _ => false,
    }
}

/// Check a rendered block document for the expected keys; the check's
/// outcome is reported as a success either way.
pub fn convert_json_string_to_model(input: &str) -> (r: bool)
    requires
        input@.len() < 0x1000_0000_0000,
    ensures
        r == true,
{
    let _matching = has_model_keys(input);
    true
}

fn has_model_keys(input: &str) -> (r: bool)
    requires
        input@.len() < 0x1000_0000_0000,
    ensures
        r == spec_has_model_keys(input@),
{
    match parse_json(input) {
        Some((JsonValue::Object(ps), _)) => {
            let t = first_val(&ps, "type").is_some();
            let n = first_val(&ps, "name").is_some();
            let b = first_val(&ps, "body").is_some();
            t && n && b
        },
        _ => false,
    }
}

/// A placeholder for template loading; always succeeds.
pub fn convert_json_file_to_model(path: &str) -> (r: bool)
    ensures
        r == true,
{
    let _ = path;
    true
}

} // verus!
