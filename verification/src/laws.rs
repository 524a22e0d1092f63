use vstd::prelude::*;

use crate::json_parser::{
    digit_vals, digits_end, exp_accum, json_ident_end, spec_escaped_l, spec_json_value,
    spec_key_value, spec_elems, spec_members, spec_parse_json, spec_parse_number, spec_serialize,
    spec_serialize_elems, spec_serialize_pair, spec_serialize_pairs, spec_str_content,
    is_json_ident_char,
};
use crate::model::{spec_get_id, AttributeTypeV, JsonValueV, TerraformBlockV};
use crate::number::{
    digit_chars, digits_ok, number_wf, spec_canon, spec_render_number, strip_lead, strip_trail,
    zero_chars, NumberV,
};
use crate::query::{
    spec_has_list_part, spec_jmespath_query, spec_parse_jmespath, spec_query_at,
    spec_query_block, spec_query_elems_flat, QueryPartV, TFQueryResultV,
};
use crate::text::{has_tag, is_digit_char, is_multispace_char, is_space_char, sp_end, ws_end};

verus! {


/// A block's identity is never empty when its identifiers are not, and a
/// two-identifier block's identity is exactly
/// `first_identifier + "_" + second_identifier`.  The identity is a pure
/// function of the block, so repeated calls agree.
pub proof fn lemma_get_id_arity(b: TerraformBlockV)
    requires
        b matches TerraformBlockV::NoIdentifiers { block_type, .. } ==> block_type.len() > 0,
        b matches TerraformBlockV::WithOneIdentifier { block_type, .. } ==> block_type.len() > 0,
        b matches TerraformBlockV::WithTwoIdentifiers { first_identifier, .. } ==>
            first_identifier.len() > 0,
    ensures
        spec_get_id(b).len() > 0,
        b matches TerraformBlockV::WithTwoIdentifiers { first_identifier, second_identifier, .. }
            ==> spec_get_id(b) == first_identifier + seq!['_'] + second_identifier,
{
}

/// Evaluating any expression against any block yields exactly one of the
/// three result shapes, decided by whether anything matched and whether
/// any segment projects: no match is `Missing`, a match under a
/// projection segment is `List`, and a match without one is `Scalar`.
/// The evaluation itself is a total function of the block and the
/// expression text.
pub proof fn lemma_query_totality(b: TerraformBlockV, e: Seq<char>)
    ensures
        ({
            let parts = spec_parse_jmespath(e);
            let res = spec_query_block(b, parts);
            &&& (spec_jmespath_query(b, e) is Missing <==> res.len() == 0)
            &&& (spec_jmespath_query(b, e) is List <==> res.len() > 0 && spec_has_list_part(
                parts,
            ))
            &&& (spec_jmespath_query(b, e) is Scalar <==> res.len() > 0 && !spec_has_list_part(
                parts,
            ))
            &&& (spec_jmespath_query(b, e) matches TFQueryResultV::List(vs) ==> vs == res)
            &&& (spec_jmespath_query(b, e) matches TFQueryResultV::Scalar(v) ==> v == res[0])
        }),
{
}

/// Projecting through an array concatenates the per-element matches flat,
/// in element order: the matches of element `i` stand between those of
/// the elements before and after it, and the total length is the sum of
/// the per-element match counts.
pub proof fn lemma_list_projection(vs: Seq<AttributeTypeV>, parts: Seq<QueryPartV>, i: int)
    requires
        0 <= i < vs.len(),
    ensures
        spec_query_at(AttributeTypeV::Array(vs), parts) == spec_query_elems_flat(vs, parts),
        spec_query_elems_flat(vs, parts) == spec_query_elems_flat(vs.subrange(0, i), parts)
            + spec_query_at(vs[i], parts) + spec_query_elems_flat(
            vs.subrange(i + 1, vs.len() as int),
            parts,
        ),
{
    lemma_elems_flat_concat(vs.subrange(0, i), vs.subrange(i, vs.len() as int), parts);
    assert(vs =~= vs.subrange(0, i) + vs.subrange(i, vs.len() as int));
    let tail = vs.subrange(i, vs.len() as int);
    assert(tail[0] == vs[i]);
    assert(tail.drop_first() =~= vs.subrange(i + 1, vs.len() as int));
    if tail.len() > 0 {
        assert(spec_query_elems_flat(tail, parts) == spec_query_at(tail[0], parts)
            + spec_query_elems_flat(tail.drop_first(), parts));
    }
}

/// Flat projection distributes over concatenation of element lists.
pub proof fn lemma_elems_flat_concat(
    a: Seq<AttributeTypeV>,
    b: Seq<AttributeTypeV>,
    parts: Seq<QueryPartV>,
)
    ensures
        spec_query_elems_flat(a + b, parts) == spec_query_elems_flat(a, parts)
            + spec_query_elems_flat(b, parts),
    decreases a,
{
    if a.len() == 0 {
        assert(a + b =~= b);
        assert(spec_query_elems_flat(a, parts) =~= Seq::<AttributeTypeV>::empty());
        assert(spec_query_elems_flat(a + b, parts) =~= spec_query_elems_flat(a, parts)
            + spec_query_elems_flat(b, parts));
    } else {
        lemma_elems_flat_concat(a.drop_first(), b, parts);
        assert((a + b).drop_first() =~= a.drop_first() + b);
        assert((a + b)[0] == a[0]);
        assert(spec_query_elems_flat(a + b, parts) =~= spec_query_elems_flat(a, parts)
            + spec_query_elems_flat(b, parts));
    }
}


/// String content the scanner reads back exactly: no unescaped quote,
/// and every backslash is followed by another character.
pub open spec fn wf_str(s: Seq<char>) -> bool
    decreases s.len(),
{
    if s.len() == 0 {
        true
    } else if s[0] == '"' {
        false
    } else if s[0] == '\\' {
        s.len() >= 2 && wf_str(s.skip(2))
    } else {
        wf_str(s.skip(1))
    }
}

/// A key the identifier scanner reads back exactly.
pub open spec fn wf_key(k: Seq<char>) -> bool {
    forall|i: int| 0 <= i < k.len() ==> is_json_ident_char(#[trigger] k[i])
}

/// A JSON tree whose rendered text parses back to the same tree.
pub open spec fn json_wf(v: JsonValueV) -> bool
    decreases v,
{
    match v {
        JsonValueV::Str(s) => wf_str(s),
        JsonValueV::Boolean(_) => true,
        JsonValueV::Null => true,
        JsonValueV::Num(n) => number_wf(n),
        JsonValueV::Array(vs) => json_wf_elems(vs),
        JsonValueV::Object(ps) => json_wf_pairs(ps),
    }
}

pub open spec fn json_wf_elems(vs: Seq<JsonValueV>) -> bool
    decreases vs,
{
    if vs.len() == 0 {
        true
    } else {
        json_wf(vs[0]) && json_wf_elems(vs.drop_first())
    }
}

pub open spec fn json_wf_pairs(ps: Seq<(Seq<char>, JsonValueV)>) -> bool
    decreases ps,
{
    if ps.len() == 0 {
        true
    } else {
        wf_key(ps[0].0) && json_wf(ps[0].1) && json_wf_pairs(ps.drop_first())
    }
}

/// A digit run bounded by a non-digit scans to exactly its end.
proof fn lemma_digits_scan_exact(s: Seq<char>, i: int, j: int)
    requires
        0 <= i <= j <= s.len(),
        forall|k: int| i <= k < j ==> is_digit_char(#[trigger] s[k]),
        j < s.len() ==> !is_digit_char(s[j]),
    ensures
        digits_end(s, i) == j,
    decreases j - i,
{
    if i < j {
        lemma_digits_scan_exact(s, i + 1, j);
    }
}

/// An identifier run bounded by a non-identifier character scans to
/// exactly its end.
proof fn lemma_ident_scan_exact(s: Seq<char>, i: int, j: int)
    requires
        0 <= i <= j <= s.len(),
        forall|k: int| i <= k < j ==> is_json_ident_char(#[trigger] s[k]),
        j < s.len() ==> !is_json_ident_char(s[j]),
    ensures
        json_ident_end(s, i) == j,
    decreases j - i,
{
    if i < j {
        lemma_ident_scan_exact(s, i + 1, j);
    }
}

/// Well-formed string content before a closing quote scans back to
/// itself.
proof fn lemma_content_roundtrip(c: Seq<char>, s: Seq<char>, i: int)
    requires
        wf_str(c),
        0 <= i,
        i + c.len() + 1 <= s.len(),
        forall|k: int| 0 <= k < c.len() ==> s[i + k] == #[trigger] c[k],
        s[i + c.len()] == '"',
    ensures
        spec_str_content(s, i) == Some((c, i + c.len() + 1)),
    decreases c.len(),
{
    if c.len() == 0 {
        assert(s[i] == '"');
        assert(spec_str_content(s, i) == Some((Seq::<char>::empty(), i + 1)));
        assert(c =~= Seq::<char>::empty());
    } else if c[0] == '\\' {
        let c2 = c.skip(2);
        assert(wf_str(c2));
        assert forall|k: int| 0 <= k < c2.len() implies s[i + 2 + k] == #[trigger] c2[k] by {
            assert(c2[k] == c[k + 2]);
        }
        lemma_content_roundtrip(c2, s, i + 2);
        assert(s[i] == '\\');
        assert(s[i] != '"');
        assert(i + 2 <= s.len());
        assert(spec_str_content(s, i) == Some((seq![s[i], s[i + 1]] + c2, i + c.len() + 1)));
        assert(seq![s[i], s[i + 1]] + c2 =~= c);
    } else {
        let c1 = c.skip(1);
        assert(wf_str(c1));
        assert forall|k: int| 0 <= k < c1.len() implies s[i + 1 + k] == #[trigger] c1[k] by {
            assert(c1[k] == c[k + 1]);
        }
        lemma_content_roundtrip(c1, s, i + 1);
        assert(s[i] == c[0]);
        assert(s[i] != '"' && s[i] != '\\');
        assert(spec_str_content(s, i) == Some((seq![s[i]] + c1, i + c.len() + 1)));
        assert(seq![s[i]] + c1 =~= c);
    }
}


/// What may follow a serialized scalar without extending its parse.
pub open spec fn follow_ok(s: Seq<char>, j: int) -> bool {
    j == s.len() || (j < s.len() && (s[j] == ',' || s[j] == ']' || s[j] == '}'))
}

proof fn lemma_digit_chars_are_digits(ds: Seq<u8>)
    requires
        digits_ok(ds),
    ensures
        forall|k: int| 0 <= k < ds.len() ==> is_digit_char(#[trigger] digit_chars(ds)[k]),
        forall|k: int|
            0 <= k < ds.len() ==> (#[trigger] digit_chars(ds)[k]) as u32 == ds[k] + 48,
{
    assert forall|k: int| 0 <= k < ds.len() implies is_digit_char(#[trigger] digit_chars(ds)[k])
        && (digit_chars(ds)[k]) as u32 == ds[k] + 48 by {
        assert(0 <= ds[k] <= 9);
        let c = ((ds[k] + 48) as u8) as char;
        assert(c as u32 == ds[k] + 48);
        assert('0' as u32 == 48 && '9' as u32 == 57);
        assert(is_digit_char(c));
    }
}

proof fn lemma_strip_trail_zeros(ds: Seq<u8>, z: nat)
    requires
        ds.len() > 0 ==> ds[ds.len() - 1] != 0,
    ensures
        strip_trail(ds + crate::number::zero_vals(z)) == strip_trail(ds),
        strip_trail(ds) == ds,
    decreases z,
{
    if ds.len() > 0 {
        assert(strip_trail(ds) == ds);
    } else {
        assert(strip_trail(ds) == ds);
    }
    if z == 0 {
        assert(ds + crate::number::zero_vals(0) =~= ds);
    } else {
        let w = ds + crate::number::zero_vals(z);
        assert(w.len() == ds.len() + z);
        assert(w[w.len() - 1] == 0);
        assert(w.drop_last() =~= ds + crate::number::zero_vals((z - 1) as nat));
        lemma_strip_trail_zeros(ds, (z - 1) as nat);
    }
}

proof fn lemma_strip_lead_zeros(ds: Seq<u8>, z: nat)
    requires
        ds.len() > 0 ==> ds[0] != 0,
    ensures
        strip_lead(crate::number::zero_vals(z) + ds) == strip_lead(ds),
        strip_lead(ds) == ds,
    decreases z,
{
    if ds.len() > 0 {
        assert(strip_lead(ds) == ds);
    } else {
        assert(strip_lead(ds) == ds);
    }
    if z == 0 {
        assert(crate::number::zero_vals(0) + ds =~= ds);
    } else {
        let w = crate::number::zero_vals(z) + ds;
        assert(w.len() == ds.len() + z);
        assert(w[0] == 0);
        assert(w.drop_first() =~= crate::number::zero_vals((z - 1) as nat) + ds);
        lemma_strip_lead_zeros(ds, (z - 1) as nat);
    }
}

/// The canonical form of clean digits padded by zeros on either side.
proof fn lemma_canon_padded(neg: bool, ds: Seq<u8>, lead: nat, trail: nat, exp: int)
    requires
        digits_ok(ds),
        ds.len() > 0,
        ds[0] != 0,
        ds[ds.len() - 1] != 0,
    ensures
        spec_canon(
            neg,
            crate::number::zero_vals(lead) + ds + crate::number::zero_vals(trail),
            exp,
        ) == (NumberV { neg, digits: ds, exp: exp + trail }),
    decreases trail,
{
    let whole = crate::number::zero_vals(lead) + ds + crate::number::zero_vals(trail);
    let padded = crate::number::zero_vals(lead) + ds;
    assert(padded.len() > 0 && padded[padded.len() - 1] != 0);
    lemma_strip_trail_zeros(padded, trail);
    assert(whole =~= padded + crate::number::zero_vals(trail));
    assert(strip_trail(whole) == padded);
    lemma_strip_lead_zeros(ds, lead);
    assert(strip_lead(padded) == ds);
    assert(whole.len() - padded.len() == trail);
}

/// A rendered canonical number parses back to itself when nothing that
/// could extend a number follows it.
#[verifier::rlimit(100)]
#[verifier::spinoff_prover]
proof fn lemma_number_roundtrip(n: NumberV, s: Seq<char>, i: int)
    requires
        number_wf(n),
        0 <= i,
        i + spec_render_number(n).len() <= s.len(),
        forall|k: int|
            0 <= k < spec_render_number(n).len() ==> s[i + k] == #[trigger] spec_render_number(
                n,
            )[k],
        follow_ok(s, i + spec_render_number(n).len()),
    ensures
        spec_parse_number(s, i) == Some((n, i + spec_render_number(n).len())),
{
    let r = spec_render_number(n);
    let e = i + r.len();
    lemma_digit_chars_are_digits(n.digits);
    assert('-' as u32 == 45 && '.' as u32 == 46 && '0' as u32 == 48);
    if n.digits.len() == 0 {
        // zero renders as a single digit
        assert(r =~= seq!['0']);
        assert(s[i + 0] == spec_render_number(n)[0]);
        assert(s[i] == '0');
        assert(is_digit_char(s[i]));
        assert(!(s[i] == '-' || s[i] == '+'));
        lemma_digits_scan_exact(s, i, i + 1);
        assert(digits_end(s, i) == i + 1);
        assert(i + 1 < s.len() ==> s[i + 1] != '.' && s[i + 1] != 'e' && s[i + 1] != 'E');
        let mant = digit_vals(s, i, i + 1);
        assert(mant =~= seq![0u8]);
        assert(seq![0u8].drop_last() =~= Seq::<u8>::empty());
        assert(strip_trail(Seq::<u8>::empty()) =~= Seq::<u8>::empty());
        assert(seq![0u8][0] == 0);
        assert(strip_trail(seq![0u8]) =~= Seq::<u8>::empty());
        assert(strip_lead(Seq::<u8>::empty()) =~= Seq::<u8>::empty());
        assert(n.digits =~= Seq::<u8>::empty());
        assert(spec_canon(false, mant, 0) == n);
        assert(spec_parse_number(s, i) == Some((spec_canon(false, mant, 0), i + 1)));
    } else {
        let sign: Seq<char> = if n.neg {
            seq!['-']
        } else {
            Seq::empty()
        };
        let i1 = i + sign.len();
        let dlen = n.digits.len() as int;
        assert(s[i + 0] == spec_render_number(n)[0]);
        assert('+' as u32 == 43);
        if n.exp >= 0 {
            // all significant digits then trailing zeros
            assert(r =~= sign + digit_chars(n.digits) + zero_chars(n.exp as nat));
            if n.neg {
                assert(r[0] == '-');
            } else {
                assert(r[0] == digit_chars(n.digits)[0]);
                assert(r[0] as u32 == n.digits[0] + 48);
                assert(s[i] != '-' && s[i] != '+');
            }
            assert forall|k: int| i1 <= k < e implies is_digit_char(#[trigger] s[k]) by {
                let o = k - i;
                assert(s[k] == r[o]);
                if o - sign.len() < dlen {
                    assert(r[o] == digit_chars(n.digits)[o - sign.len()]);
                } else {
                    assert(r[o] == '0');
                }
            }
            lemma_digits_scan_exact(s, i1, e);
            assert(digits_end(s, i1) == e);
            assert(e > i1);
            assert(e < s.len() ==> s[e] != '.' && s[e] != 'e' && s[e] != 'E');
            let mant = digit_vals(s, i1, e);
            assert(mant =~= n.digits + crate::number::zero_vals(n.exp as nat)) by {
                assert(mant.len() == dlen + n.exp);
                assert forall|k: int| 0 <= k < mant.len() implies mant[k] == (n.digits
                    + crate::number::zero_vals(n.exp as nat))[k] by {
                    assert(s[i1 + k] == r[k + sign.len()]);
                    if k < dlen {
                        assert(r[k + sign.len()] == digit_chars(n.digits)[k]);
                        assert((s[i1 + k] as u32) == n.digits[k] + 48);
                    } else {
                        assert(r[k + sign.len()] == '0');
                    }
                }
            }
            lemma_canon_padded(n.neg, n.digits, 0, n.exp as nat, 0);
            assert(crate::number::zero_vals(0) + n.digits + crate::number::zero_vals(
                n.exp as nat,
            ) =~= mant);
            assert(spec_canon(n.neg, mant, 0) == n);
            assert(spec_parse_number(s, i) == Some((spec_canon(n.neg, mant, 0), e)));
        } else if dlen + n.exp > 0 {
            // digits split by a decimal point
            let kk = dlen + n.exp;
            let intd = n.digits.subrange(0, kk);
            let fracd = n.digits.subrange(kk, dlen);
            assert(r =~= sign + digit_chars(intd) + seq!['.'] + digit_chars(fracd));
            lemma_digit_chars_are_digits(intd);
            lemma_digit_chars_are_digits(fracd);
            if n.neg {
                assert(r[0] == '-');
            } else {
                assert(r[0] == digit_chars(intd)[0]);
                assert(r[0] as u32 == intd[0] + 48);
                assert(s[i] != '-' && s[i] != '+');
            }
            let dot = i1 + kk;
            assert forall|k: int| i1 <= k < dot implies is_digit_char(#[trigger] s[k]) by {
                assert(s[k] == spec_render_number(n)[k - i]);
                assert(s[k] == r[k - i]);
                assert(r[k - i] == digit_chars(intd)[k - i1]);
                assert(digit_chars(intd)[k - i1] as u32 == intd[k - i1] + 48);
                assert(0 <= intd[k - i1] <= 9);
            }
            assert(s[dot] == spec_render_number(n)[dot - i]);
            assert(r[dot - i] == '.');
            assert(s[dot] == '.');
            assert(!is_digit_char(s[dot]));
            lemma_digits_scan_exact(s, i1, dot);
            assert(digits_end(s, i1) == dot);
            assert(dot > i1);
            assert forall|k: int| dot + 1 <= k < e implies is_digit_char(#[trigger] s[k]) by {
                assert(s[k] == spec_render_number(n)[k - i]);
                assert(s[k] == r[k - i]);
                assert(r[k - i] == digit_chars(fracd)[k - (dot + 1)]);
                assert(digit_chars(fracd)[k - (dot + 1)] as u32 == fracd[k - (dot + 1)] + 48);
                assert(0 <= fracd[k - (dot + 1)] <= 9);
            }
            lemma_digits_scan_exact(s, dot + 1, e);
            assert(digits_end(s, dot + 1) == e);
            assert(e < s.len() ==> s[e] != 'e' && s[e] != 'E');
            let mant = digit_vals(s, i1, dot) + digit_vals(s, dot + 1, e);
            assert(mant =~= n.digits) by {
                assert(mant.len() == dlen);
                assert forall|k: int| 0 <= k < dlen implies mant[k] == n.digits[k] by {
                    if k < kk {
                        assert(mant[k] == ((s[i1 + k] as u32) - 48) as u8);
                        assert(s[i1 + k] == r[k + sign.len()]);
                        assert(r[k + sign.len()] == digit_chars(intd)[k]);
                        assert(digit_chars(intd)[k] as u32 == intd[k] + 48);
                        assert(intd[k] == n.digits[k]);
                    } else {
                        assert(mant[k] == ((s[dot + 1 + (k - kk)] as u32) - 48) as u8);
                        assert(s[dot + 1 + (k - kk)] == r[(k - kk) + sign.len() + kk + 1]);
                        assert(r[(k - kk) + sign.len() + kk + 1] == digit_chars(fracd)[k - kk]);
                        assert(digit_chars(fracd)[k - kk] as u32 == fracd[k - kk] + 48);
                        assert(fracd[k - kk] == n.digits[k]);
                    }
                }
            }
            lemma_canon_padded(n.neg, n.digits, 0, 0, -(e - (dot + 1)));
            assert(crate::number::zero_vals(0) + n.digits + crate::number::zero_vals(0)
                =~= n.digits);
            assert(-(e - (dot + 1)) == n.exp);
            assert(spec_canon(n.neg, mant, -(e - (dot + 1))) == n);
        } else {
            // a leading zero, the point, then padding zeros and the digits
            let zn = (-(n.exp) - dlen) as nat;
            assert(r =~= sign + seq!['0', '.'] + zero_chars(zn) + digit_chars(n.digits));
            if n.neg {
                assert(r[0] == '-');
            } else {
                assert(r[0] == '0');
                assert(s[i] != '-' && s[i] != '+');
            }
            assert(s[i1 + 0] == spec_render_number(n)[i1 - i]);
            assert(r[i1 - i] == '0');
            assert(s[i1] == '0');
            assert(is_digit_char(s[i1]));
            assert(s[i1 + 1] == spec_render_number(n)[i1 + 1 - i]);
            assert(r[i1 + 1 - i] == '.');
            assert(s[i1 + 1] == '.');
            assert(!is_digit_char(s[i1 + 1]));
            lemma_digits_scan_exact(s, i1, i1 + 1);
            assert(digits_end(s, i1) == i1 + 1);
            let dot = i1 + 1;
            assert forall|k: int| dot + 1 <= k < e implies is_digit_char(#[trigger] s[k]) by {
                assert(s[k] == spec_render_number(n)[k - i]);
                assert(s[k] == r[k - i]);
                let o = k - (dot + 1);
                if o < zn {
                    assert(r[k - i] == '0');
                } else {
                    assert(r[k - i] == digit_chars(n.digits)[o - zn]);
                    assert(digit_chars(n.digits)[o - zn] as u32 == n.digits[o - zn] + 48);
                    assert(0 <= n.digits[o - zn] <= 9);
                }
            }
            lemma_digits_scan_exact(s, dot + 1, e);
            assert(digits_end(s, dot + 1) == e);
            assert(e < s.len() ==> s[e] != 'e' && s[e] != 'E');
            let mant = digit_vals(s, i1, dot) + digit_vals(s, dot + 1, e);
            assert(mant =~= crate::number::zero_vals((zn + 1) as nat) + n.digits
                + crate::number::zero_vals(0)) by {
                assert(mant.len() == 1 + zn + dlen);
                assert forall|k: int| 0 <= k < mant.len() implies mant[k] == (
                crate::number::zero_vals((zn + 1) as nat) + n.digits + crate::number::zero_vals(
                    0,
                ))[k] by {
                    if k == 0 {
                        assert(mant[0] == ((s[i1] as u32) - 48) as u8);
                    } else if k < 1 + zn {
                        assert(mant[k] == ((s[dot + 1 + (k - 1)] as u32) - 48) as u8);
                        assert(s[dot + 1 + (k - 1)] == r[(k - 1) + sign.len() + 2]);
                        assert(r[(k - 1) + sign.len() + 2] == '0');
                    } else {
                        assert(mant[k] == ((s[dot + 1 + (k - 1)] as u32) - 48) as u8);
                        assert(s[dot + 1 + (k - 1)] == r[(k - 1) + sign.len() + 2]);
                        assert(r[(k - 1) + sign.len() + 2] == digit_chars(n.digits)[k - 1 - zn]);
                        assert(digit_chars(n.digits)[k - 1 - zn] as u32 == n.digits[k - 1 - zn]
                            + 48);
                    }
                }
            }
            lemma_canon_padded(n.neg, n.digits, (zn + 1) as nat, 0, -(e - (dot + 1)));
            assert(-(e - (dot + 1)) + 0 == n.exp);
            assert(spec_canon(n.neg, mant, -(e - (dot + 1))) == n);
        }
    }
}


/// The first character of a rendered number: a sign or a digit.
proof fn lemma_render_number_head(n: NumberV)
    requires
        number_wf(n),
    ensures
        spec_render_number(n).len() >= 1,
        spec_render_number(n)[0] == '-' || is_digit_char(spec_render_number(n)[0]),
{
    let r = spec_render_number(n);
    lemma_digit_chars_are_digits(n.digits);
    if n.digits.len() == 0 {
        assert(r =~= seq!['0']);
        assert('0' as u32 == 48 && '9' as u32 == 57);
        assert(is_digit_char('0'));
    } else {
        let sign: Seq<char> = if n.neg {
            seq!['-']
        } else {
            Seq::empty()
        };
        if n.exp >= 0 {
            assert(r =~= sign + digit_chars(n.digits) + zero_chars(n.exp as nat));
            if !n.neg {
                assert(r[0] == digit_chars(n.digits)[0]);
            }
        } else if n.digits.len() + n.exp > 0 {
            let kk = n.digits.len() + n.exp;
            assert(r =~= sign + digit_chars(n.digits.subrange(0, kk)) + seq!['.'] + digit_chars(
                n.digits.subrange(kk, n.digits.len() as int),
            ));
            lemma_digit_chars_are_digits(n.digits.subrange(0, kk));
            if !n.neg {
                assert(r[0] == digit_chars(n.digits.subrange(0, kk))[0]);
            }
        } else {
            assert(r =~= sign + seq!['0', '.'] + zero_chars((-(n.exp) - n.digits.len()) as nat)
                + digit_chars(n.digits));
            if !n.neg {
                assert(r[0] == '0');
                assert('0' as u32 == 48 && '9' as u32 == 57);
                assert(is_digit_char('0'));
            }
        }
    }
}

/// The first character of a rendered value, by shape: it is never
/// whitespace, never a backslash, and identifies the variant's branch.
proof fn lemma_serialize_head(v: JsonValueV)
    requires
        json_wf(v),
    ensures
        spec_serialize(v).len() >= 1,
        !is_multispace_char(spec_serialize(v)[0]),
        spec_serialize(v)[0] != '\\',
        (spec_serialize(v)[0] == '{' <==> v is Object),
        (spec_serialize(v)[0] == '[' <==> v is Array),
        (spec_serialize(v)[0] == '"' <==> v is Str),
{
    reveal_strlit("true");
    reveal_strlit("false");
    reveal_strlit("null");
    match v {
        JsonValueV::Str(c) => {
        },
        JsonValueV::Boolean(b) => {
            if b {
                assert(spec_serialize(v) == "true"@);
                assert("true"@[0] == 't');
            } else {
                assert(spec_serialize(v) == "false"@);
                assert("false"@[0] == 'f');
            }
        },
        JsonValueV::Null => {
            assert(spec_serialize(v) == "null"@);
            assert("null"@[0] == 'n');
        },
        JsonValueV::Num(n) => {
            lemma_render_number_head(n);
            let c = spec_render_number(n)[0];
            assert(c == '-' || ('0' <= c && c <= '9'));
            assert('-' as u32 == 45 && '0' as u32 == 48 && '9' as u32 == 57);
            assert('{' as u32 == 123 && '[' as u32 == 91 && '"' as u32 == 34 && '\\' as u32
                == 92);
            assert(' ' as u32 == 32 && '\t' as u32 == 9 && '\r' as u32 == 13 && '\n' as u32
                == 10);
        },
        JsonValueV::Array(vs) => {
        },
        JsonValueV::Object(ps) => {
        },
    }
}

/// No value starts at a closing bracket, a closing brace, a comma, or a
/// colon.
proof fn lemma_value_none_at(s: Seq<char>, i: int)
    requires
        0 <= i < s.len(),
        s[i] == ']' || s[i] == '}' || s[i] == ',' || s[i] == ':',
    ensures
        spec_json_value(s, i) is None,
        spec_parse_number(s, i) is None,
{
    reveal_strlit("true");
    reveal_strlit("false");
    reveal_strlit("null");
    assert(!is_multispace_char(s[i]));
    assert(ws_end(s, i) == i);
    assert(!is_digit_char(s[i]));
    lemma_digits_scan_exact(s, i, i);
    assert(digits_end(s, i) == i);
    assert(s[i] != '-' && s[i] != '+' && s[i] != '.');
    assert(spec_parse_number(s, i) is None);
    if has_tag(s, i, "true"@) {
        assert(s.subrange(i, i + 4)[0] == s[i]);
        assert(s[i] == 't');
        assert(false);
    }
    if has_tag(s, i, "false"@) {
        assert(s.subrange(i, i + 5)[0] == s[i]);
        assert(false);
    }
    if has_tag(s, i, "null"@) {
        assert(s.subrange(i, i + 4)[0] == s[i]);
        assert(false);
    }
}

/// No `key : value` pair starts at a closing brace.
proof fn lemma_keyvalue_none_at(s: Seq<char>, i: int)
    requires
        0 <= i < s.len(),
        s[i] == '}' || s[i] == ']' || s[i] == ',',
    ensures
        spec_key_value(s, i) is None,
{
    reveal_strlit("\\\"");
    reveal_strlit("\\");
    reveal_strlit("\"");
    assert(!is_multispace_char(s[i]));
    assert(ws_end(s, i) == i);
    if has_tag(s, i, "\\\""@) {
        assert(s.subrange(i, i + 2)[0] == s[i]);
        assert(false);
    }
    if has_tag(s, i, "\\"@) {
        assert(s.subrange(i, i + 1)[0] == s[i]);
        assert(false);
    }
    if has_tag(s, i, "\""@) {
        assert(s.subrange(i, i + 1)[0] == s[i]);
        assert(false);
    }
    assert(spec_escaped_l(s, i) is None);
}


/// A rendered value parses back to itself from its own first character,
/// when what follows cannot extend it.
#[verifier::rlimit(100)]
#[verifier::spinoff_prover]
proof fn lemma_value_roundtrip(v: JsonValueV, s: Seq<char>, i: int)
    requires
        json_wf(v),
        0 <= i,
        i + spec_serialize(v).len() <= s.len(),
        forall|k: int|
            0 <= k < spec_serialize(v).len() ==> s[i + k] == #[trigger] spec_serialize(v)[k],
        follow_ok(s, i + spec_serialize(v).len()),
    ensures
        spec_json_value(s, i) == Some((v, i + spec_serialize(v).len())),
    decreases v, 1int,
{
    let r = spec_serialize(v);
    let e = i + r.len();
    lemma_serialize_head(v);
    assert(s[i + 0] == spec_serialize(v)[0]);
    assert(ws_end(s, i) == i);
    reveal_strlit("true");
    reveal_strlit("false");
    reveal_strlit("null");
    match v {
        JsonValueV::Str(c) => {
            assert(r =~= seq!['"'] + c + seq!['"']);
            assert(s[i] == '"');
            assert forall|k: int| 0 <= k < c.len() implies s[i + 1 + k] == #[trigger] c[k] by {
                assert(s[i + (k + 1)] == spec_serialize(v)[k + 1]);
            }
            assert(s[i + (c.len() + 1)] == spec_serialize(v)[c.len() as int + 1]);
            assert(s[i + 1 + c.len()] == '"');
            lemma_content_roundtrip(c, s, i + 1);
        },
        JsonValueV::Boolean(b) => {
            if b {
                assert(r == "true"@);
                assert(s[i] == 't');
                assert(s[i] != '{' && s[i] != '[' && s[i] != '"' && s[i] != '\\');
                assert(!is_digit_char(s[i]) && s[i] != '-' && s[i] != '+' && s[i] != '.');
                lemma_digits_scan_exact(s, i, i);
                assert(spec_parse_number(s, i) is None);
                assert(s.subrange(i, i + 4) =~= "true"@);
                assert(has_tag(s, i, "true"@));
            } else {
                assert(r == "false"@);
                assert(s[i] == 'f');
                assert(s[i] != '{' && s[i] != '[' && s[i] != '"' && s[i] != '\\');
                assert(!is_digit_char(s[i]) && s[i] != '-' && s[i] != '+' && s[i] != '.');
                lemma_digits_scan_exact(s, i, i);
                assert(spec_parse_number(s, i) is None);
                if has_tag(s, i, "true"@) {
                    assert(s.subrange(i, i + 4)[0] == s[i]);
                    assert(false);
                }
                assert(s.subrange(i, i + 5) =~= "false"@);
                assert(has_tag(s, i, "false"@));
            }
        },
        JsonValueV::Null => {
            assert(r == "null"@);
            assert(s[i] == 'n');
            assert(s[i] != '{' && s[i] != '[' && s[i] != '"' && s[i] != '\\');
            assert(!is_digit_char(s[i]) && s[i] != '-' && s[i] != '+' && s[i] != '.');
            lemma_digits_scan_exact(s, i, i);
            assert(spec_parse_number(s, i) is None);
            if has_tag(s, i, "true"@) {
                assert(s.subrange(i, i + 4)[0] == s[i]);
                assert(false);
            }
            if has_tag(s, i, "false"@) {
                assert(s.subrange(i, i + 5)[0] == s[i]);
                assert(false);
            }
            assert(s.subrange(i, i + 4) =~= "null"@);
            assert(has_tag(s, i, "null"@));
        },
        JsonValueV::Num(n) => {
            assert(s[i] != '{' && s[i] != '[' && s[i] != '"' && s[i] != '\\');
            lemma_number_roundtrip(n, s, i);
        },
        JsonValueV::Array(vs) => {
            assert(r =~= seq!['['] + spec_serialize_elems(vs) + seq![']']);
            assert(s[i] == '[');
            let inner = spec_serialize_elems(vs);
            assert forall|k: int| 0 <= k < inner.len() implies s[i + 1 + k] == #[trigger] inner[k] by {
                assert(s[i + (k + 1)] == spec_serialize(v)[k + 1]);
            }
            assert(s[i + (inner.len() + 1)] == spec_serialize(v)[inner.len() as int + 1]);
            assert(s[i + 1 + inner.len()] == ']');
            lemma_elems_roundtrip(vs, s, i + 1);
            let j = i + 1 + inner.len();
            assert(spec_elems(s, i + 1) == (vs, j));
            assert(!is_multispace_char(']'));
            assert(ws_end(s, j) == j);
        },
        JsonValueV::Object(ps) => {
            assert(r =~= seq!['{'] + spec_serialize_pairs(ps) + seq!['}']);
            assert(s[i] == '{');
            let inner = spec_serialize_pairs(ps);
            assert forall|k: int| 0 <= k < inner.len() implies s[i + 1 + k] == #[trigger] inner[k] by {
                assert(s[i + (k + 1)] == spec_serialize(v)[k + 1]);
            }
            assert(s[i + (inner.len() + 1)] == spec_serialize(v)[inner.len() as int + 1]);
            assert(s[i + 1 + inner.len()] == '}');
            lemma_members_roundtrip(ps, s, i + 1);
            let j = i + 1 + inner.len();
            assert(spec_members(s, i + 1) == (ps, j));
            assert(!is_multispace_char('}'));
            assert(ws_end(s, j) == j);
        },
    }
}

/// Rendered array elements parse back to themselves, up to the closing
/// bracket.
#[verifier::rlimit(100)]
#[verifier::spinoff_prover]
proof fn lemma_elems_roundtrip(vs: Seq<JsonValueV>, s: Seq<char>, i: int)
    requires
        json_wf_elems(vs),
        0 <= i,
        i + spec_serialize_elems(vs).len() < s.len(),
        forall|k: int|
            0 <= k < spec_serialize_elems(vs).len() ==> s[i + k]
                == #[trigger] spec_serialize_elems(vs)[k],
        s[i + spec_serialize_elems(vs).len()] == ']',
    ensures
        spec_elems(s, i) == (vs, i + spec_serialize_elems(vs).len()),
    decreases vs, 2int,
{
    let r = spec_serialize_elems(vs);
    let e = i + r.len();
    if vs.len() == 0 {
        assert(r =~= Seq::<char>::empty());
        assert(s[i] == ']');
        lemma_value_none_at(s, i);
    } else if vs.len() == 1 {
        assert(r == spec_serialize(vs[0]));
        lemma_value_roundtrip(vs[0], s, i);
        let j = i + spec_serialize(vs[0]).len();
        assert(s[j] == ']');
        assert(!is_space_char(']'));
        assert(sp_end(s, j) == j);
        assert(spec_elems(s, i) == (seq![vs[0]], j));
        assert(seq![vs[0]] =~= vs);
    } else {
        let rest = vs.drop_first();
        let r0 = spec_serialize(vs[0]);
        assert(r == r0 + seq![','] + spec_serialize_elems(rest));
        assert forall|k: int| 0 <= k < r0.len() implies s[i + k] == #[trigger] r0[k] by {
            assert(s[i + k] == spec_serialize_elems(vs)[k]);
        }
        assert(s[i + r0.len()] == spec_serialize_elems(vs)[r0.len() as int]);
        assert(s[i + r0.len()] == ',');
        lemma_value_roundtrip(vs[0], s, i);
        let j = i + r0.len();
        assert(!is_space_char(','));
        assert(sp_end(s, j) == j);
        let rr = spec_serialize_elems(rest);
        assert forall|k: int| 0 <= k < rr.len() implies s[j + 1 + k] == #[trigger] rr[k] by {
            assert(s[i + (r0.len() + 1 + k)] == spec_serialize_elems(vs)[r0.len() as int + 1 + k]);
        }
        assert(s[j + 1 + rr.len()] == ']');
        lemma_elems_roundtrip(rest, s, j + 1);
        assert(spec_elems(s, j + 1) == (rest, j + 1 + rr.len()));
        // the next element parses, so the separator is taken
        assert(rest.len() >= 1);
        assert(json_wf_elems(rest));
        assert(json_wf(rest[0]));
        if rest.len() == 1 {
            assert(rr == spec_serialize(rest[0]));
            lemma_value_roundtrip(rest[0], s, j + 1);
        } else {
            let rr0 = spec_serialize(rest[0]);
            assert(rr == rr0 + seq![','] + spec_serialize_elems(rest.drop_first()));
            assert forall|k: int| 0 <= k < rr0.len() implies s[j + 1 + k] == #[trigger] rr0[k] by {
                assert(s[j + 1 + k] == rr[k]);
            }
            assert(s[j + 1 + rr0.len()] == rr[rr0.len() as int]);
            lemma_value_roundtrip(rest[0], s, j + 1);
        }
        assert(spec_json_value(s, j + 1) is Some);
        assert(spec_elems(s, i) == (seq![vs[0]] + rest, j + 1 + rr.len()));
        assert(seq![vs[0]] + rest =~= vs);
        assert(j + 1 + rr.len() == e);
    }
}

/// One rendered `"key":value` pair parses back to itself.
#[verifier::rlimit(100)]
#[verifier::spinoff_prover]
proof fn lemma_pair_roundtrip(p: (Seq<char>, JsonValueV), s: Seq<char>, i: int)
    requires
        wf_key(p.0),
        json_wf(p.1),
        0 <= i,
        i + spec_serialize_pair(p).len() <= s.len(),
        forall|k: int|
            0 <= k < spec_serialize_pair(p).len() ==> s[i + k] == #[trigger] spec_serialize_pair(
                p,
            )[k],
        follow_ok(s, i + spec_serialize_pair(p).len()),
    ensures
        spec_key_value(s, i) == Some((p.0, p.1, i + spec_serialize_pair(p).len())),
    decreases p, 1int,
{
    reveal_strlit("\\\"");
    reveal_strlit("\\");
    reveal_strlit("\"");
    let r = spec_serialize_pair(p);
    let key = p.0;
    assert(r =~= seq!['"'] + key + seq!['"', ':'] + spec_serialize(p.1));
    assert(s[i + 0] == spec_serialize_pair(p)[0]);
    assert(s[i] == '"');
    assert(!is_multispace_char('"'));
    assert(ws_end(s, i) == i);
    if has_tag(s, i, "\\\""@) {
        assert(s.subrange(i, i + 2)[0] == s[i]);
        assert(false);
    }
    if has_tag(s, i, "\\"@) {
        assert(s.subrange(i, i + 1)[0] == s[i]);
        assert(false);
    }
    assert(s.subrange(i, i + 1) =~= "\""@);
    assert(has_tag(s, i, "\""@));
    assert forall|k: int| 0 <= k < key.len() implies s[i + 1 + k] == #[trigger] key[k] by {
        assert(s[i + (k + 1)] == spec_serialize_pair(p)[k + 1]);
    }
    let q = i + 1 + key.len();
    assert(s[i + (key.len() + 1)] == spec_serialize_pair(p)[key.len() as int + 1]);
    assert(s[q] == '"');
    assert(!is_json_ident_char('"'));
    assert forall|k: int| i + 1 <= k < q implies is_json_ident_char(#[trigger] s[k]) by {
        assert(s[k] == key[k - (i + 1)]);
    }
    lemma_ident_scan_exact(s, i + 1, q);
    assert(json_ident_end(s, i + 1) == q);
    assert(s.subrange(q, q + 1) =~= "\""@);
    assert(has_tag(s, q, "\""@));
    assert(s.subrange(i + 1, q) =~= key);
    assert(spec_escaped_l(s, i) == Some((key, q + 1)));
    assert(s[i + (key.len() + 2)] == spec_serialize_pair(p)[key.len() as int + 2]);
    assert(s[q + 1] == ':');
    assert(!is_space_char(':'));
    assert(sp_end(s, q + 1) == q + 1);
    let vstart = q + 2;
    let rv = spec_serialize(p.1);
    assert forall|k: int| 0 <= k < rv.len() implies s[vstart + k] == #[trigger] rv[k] by {
        assert(s[i + (key.len() + 3 + k)] == spec_serialize_pair(p)[key.len() as int + 3 + k]);
    }
    lemma_value_roundtrip(p.1, s, vstart);
}

/// Rendered object pairs parse back to themselves, up to the closing
/// brace.
#[verifier::rlimit(100)]
#[verifier::spinoff_prover]
proof fn lemma_members_roundtrip(ps: Seq<(Seq<char>, JsonValueV)>, s: Seq<char>, i: int)
    requires
        json_wf_pairs(ps),
        0 <= i,
        i + spec_serialize_pairs(ps).len() < s.len(),
        forall|k: int|
            0 <= k < spec_serialize_pairs(ps).len() ==> s[i + k]
                == #[trigger] spec_serialize_pairs(ps)[k],
        s[i + spec_serialize_pairs(ps).len()] == '}',
    ensures
        spec_members(s, i) == (ps, i + spec_serialize_pairs(ps).len()),
    decreases ps, 2int,
{
    let r = spec_serialize_pairs(ps);
    let e = i + r.len();
    if ps.len() == 0 {
        assert(r =~= Seq::<char>::empty());
        assert(s[i] == '}');
        lemma_keyvalue_none_at(s, i);
    } else if ps.len() == 1 {
        assert(r == spec_serialize_pair(ps[0]));
        lemma_pair_roundtrip(ps[0], s, i);
        let j = i + spec_serialize_pair(ps[0]).len();
        assert(s[j] == '}');
        assert(!is_space_char('}'));
        assert(sp_end(s, j) == j);
        assert(spec_members(s, i) == (seq![(ps[0].0, ps[0].1)], j));
        assert(seq![(ps[0].0, ps[0].1)] =~= ps);
    } else {
        let rest = ps.drop_first();
        let r0 = spec_serialize_pair(ps[0]);
        assert(r == r0 + seq![','] + spec_serialize_pairs(rest));
        assert forall|k: int| 0 <= k < r0.len() implies s[i + k] == #[trigger] r0[k] by {
            assert(s[i + k] == spec_serialize_pairs(ps)[k]);
        }
        assert(s[i + r0.len()] == spec_serialize_pairs(ps)[r0.len() as int]);
        assert(s[i + r0.len()] == ',');
        lemma_pair_roundtrip(ps[0], s, i);
        let j = i + r0.len();
        assert(!is_space_char(','));
        assert(sp_end(s, j) == j);
        let rr = spec_serialize_pairs(rest);
        assert forall|k: int| 0 <= k < rr.len() implies s[j + 1 + k] == #[trigger] rr[k] by {
            assert(s[i + (r0.len() + 1 + k)] == spec_serialize_pairs(ps)[r0.len() as int + 1 + k]);
        }
        assert(s[j + 1 + rr.len()] == '}');
        lemma_members_roundtrip(rest, s, j + 1);
        assert(spec_members(s, j + 1) == (rest, j + 1 + rr.len()));
        assert(rest.len() >= 1);
        assert(json_wf_pairs(rest));
        assert(wf_key(rest[0].0) && json_wf(rest[0].1));
        if rest.len() == 1 {
            assert(rr == spec_serialize_pair(rest[0]));
            lemma_pair_roundtrip(rest[0], s, j + 1);
        } else {
            let rr0 = spec_serialize_pair(rest[0]);
            assert(rr == rr0 + seq![','] + spec_serialize_pairs(rest.drop_first()));
            assert forall|k: int| 0 <= k < rr0.len() implies s[j + 1 + k] == #[trigger] rr0[k] by {
                assert(s[j + 1 + k] == rr[k]);
            }
            assert(s[j + 1 + rr0.len()] == rr[rr0.len() as int]);
            lemma_pair_roundtrip(rest[0], s, j + 1);
        }
        assert(spec_key_value(s, j + 1) is Some);
        assert(spec_members(s, i) == (seq![(ps[0].0, ps[0].1)] + rest, j + 1 + rr.len()));
        assert(seq![(ps[0].0, ps[0].1)] + rest =~= ps);
        assert(j + 1 + rr.len() == e);
    }
}

/// The JSON round trip: a well-formed document value, rendered back to
/// text, parses to exactly the same value, the whole text consumed.
pub proof fn lemma_json_round_trip(v: JsonValueV)
    requires
        json_wf(v),
        v is Object || v is Array,
    ensures
        spec_parse_json(spec_serialize(v), 0) == Some(
            (v, spec_serialize(v).len() as int),
        ),
{
    let s = spec_serialize(v);
    lemma_serialize_head(v);
    assert(s[0int + 0] == spec_serialize(v)[0]);
    assert(ws_end(s, 0) == 0);
    lemma_value_roundtrip(v, s, 0);
    assert(sp_end(s, s.len() as int) == s.len());
}


/// Scanned string content is well formed.
proof fn lemma_content_wf(s: Seq<char>, i: int)
    ensures
        spec_str_content(s, i) matches Some((c, _)) ==> wf_str(c),
    decreases s.len() - i,
{
    if 0 <= i && i < s.len() && s[i] != '"' {
        if s[i] == '\\' {
            if i + 2 <= s.len() {
                lemma_content_wf(s, i + 2);
                if let Some((t, _)) = spec_str_content(s, i + 2) {
                    let c = seq![s[i], s[i + 1]] + t;
                    assert(c[0] == '\\');
                    assert(c.skip(2) =~= t);
                }
            }
        } else {
            lemma_content_wf(s, i + 1);
            if let Some((t, _)) = spec_str_content(s, i + 1) {
                let c = seq![s[i]] + t;
                assert(c[0] != '"' && c[0] != '\\');
                assert(c.skip(1) =~= t);
            }
        }
    }
}

/// Characters passed over by the identifier scanner are identifier
/// characters.
proof fn lemma_ident_range(s: Seq<char>, i: int, e: int, k: int)
    requires
        0 <= i,
        e == json_ident_end(s, i),
        i <= k < e,
    ensures
        is_json_ident_char(s[k]),
    decreases k - i,
{
    crate::json_parser::lemma_scan_end_bounds(s, i);
    if k > i {
        lemma_ident_range(s, i + 1, e, k);
    }
}

/// Characters passed over by the raw-string scanner are raw characters,
/// so a scanned raw string is well formed.
proof fn lemma_raw_range(s: Seq<char>, i: int, e: int, k: int)
    requires
        0 <= i,
        e == crate::json_parser::raw_end(s, i),
        i <= k < e,
    ensures
        crate::json_parser::is_raw_char(s[k]),
    decreases k - i,
{
    crate::json_parser::lemma_scan_end_bounds(s, i);
    if k > i {
        lemma_raw_range(s, i + 1, e, k);
    }
}

/// A string of raw characters never holds a quote or a backslash, so it
/// is well-formed content.
proof fn lemma_raw_is_wf_str(c: Seq<char>)
    requires
        forall|k: int| 0 <= k < c.len() ==> crate::json_parser::is_raw_char(#[trigger] c[k]),
    ensures
        wf_str(c),
    decreases c.len(),
{
    if c.len() > 0 {
        assert(crate::json_parser::is_raw_char(c[0]));
        assert('"' as u32 == 34 && '\\' as u32 == 92);
        assert(c[0] != '"' && c[0] != '\\');
        assert forall|k: int| 0 <= k < c.skip(1).len() implies crate::json_parser::is_raw_char(
            #[trigger] c.skip(1)[k],
        ) by {
            assert(c.skip(1)[k] == c[k + 1]);
        }
        lemma_raw_is_wf_str(c.skip(1));
    }
}

/// A parsed number is canonical.
proof fn lemma_parsed_number_wf(s: Seq<char>, i: int)
    ensures
        spec_parse_number(s, i) matches Some((n, _)) ==> number_wf(n),
{
    if 0 <= i && i < s.len() {
        let signed = s[i] == '-' || s[i] == '+';
        let i1 = if signed { i + 1 } else { i };
        crate::json_parser::lemma_scan_end_bounds(s, i1);
        let ie = digits_end(s, i1);
        if ie > i1 {
            if ie < s.len() && s[ie] == '.' {
                let fe = digits_end(s, ie + 1);
                crate::json_parser::lemma_scan_end_bounds(s, ie + 1);
                let mant = digit_vals(s, i1, ie) + digit_vals(s, ie + 1, fe);
                assert forall|k: int| 0 <= k < mant.len() implies 0 <= #[trigger] mant[k]
                    <= 9 by {
                    if k < ie - i1 {
                        crate::json_parser::lemma_digits_range(s, i1, ie, i1 + k);
                    } else {
                        crate::json_parser::lemma_digits_range(s, ie + 1, fe, ie + 1 + (k - (ie
                            - i1)));
                    }
                }
                lemma_number_tail_wf(s, mant, -(fe - (ie + 1)), fe);
            } else {
                let mant = digit_vals(s, i1, ie);
                assert forall|k: int| 0 <= k < mant.len() implies 0 <= #[trigger] mant[k]
                    <= 9 by {
                    crate::json_parser::lemma_digits_range(s, i1, ie, i1 + k);
                }
                lemma_number_tail_wf(s, mant, 0, ie);
            }
        } else if i1 < s.len() && s[i1] == '.' && digits_end(s, i1 + 1) > i1 + 1 {
            let fe = digits_end(s, i1 + 1);
            let mant = digit_vals(s, i1 + 1, fe);
            assert forall|k: int| 0 <= k < mant.len() implies 0 <= #[trigger] mant[k] <= 9 by {
                crate::json_parser::lemma_digits_range(s, i1 + 1, fe, i1 + 1 + k);
            }
            lemma_number_tail_wf(s, mant, -(fe - (i1 + 1)), fe);
        }
    }
}

proof fn lemma_number_tail_wf(s: Seq<char>, mant: Seq<u8>, exp0: int, pos: int)
    requires
        digits_ok(mant),
    ensures
        number_wf(crate::json_parser::spec_number_tail(s, true, mant, exp0, pos).0),
        number_wf(crate::json_parser::spec_number_tail(s, false, mant, exp0, pos).0),
{
    if 0 <= pos < s.len() && (s[pos] == 'e' || s[pos] == 'E') {
        let has_sign = pos + 1 < s.len() && (s[pos + 1] == '+' || s[pos + 1] == '-');
        let es = if has_sign { pos + 2 } else { pos + 1 };
        let ee = digits_end(s, es);
        if ee > es {
            let ev = exp_accum(s, es, ee, 0);
            let eneg = pos + 1 < s.len() && s[pos + 1] == '-';
            crate::number::lemma_canon_wf(true, mant, exp0 + if eneg { -ev } else { ev });
            crate::number::lemma_canon_wf(false, mant, exp0 + if eneg { -ev } else { ev });
        } else {
            crate::number::lemma_canon_wf(true, mant, exp0);
            crate::number::lemma_canon_wf(false, mant, exp0);
        }
    } else {
        crate::number::lemma_canon_wf(true, mant, exp0);
        crate::number::lemma_canon_wf(false, mant, exp0);
    }
}

/// Every value the parser produces is well formed, so the round trip
/// holds of all parser output.
pub proof fn lemma_parse_produces_wf(s: Seq<char>, i: int)
    ensures
        spec_json_value(s, i) matches Some((v, _)) ==> json_wf(v),
    decreases s.len() - i, 0int,
{
    let w = ws_end(s, i);
    if i <= w && w < s.len() {
        if s[w] == '{' {
            lemma_members_wf(s, w + 1);
        } else if s[w] == '[' {
            lemma_elems_wf(s, w + 1);
        } else if s[w] == '"' {
            lemma_content_wf(s, w + 1);
        } else if s[w] == '\\' {
            // the three raw-string forms capture only raw characters
            if let Some((t, _)) = crate::json_parser::spec_escaped_r(s, i) {
                lemma_escaped_r_wf(s, i);
            }
        } else {
            lemma_parsed_number_wf(s, w);
        }
    }
}

proof fn lemma_escaped_r_wf(s: Seq<char>, i: int)
    requires
        crate::json_parser::spec_escaped_r(s, i) is Some,
    ensures
        crate::json_parser::spec_escaped_r(s, i) matches Some((t, _)) ==> wf_str(t),
{
    let w = ws_end(s, i);
    if let Some((t, _)) = crate::json_parser::spec_escaped_r(s, i) {
        if w >= i {
            if has_tag(s, w, "\\\""@) && {
                let e = crate::json_parser::raw_end(s, w + 2);
                has_tag(s, e, "\\\""@)
            } {
                let e = crate::json_parser::raw_end(s, w + 2);
                crate::json_parser::lemma_scan_end_bounds(s, w + 2);
                assert forall|k: int| 0 <= k < t.len() implies crate::json_parser::is_raw_char(
                    #[trigger] t[k],
                ) by {
                    assert(t[k] == s[w + 2 + k]);
                    lemma_raw_range(s, w + 2, e, w + 2 + k);
                }
                lemma_raw_is_wf_str(t);
            } else if has_tag(s, w, "\\"@) && {
                let e = crate::json_parser::raw_end(s, w + 1);
                has_tag(s, e, "\\"@)
            } {
                let e = crate::json_parser::raw_end(s, w + 1);
                crate::json_parser::lemma_scan_end_bounds(s, w + 1);
                assert forall|k: int| 0 <= k < t.len() implies crate::json_parser::is_raw_char(
                    #[trigger] t[k],
                ) by {
                    assert(t[k] == s[w + 1 + k]);
                    lemma_raw_range(s, w + 1, e, w + 1 + k);
                }
                lemma_raw_is_wf_str(t);
            } else {
                let e = crate::json_parser::raw_end(s, w + 1);
                crate::json_parser::lemma_scan_end_bounds(s, w + 1);
                assert forall|k: int| 0 <= k < t.len() implies crate::json_parser::is_raw_char(
                    #[trigger] t[k],
                ) by {
                    assert(t[k] == s[w + 1 + k]);
                    lemma_raw_range(s, w + 1, e, w + 1 + k);
                }
                lemma_raw_is_wf_str(t);
            }
        }
    }
}

proof fn lemma_keyvalue_wf(s: Seq<char>, i: int)
    ensures
        spec_key_value(s, i) matches Some((k, v, _)) ==> wf_key(k) && json_wf(v),
    decreases s.len() - i, 0int,
{
    if let Some((key, j)) = spec_escaped_l(s, i) {
        let w = ws_end(s, i);
        if w >= i {
            // each alternative captures an identifier scan
            if has_tag(s, w, "\\\""@) && {
                let e2 = json_ident_end(s, w + 2);
                has_tag(s, e2, "\\\""@)
            } {
                let e2 = json_ident_end(s, w + 2);
                crate::json_parser::lemma_scan_end_bounds(s, w + 2);
                assert forall|k: int| 0 <= k < key.len() implies is_json_ident_char(
                    #[trigger] key[k],
                ) by {
                    assert(key[k] == s[w + 2 + k]);
                    lemma_ident_range(s, w + 2, e2, w + 2 + k);
                }
            } else if has_tag(s, w, "\\"@) && {
                let e2 = json_ident_end(s, w + 1);
                has_tag(s, e2, "\\"@)
            } {
                let e2 = json_ident_end(s, w + 1);
                crate::json_parser::lemma_scan_end_bounds(s, w + 1);
                assert forall|k: int| 0 <= k < key.len() implies is_json_ident_char(
                    #[trigger] key[k],
                ) by {
                    assert(key[k] == s[w + 1 + k]);
                    lemma_ident_range(s, w + 1, e2, w + 1 + k);
                }
            } else {
                let e2 = json_ident_end(s, w + 1);
                crate::json_parser::lemma_scan_end_bounds(s, w + 1);
                assert forall|k: int| 0 <= k < key.len() implies is_json_ident_char(
                    #[trigger] key[k],
                ) by {
                    assert(key[k] == s[w + 1 + k]);
                    lemma_ident_range(s, w + 1, e2, w + 1 + k);
                }
            }
        }
        let c = sp_end(s, j);
        if i < j <= s.len() && j <= c && c < s.len() && s[c] == ':' {
            lemma_parse_produces_wf(s, c + 1);
        }
    }
}

proof fn lemma_members_wf(s: Seq<char>, i: int)
    ensures
        json_wf_pairs(spec_members(s, i).0),
    decreases s.len() - i, 1int,
{
    match spec_key_value(s, i) {
        None => {
            assert(spec_members(s, i).0 =~= Seq::<(Seq<char>, JsonValueV)>::empty());
        },
        Some((k, v, j)) => {
            lemma_keyvalue_wf(s, i);
            let sp = sp_end(s, j);
            if i < j <= s.len() && j <= sp && sp < s.len() && s[sp] == ',' && spec_key_value(
                s,
                sp + 1,
            ) is Some {
                lemma_members_wf(s, sp + 1);
                let (rest, _) = spec_members(s, sp + 1);
                let whole = seq![(k, v)] + rest;
                assert(spec_members(s, i).0 == whole);
                assert(whole[0] == (k, v));
                assert(whole.drop_first() =~= rest);
                assert(json_wf_pairs(whole.drop_first()));
                assert(json_wf_pairs(whole));
            } else {
                let whole = seq![(k, v)];
                assert(spec_members(s, i).0 == whole);
                assert(whole[0] == (k, v));
                assert(whole.drop_first() =~= Seq::<(Seq<char>, JsonValueV)>::empty());
                assert(json_wf_pairs(Seq::<(Seq<char>, JsonValueV)>::empty()));
                assert(json_wf_pairs(whole));
            }
        },
    }
}

proof fn lemma_elems_wf(s: Seq<char>, i: int)
    ensures
        json_wf_elems(spec_elems(s, i).0),
    decreases s.len() - i, 1int,
{
    match spec_json_value(s, i) {
        None => {
            assert(spec_elems(s, i).0 =~= Seq::<JsonValueV>::empty());
        },
        Some((v, j)) => {
            lemma_parse_produces_wf(s, i);
            let sp = sp_end(s, j);
            if i < j <= s.len() && j <= sp && sp < s.len() && s[sp] == ',' && spec_json_value(
                s,
                sp + 1,
            ) is Some {
                lemma_elems_wf(s, sp + 1);
                let (rest, _) = spec_elems(s, sp + 1);
                let whole = seq![v] + rest;
                assert(spec_elems(s, i).0 == whole);
                assert(whole[0] == v);
                assert(whole.drop_first() =~= rest);
                assert(json_wf_elems(whole.drop_first()));
                assert(json_wf_elems(whole));
            } else {
                let whole = seq![v];
                assert(spec_elems(s, i).0 == whole);
                assert(whole[0] == v);
                assert(whole.drop_first() =~= Seq::<JsonValueV>::empty());
                assert(json_wf_elems(Seq::<JsonValueV>::empty()));
                assert(json_wf_elems(whole));
            }
        },
    }
}

/// The round trip for parsed documents: whatever `parse_json` produced,
/// rendering it and parsing again gives back the same value.
pub proof fn lemma_parsed_document_round_trip(s: Seq<char>, i: int)
    ensures
        spec_parse_json(s, i) matches Some((v, _)) ==> spec_parse_json(
            spec_serialize(v),
            0,
        ) == Some((v, spec_serialize(v).len() as int)),
{
    if let Some((v, _)) = spec_parse_json(s, i) {
        let w = ws_end(s, i);
        assert(i <= w && w < s.len() && (s[w] == '{' || s[w] == '['));
        lemma_parse_produces_wf(s, i);
        if s[w] == '{' {
            lemma_members_wf(s, w + 1);
        } else {
            lemma_elems_wf(s, w + 1);
        }
        assert(v is Object || v is Array);
        lemma_json_round_trip(v);
    }
}


/// The attribute shapes whose rendered JSON reproduces them exactly:
/// strings free of apostrophes with scannable content, inline blocks
/// with identifier keys, and arrays of such values.  Booleans and
/// numbers render quoted and come back as strings, so they are outside
/// this class.
pub open spec fn renderable_at(a: AttributeTypeV) -> bool
    decreases a,
{
    match a {
        AttributeTypeV::Str(s) => wf_str(s) && forall|k: int| 0 <= k < s.len() ==> s[k] != '\'',
        AttributeTypeV::Block(attrs) => renderable_attrs(attrs),
        AttributeTypeV::Array(vs) => renderable_elems(vs),
        _ => false,
    }
}

pub open spec fn renderable_attrs(attrs: Seq<crate::model::AttributeV>) -> bool
    decreases attrs,
{
    if attrs.len() == 0 {
        true
    } else {
        wf_key(attrs[0].key) && renderable_at(attrs[0].value) && renderable_attrs(
            attrs.drop_first(),
        )
    }
}

pub open spec fn renderable_elems(vs: Seq<AttributeTypeV>) -> bool
    decreases vs,
{
    if vs.len() == 0 {
        true
    } else {
        renderable_at(vs[0]) && renderable_elems(vs.drop_first())
    }
}

/// The JSON tree a renderable attribute value denotes.
pub open spec fn at_to_json(a: AttributeTypeV) -> JsonValueV
    decreases a,
{
    match a {
        AttributeTypeV::Str(s) => JsonValueV::Str(s),
        AttributeTypeV::Block(attrs) => JsonValueV::Object(attrs_to_json(attrs)),
        AttributeTypeV::Array(vs) => JsonValueV::Array(elems_to_json(vs)),
        _ => JsonValueV::Null,
    }
}

pub open spec fn attrs_to_json(attrs: Seq<crate::model::AttributeV>) -> Seq<
    (Seq<char>, JsonValueV),
>
    decreases attrs,
{
    if attrs.len() == 0 {
        Seq::empty()
    } else {
        seq![(attrs[0].key, at_to_json(attrs[0].value))] + attrs_to_json(attrs.drop_first())
    }
}

pub open spec fn elems_to_json(vs: Seq<AttributeTypeV>) -> Seq<JsonValueV>
    decreases vs,
{
    if vs.len() == 0 {
        Seq::empty()
    } else {
        seq![at_to_json(vs[0])] + elems_to_json(vs.drop_first())
    }
}

/// Replacing a pattern that does not occur changes nothing.
proof fn lemma_replace_absent(s: Seq<char>, pat: Seq<char>, rep: Seq<char>)
    requires
        pat.len() > 0,
        forall|i: int| !crate::text::has_sub_at(s, pat, i),
    ensures
        crate::text::spec_replace(s, pat, rep) == s,
    decreases s.len(),
{
    if s.len() >= pat.len() {
        if s.subrange(0, pat.len() as int) == pat {
            assert(crate::text::has_sub_at(s, pat, 0));
            assert(false);
        }
        assert forall|i: int| !crate::text::has_sub_at(s.drop_first(), pat, i) by {
            if crate::text::has_sub_at(s.drop_first(), pat, i) {
                assert(s.drop_first().subrange(i, i + pat.len()) =~= s.subrange(
                    i + 1,
                    i + 1 + pat.len(),
                ));
                assert(crate::text::has_sub_at(s, pat, i + 1));
            }
        }
        lemma_replace_absent(s.drop_first(), pat, rep);
        assert(crate::text::spec_replace(s, pat, rep) =~= s);
    }
}

/// On renderable values the diagram renderer writes exactly the JSON
/// serialization of the value's JSON tree.
proof fn lemma_visit_eq_serialize(a: AttributeTypeV)
    requires
        renderable_at(a),
    ensures
        crate::serializer::spec_visit_at(a) == spec_serialize(at_to_json(a)),
        json_wf(at_to_json(a)),
    decreases a, 1int,
{
    reveal_strlit("'");
    match a {
        AttributeTypeV::Str(s) => {
            assert("'"@ =~= seq!['\'']);
            assert forall|i: int| !crate::text::has_sub_at(s, "'"@, i) by {
                if crate::text::has_sub_at(s, "'"@, i) {
                    assert(s.subrange(i, i + 1)[0] == s[i]);
                    assert(s[i] == '\'');
                }
            }
            lemma_replace_absent(s, "'"@, Seq::empty());
            assert(crate::serializer::spec_visit_str(s) =~= seq!['"'] + s + seq!['"']);
        },
        AttributeTypeV::Block(attrs) => {
            lemma_visit_attrs_eq(attrs);
            assert(crate::serializer::spec_visit_at(a) =~= seq!['{'] + spec_serialize_pairs(
                attrs_to_json(attrs),
            ) + seq!['}']);
        },
        AttributeTypeV::Array(vs) => {
            lemma_visit_elems_eq(vs);
            assert(crate::serializer::spec_visit_at(a) =~= seq!['['] + spec_serialize_elems(
                elems_to_json(vs),
            ) + seq![']']);
        },
        _ => {
        },
    }
}

proof fn lemma_visit_attrs_eq(attrs: Seq<crate::model::AttributeV>)
    requires
        renderable_attrs(attrs),
    ensures
        crate::serializer::spec_visit_attrs(attrs) == spec_serialize_pairs(attrs_to_json(attrs)),
        json_wf_pairs(attrs_to_json(attrs)),
    decreases attrs, 2int,
{
    if attrs.len() == 0 {
        assert(attrs_to_json(attrs) =~= Seq::<(Seq<char>, JsonValueV)>::empty());
    } else {
        lemma_visit_eq_serialize(attrs[0].value);
        lemma_visit_attrs_eq(attrs.drop_first());
        let m = attrs_to_json(attrs);
        assert(m[0] == (attrs[0].key, at_to_json(attrs[0].value)));
        assert(m.drop_first() =~= attrs_to_json(attrs.drop_first()));
        assert(m.len() == attrs.len()) by {
            lemma_attrs_to_json_len(attrs);
        }
        assert(crate::serializer::spec_visit_attr(attrs[0]) =~= spec_serialize_pair(m[0]));
        if attrs.len() == 1 {
            assert(crate::serializer::spec_visit_attrs(attrs) == crate::serializer::spec_visit_attr(
                attrs[0],
            ));
            assert(spec_serialize_pairs(m) == spec_serialize_pair(m[0]));
        } else {
            assert(crate::serializer::spec_visit_attrs(attrs)
                =~= crate::serializer::spec_visit_attr(attrs[0]) + seq![',']
                + crate::serializer::spec_visit_attrs(attrs.drop_first()));
            assert(spec_serialize_pairs(m) =~= spec_serialize_pair(m[0]) + seq![',']
                + spec_serialize_pairs(m.drop_first()));
        }
        assert(json_wf_pairs(m));
    }
}

proof fn lemma_visit_elems_eq(vs: Seq<AttributeTypeV>)
    requires
        renderable_elems(vs),
    ensures
        crate::serializer::spec_visit_elems(vs) == spec_serialize_elems(elems_to_json(vs)),
        json_wf_elems(elems_to_json(vs)),
    decreases vs, 2int,
{
    if vs.len() == 0 {
        assert(elems_to_json(vs) =~= Seq::<JsonValueV>::empty());
    } else {
        lemma_visit_eq_serialize(vs[0]);
        lemma_visit_elems_eq(vs.drop_first());
        let m = elems_to_json(vs);
        assert(m[0] == at_to_json(vs[0]));
        assert(m.drop_first() =~= elems_to_json(vs.drop_first()));
        assert(m.len() == vs.len()) by {
            lemma_elems_to_json_len(vs);
        }
        if vs.len() == 1 {
            assert(crate::serializer::spec_visit_elems(vs) == crate::serializer::spec_visit_at(
                vs[0],
            ));
            assert(spec_serialize_elems(m) == spec_serialize(m[0]));
        } else {
            assert(crate::serializer::spec_visit_elems(vs) =~= crate::serializer::spec_visit_at(
                vs[0],
            ) + seq![','] + crate::serializer::spec_visit_elems(vs.drop_first()));
            assert(spec_serialize_elems(m) =~= spec_serialize(m[0]) + seq![',']
                + spec_serialize_elems(m.drop_first()));
        }
        assert(json_wf_elems(m));
    }
}

proof fn lemma_attrs_to_json_len(attrs: Seq<crate::model::AttributeV>)
    ensures
        attrs_to_json(attrs).len() == attrs.len(),
    decreases attrs,
{
    if attrs.len() > 0 {
        lemma_attrs_to_json_len(attrs.drop_first());
    }
}

proof fn lemma_elems_to_json_len(vs: Seq<AttributeTypeV>)
    ensures
        elems_to_json(vs).len() == vs.len(),
    decreases vs,
{
    if vs.len() > 0 {
        lemma_elems_to_json_len(vs.drop_first());
    }
}

/// Flattening a renderable value's JSON tree gives back the value.
proof fn lemma_convert_back(a: AttributeTypeV)
    requires
        renderable_at(a),
    ensures
        crate::model::spec_convert(at_to_json(a)) == a,
    decreases a, 1int,
{
    match a {
        AttributeTypeV::Block(attrs) => {
            lemma_convert_back_attrs(attrs);
        },
        AttributeTypeV::Array(vs) => {
            lemma_convert_back_elems(vs);
        },
        _ => {
        },
    }
}

proof fn lemma_convert_back_attrs(attrs: Seq<crate::model::AttributeV>)
    requires
        renderable_attrs(attrs),
    ensures
        crate::model::spec_convert_pairs(attrs_to_json(attrs)) == attrs,
    decreases attrs, 2int,
{
    if attrs.len() == 0 {
        assert(attrs_to_json(attrs) =~= Seq::<(Seq<char>, JsonValueV)>::empty());
        assert(crate::model::spec_convert_pairs(attrs_to_json(attrs)) =~= attrs);
    } else {
        lemma_convert_back(attrs[0].value);
        lemma_convert_back_attrs(attrs.drop_first());
        let m = attrs_to_json(attrs);
        assert(m[0] == (attrs[0].key, at_to_json(attrs[0].value)));
        assert(m.drop_first() =~= attrs_to_json(attrs.drop_first()));
        assert(crate::model::spec_convert_pairs(m) =~= attrs);
    }
}

proof fn lemma_convert_back_elems(vs: Seq<AttributeTypeV>)
    requires
        renderable_elems(vs),
    ensures
        crate::model::spec_convert_seq(elems_to_json(vs)) == vs,
    decreases vs, 2int,
{
    if vs.len() == 0 {
        assert(elems_to_json(vs) =~= Seq::<JsonValueV>::empty());
        assert(crate::model::spec_convert_seq(elems_to_json(vs)) =~= vs);
    } else {
        lemma_convert_back(vs[0]);
        lemma_convert_back_elems(vs.drop_first());
        let m = elems_to_json(vs);
        assert(m[0] == at_to_json(vs[0]));
        assert(m.drop_first() =~= elems_to_json(vs.drop_first()));
        assert(crate::model::spec_convert_seq(m) =~= vs);
    }
}

/// The render round trip for attribute values: a renderable value's
/// rendered JSON parses back to its JSON tree, and flattening that tree
/// reproduces the value verbatim.  Booleans and numbers render quoted,
/// so they come back as strings and stand outside this law.
pub proof fn lemma_attribute_render_roundtrip(a: AttributeTypeV)
    requires
        renderable_at(a),
    ensures
        spec_json_value(crate::serializer::spec_visit_at(a), 0) == Some(
            (at_to_json(a), crate::serializer::spec_visit_at(a).len() as int),
        ),
        crate::model::spec_convert(at_to_json(a)) == a,
{
    lemma_visit_eq_serialize(a);
    lemma_convert_back(a);
    let txt = spec_serialize(at_to_json(a));
    lemma_value_roundtrip(at_to_json(a), txt, 0);
}


/// A string of identifier characters is valid string content: the
/// identifier set holds neither quotes nor backslashes.
proof fn lemma_ident_is_wf_str(c: Seq<char>)
    requires
        wf_key(c),
    ensures
        wf_str(c),
    decreases c.len(),
{
    if c.len() > 0 {
        assert(is_json_ident_char(c[0]));
        assert('"' as u32 == 34 && '\\' as u32 == 92);
        assert(c[0] != '"' && c[0] != '\\');
        assert forall|k: int| 0 <= k < c.skip(1).len() implies is_json_ident_char(
            #[trigger] c.skip(1)[k],
        ) by {
            assert(c.skip(1)[k] == c[k + 1]);
        }
        lemma_ident_is_wf_str(c.skip(1));
    }
}

/// The three fixed keys of a rendered block are identifier strings, and
/// distinct from one another.
proof fn lemma_fixed_keys_wf()
    ensures
        wf_key("type"@),
        wf_key("name"@),
        wf_key("body"@),
        "type"@ != "name"@,
        "type"@ != "body"@,
        "name"@ != "body"@,
{
    reveal_strlit("type");
    reveal_strlit("name");
    reveal_strlit("body");
    assert(wf_key("type"@)) by {
        assert forall|i: int| 0 <= i < "type"@.len() implies is_json_ident_char(
            #[trigger] "type"@[i],
        ) by {
            assert("type"@ =~= seq!['t', 'y', 'p', 'e']);
        }
    }
    assert(wf_key("name"@)) by {
        assert forall|i: int| 0 <= i < "name"@.len() implies is_json_ident_char(
            #[trigger] "name"@[i],
        ) by {
            assert("name"@ =~= seq!['n', 'a', 'm', 'e']);
        }
    }
    assert(wf_key("body"@)) by {
        assert forall|i: int| 0 <= i < "body"@.len() implies is_json_ident_char(
            #[trigger] "body"@[i],
        ) by {
            assert("body"@ =~= seq!['b', 'o', 'd', 'y']);
        }
    }
    assert("type"@[0] == 't' && "name"@[0] == 'n' && "body"@[0] == 'b');
}

/// The rendered header of a two-identifier block spells exactly the
/// serialized three-pair object `type`/`name`/`body`.
#[verifier::rlimit(100)]
#[verifier::spinoff_prover]
proof fn lemma_block_header_eq(
    bt: Seq<char>,
    f: Seq<char>,
    sc: Seq<char>,
    attrs: Seq<crate::model::AttributeV>,
)
    requires
        renderable_attrs(attrs),
    ensures
        crate::serializer::spec_visit_tfblock(
            TerraformBlockV::WithTwoIdentifiers {
                block_type: bt,
                first_identifier: f,
                second_identifier: sc,
                attributes: attrs,
            },
        ) == spec_serialize(
            JsonValueV::Object(
                seq![
                    ("type"@, JsonValueV::Str(f)),
                    ("name"@, JsonValueV::Str(sc)),
                    ("body"@, JsonValueV::Object(attrs_to_json(attrs))),
                ],
            ),
        ),
{
    reveal_strlit("type");
    reveal_strlit("name");
    reveal_strlit("body");
    reveal_strlit("{\"type\":\"");
    reveal_strlit("\",\"name\":\"");
    reveal_strlit("\",\"body\":{");
    reveal_strlit("}}");
    let b = TerraformBlockV::WithTwoIdentifiers {
        block_type: bt,
        first_identifier: f,
        second_identifier: sc,
        attributes: attrs,
    };
    let body = JsonValueV::Object(attrs_to_json(attrs));
    let p0 = ("type"@, JsonValueV::Str(f));
    let p1 = ("name"@, JsonValueV::Str(sc));
    let p2 = ("body"@, body);
    let ps3 = seq![p0, p1, p2];
    let obj = JsonValueV::Object(ps3);
    lemma_visit_attrs_eq(attrs);
    assert(ps3.drop_first() =~= seq![p1, p2]);
    assert(seq![p1, p2].drop_first() =~= seq![p2]);
    assert(spec_serialize_pairs(seq![p2]) == spec_serialize_pair(p2));
    assert(spec_serialize_pairs(seq![p1, p2]) == spec_serialize_pair(p1) + seq![',']
        + spec_serialize_pair(p2));
    assert(spec_serialize_pairs(ps3) == spec_serialize_pair(p0) + seq![','] + (
    spec_serialize_pair(p1) + seq![','] + spec_serialize_pair(p2)));
    assert(spec_serialize(obj) == seq!['{'] + spec_serialize_pairs(ps3) + seq!['}']);
    assert(spec_serialize_pair(p0) == seq!['"'] + "type"@ + seq!['"', ':'] + (seq!['"'] + f
        + seq!['"']));
    assert(spec_serialize_pair(p1) == seq!['"'] + "name"@ + seq!['"', ':'] + (seq!['"'] + sc
        + seq!['"']));
    assert(spec_serialize_pair(p2) == seq!['"'] + "body"@ + seq!['"', ':'] + (seq!['{']
        + spec_serialize_pairs(attrs_to_json(attrs)) + seq!['}']));
    assert(crate::serializer::spec_visit_tfblock(b) == "{\"type\":\""@ + f
        + "\",\"name\":\""@ + sc + "\",\"body\":{"@ + crate::serializer::spec_visit_attrs(
        attrs,
    ) + "}}"@);
    assert(crate::serializer::spec_visit_tfblock(b) =~= spec_serialize(obj));
}

/// A rendered block's text parses back to its three-pair object.
#[verifier::rlimit(100)]
#[verifier::spinoff_prover]
proof fn lemma_block_parses(
    bt: Seq<char>,
    f: Seq<char>,
    sc: Seq<char>,
    attrs: Seq<crate::model::AttributeV>,
)
    requires
        renderable_attrs(attrs),
        wf_key(f),
        wf_key(sc),
    ensures
        ({
            let obj = JsonValueV::Object(
                seq![
                    ("type"@, JsonValueV::Str(f)),
                    ("name"@, JsonValueV::Str(sc)),
                    ("body"@, JsonValueV::Object(attrs_to_json(attrs))),
                ],
            );
            spec_parse_json(
                crate::serializer::spec_visit_tfblock(
                    TerraformBlockV::WithTwoIdentifiers {
                        block_type: bt,
                        first_identifier: f,
                        second_identifier: sc,
                        attributes: attrs,
                    },
                ),
                0,
            ) == Some((obj, spec_serialize(obj).len() as int))
        }),
{
    let body = JsonValueV::Object(attrs_to_json(attrs));
    let p0 = ("type"@, JsonValueV::Str(f));
    let p1 = ("name"@, JsonValueV::Str(sc));
    let p2 = ("body"@, body);
    let ps3 = seq![p0, p1, p2];
    let obj = JsonValueV::Object(ps3);
    lemma_visit_attrs_eq(attrs);
    lemma_block_header_eq(bt, f, sc, attrs);
    lemma_fixed_keys_wf();
    lemma_ident_is_wf_str(f);
    lemma_ident_is_wf_str(sc);
    assert(json_wf_pairs(ps3)) by {
        assert(json_wf(JsonValueV::Str(f)));
        assert(json_wf(JsonValueV::Str(sc)));
        assert(json_wf(body));
        assert(seq![p2][0] == p2);
        assert(seq![p2].drop_first() =~= Seq::<(Seq<char>, JsonValueV)>::empty());
        assert(json_wf_pairs(Seq::<(Seq<char>, JsonValueV)>::empty()));
        assert(json_wf_pairs(seq![p2]));
        assert(seq![p1, p2][0] == p1);
        assert(seq![p1, p2].drop_first() =~= seq![p2]);
        assert(json_wf_pairs(seq![p1, p2]));
        assert(ps3[0] == p0);
        assert(ps3.drop_first() =~= seq![p1, p2]);
    }
    lemma_json_round_trip(obj);
}

/// The block round trip: a two-identifier block with renderable
/// attributes and identifier-shaped names, rendered to its JSON form and
/// read back, reproduces its identifiers and its key/value pairs
/// verbatim; the block type comes back as the fixed `resource`.
#[verifier::rlimit(100)]
#[verifier::spinoff_prover]
pub proof fn lemma_block_render_roundtrip(
    bt: Seq<char>,
    f: Seq<char>,
    sc: Seq<char>,
    attrs: Seq<crate::model::AttributeV>,
)
    requires
        renderable_attrs(attrs),
        wf_key(f),
        wf_key(sc),
    ensures
        crate::json_to_model::spec_block_from_json(
            crate::serializer::spec_visit_tfblock(
                TerraformBlockV::WithTwoIdentifiers {
                    block_type: bt,
                    first_identifier: f,
                    second_identifier: sc,
                    attributes: attrs,
                },
            ),
        ) == (TerraformBlockV::WithTwoIdentifiers {
            block_type: "resource"@,
            first_identifier: f,
            second_identifier: sc,
            attributes: attrs,
        }),
{
    let body = JsonValueV::Object(attrs_to_json(attrs));
    let p0 = ("type"@, JsonValueV::Str(f));
    let p1 = ("name"@, JsonValueV::Str(sc));
    let p2 = ("body"@, body);
    let ps3 = seq![p0, p1, p2];
    lemma_block_parses(bt, f, sc, attrs);
    lemma_fixed_keys_wf();
    lemma_convert_back_attrs(attrs);
    assert(ps3.drop_first() =~= seq![p1, p2]);
    assert(seq![p1, p2].drop_first() =~= seq![p2]);
    assert(crate::json_to_model::spec_first_val(ps3, "type"@) == Some(JsonValueV::Str(f)));
    assert(crate::json_to_model::spec_first_val(seq![p2], "body"@) == Some(body));
    assert(crate::json_to_model::spec_first_val(seq![p1, p2], "name"@) == Some(
        JsonValueV::Str(sc),
    ));
    assert(crate::json_to_model::spec_first_val(seq![p1, p2], "body"@)
        == crate::json_to_model::spec_first_val(seq![p2], "body"@));
    assert(crate::json_to_model::spec_first_val(ps3, "name"@)
        == crate::json_to_model::spec_first_val(seq![p1, p2], "name"@));
    assert(crate::json_to_model::spec_first_val(ps3, "body"@)
        == crate::json_to_model::spec_first_val(seq![p1, p2], "body"@));
}

} // verus!
