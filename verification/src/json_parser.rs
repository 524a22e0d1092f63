use vstd::prelude::*;

use crate::model::{jv_pairs_view, jv_seq_view, jv_view, JsonValue, JsonValueV};
use crate::number::{spec_canon, Number, NumberV};
use crate::text::{
    alnum_char, chars_to_string, check_tag, digit_char, has_tag, is_alnum_char, is_digit_char,
    skip_sp, skip_ws, sp_end, str_to_chars, ws_end,
};

verus! {

broadcast use vstd::std_specs::vec::group_vec_axioms;

/// Content of a quoted string, read from just after the opening quote.
/// A backslash keeps itself and the following character verbatim, so an
/// escaped quote does not close the string.  Returns the content and the
/// position after the closing quote.
pub open spec fn spec_str_content(s: Seq<char>, i: int) -> Option<(Seq<char>, int)>
    decreases s.len() - i,
{
    if i < 0 || i >= s.len() {
        None
    } else if s[i] == '"' {
        Some((Seq::empty(), i + 1))
    } else if s[i] == '\\' {
        if i + 2 <= s.len() {
            match spec_str_content(s, i + 2) {
                Some((t, j)) => Some((seq![s[i], s[i + 1]] + t, j)),
                None => None,
            }
        } else {
            None
        }
    } else {
        match spec_str_content(s, i + 1) {
            Some((t, j)) => Some((seq![s[i]] + t, j)),
            None => None,
        }
    }
}

pub proof fn lemma_str_content_bounds(s: Seq<char>, i: int)
    requires
        0 <= i <= s.len(),
    ensures
        spec_str_content(s, i) matches Some((t, j)) ==> i < j <= s.len(),
    decreases s.len() - i,
{
    if i < s.len() && s[i] != '"' {
        if s[i] == '\\' {
            if i + 2 <= s.len() {
                lemma_str_content_bounds(s, i + 2);
            }
        } else {
            lemma_str_content_bounds(s, i + 1);
        }
    }
}

/// Read quoted-string content starting after the opening quote.
pub fn str_content(s: &Vec<char>, i: usize) -> (r: Option<(Vec<char>, usize)>)
    requires
        i <= s@.len(),
    ensures
        match (r, spec_str_content(s@, i as int)) {
            (Some((t, j)), Some((st, sj))) => t@ == st && j == sj && i < j <= s@.len(),
            (None, None) => true,
            _ => false,
        },
    decreases s@.len() - i,
{
    proof {
        lemma_str_content_bounds(s@, i as int);
    }
    if i >= s.len() {
        return None;
    }
    let c = s[i];
    if c == '"' {
        return Some((Vec::new(), i + 1));
    }
    if c == '\\' {
        if s.len() - i >= 2 {
            match str_content(s, i + 2) {
                Some((t, j)) => {
                    let mut out: Vec<char> = Vec::new();
                    out.push(c);
                    out.push(s[i + 1]);
                    let mut k: usize = 0;
                    let n = t.len();
                    while k < n
                        invariant
                            k <= n,
                            n == t@.len(),
                            out@ == seq![s@[i as int], s@[i + 1]] + t@.subrange(0, k as int),
                        decreases n - k,
                    {
                        out.push(t[k]);
                        k = k + 1;
                    }
                    proof {
                        assert(out@ =~= seq![s@[i as int], s@[i + 1]] + t@);
                    }
                    Some((out, j))
                },
                None => None,
            }
        } else {
            None
        }
    } else {
        match str_content(s, i + 1) {
            Some((t, j)) => {
                let mut out: Vec<char> = Vec::new();
                out.push(c);
                let mut k: usize = 0;
                let n = t.len();
                while k < n
                    invariant
                        k <= n,
                        n == t@.len(),
                        out@ == seq![s@[i as int]] + t@.subrange(0, k as int),
                    decreases n - k,
                {
                    out.push(t[k]);
                    k = k + 1;
                }
                proof {
                    assert(out@ =~= seq![s@[i as int]] + t@);
                }
                Some((out, j))
            },
            None => None,
        }
    }
}

/// A quoted string: `"` content `"`.
pub open spec fn spec_quoted(s: Seq<char>, i: int) -> Option<(Seq<char>, int)> {
    if 0 <= i < s.len() && s[i] == '"' {
        spec_str_content(s, i + 1)
    } else {
        None
    }
}

pub fn quoted(s: &Vec<char>, i: usize) -> (r: Option<(String, usize)>)
    requires
        i <= s@.len(),
    ensures
        match (r, spec_quoted(s@, i as int)) {
            (Some((t, j)), Some((st, sj))) => t@ == st && j == sj && i < j <= s@.len(),
            (None, None) => true,
            _ => false,
        },
{
    if i < s.len() && s[i] == '"' {
        match str_content(s, i + 1) {
            Some((t, j)) => Some((chars_to_string(&t), j)),
            None => None,
        }
    } else {
        None
    }
}

/// Characters allowed in a JSON object key.
pub open spec fn is_json_ident_char(c: char) -> bool {
    is_alnum_char(c) || c == '_' || c == '-' || c == ':' || c == '/'
}

pub fn json_ident_char(c: char) -> (r: bool)
    ensures
        r == is_json_ident_char(c),
{
    alnum_char(c) || c == '_' || c == '-' || c == ':' || c == '/'
}

pub open spec fn json_ident_end(s: Seq<char>, i: int) -> int
    decreases s.len() - i,
{
    if 0 <= i < s.len() && is_json_ident_char(s[i]) {
        json_ident_end(s, i + 1)
    } else {
        i
    }
}

/// Characters allowed in a backslash-escaped raw string value.
pub open spec fn is_raw_char(c: char) -> bool {
    is_alnum_char(c) || c == ':' || c == '.' || c == '_' || c == '$' || c == '{' || c == '}'
        || c == ' ' || c == '/' || c == '#' || c == '*' || c == '-'
}

pub fn raw_char(c: char) -> (r: bool)
    ensures
        r == is_raw_char(c),
{
    alnum_char(c) || c == ':' || c == '.' || c == '_' || c == '$' || c == '{' || c == '}' || c
        == ' ' || c == '/' || c == '#' || c == '*' || c == '-'
}

pub open spec fn raw_end(s: Seq<char>, i: int) -> int
    decreases s.len() - i,
{
    if 0 <= i < s.len() && is_raw_char(s[i]) {
        raw_end(s, i + 1)
    } else {
        i
    }
}

pub proof fn lemma_scan_end_bounds(s: Seq<char>, i: int)
    requires
        0 <= i <= s.len(),
    ensures
        i <= json_ident_end(s, i) <= s.len(),
        i <= raw_end(s, i) <= s.len(),
        i <= digits_end(s, i) <= s.len(),
    decreases s.len() - i,
{
    if i < s.len() {
        lemma_scan_end_bounds(s, i + 1);
    }
}

/// Scan identifier characters from `i`; returns the end position.
pub fn scan_json_ident(s: &Vec<char>, i: usize) -> (r: usize)
    requires
        i <= s@.len(),
    ensures
        r == json_ident_end(s@, i as int),
        i <= r <= s@.len(),
    decreases s@.len() - i,
{
    if i < s.len() && json_ident_char(s[i]) {
        scan_json_ident(s, i + 1)
    } else {
        i
    }
}

pub fn scan_raw(s: &Vec<char>, i: usize) -> (r: usize)
    requires
        i <= s@.len(),
    ensures
        r == raw_end(s@, i as int),
        i <= r <= s@.len(),
    decreases s@.len() - i,
{
    if i < s.len() && raw_char(s[i]) {
        scan_raw(s, i + 1)
    } else {
        i
    }
}

/// Copy `s[from..to]` into a fresh string.
pub fn copy_range(s: &Vec<char>, from: usize, to: usize) -> (r: String)
    requires
        from <= to <= s@.len(),
    ensures
        r@ == s@.subrange(from as int, to as int),
{
    let mut out: Vec<char> = Vec::new();
    let mut k: usize = from;
    while k < to
        invariant
            from <= k <= to <= s@.len(),
            out@ == s@.subrange(from as int, k as int),
        decreases to - k,
    {
        out.push(s[k]);
        k = k + 1;
    }
    proof {
        assert(out@ =~= s@.subrange(from as int, to as int));
    }
    chars_to_string(&out)
}

pub open spec fn digits_end(s: Seq<char>, i: int) -> int
    decreases s.len() - i,
{
    if 0 <= i < s.len() && is_digit_char(s[i]) {
        digits_end(s, i + 1)
    } else {
        i
    }
}

pub fn scan_digits(s: &Vec<char>, i: usize) -> (r: usize)
    requires
        i <= s@.len(),
    ensures
        r == digits_end(s@, i as int),
        i <= r <= s@.len(),
    decreases s@.len() - i,
{
    if i < s.len() && digit_char(s[i]) {
        scan_digits(s, i + 1)
    } else {
        i
    }
}

/// The digit values of `s[i..j]`.
pub open spec fn digit_vals(s: Seq<char>, i: int, j: int) -> Seq<u8> {
    Seq::new(
        if j >= i {
            (j - i) as nat
        } else {
            0
        },
        |k: int| ((s[i + k] as u32) - 48) as u8,
    )
}

/// Push the digit values of `s[i..j]` onto `out`.
fn collect_digits(s: &Vec<char>, from: usize, to: usize, out: &mut Vec<u8>)
    requires
        from <= to <= s@.len(),
        forall|k: int| from <= k < to ==> is_digit_char(s@[k]),
    ensures
        final(out)@ == old(out)@ + digit_vals(s@, from as int, to as int),
{
    let mut k: usize = from;
    while k < to
        invariant
            from <= k <= to <= s@.len(),
            forall|m: int| from <= m < to ==> is_digit_char(s@[m]),
            out@ == old(out)@ + digit_vals(s@, from as int, k as int),
        decreases to - k,
    {
        let c = s[k];
        let d: u8 = ((c as u32) - 48) as u8;
        out.push(d);
        proof {
            assert(out@ =~= old(out)@ + digit_vals(s@, from as int, k + 1));
        }
        k = k + 1;
    }
}

/// Exponent digits folded into a value, capped so huge exponents stay
/// representable; the cap is far beyond any distinguishable magnitude.
pub open spec fn exp_accum(s: Seq<char>, i: int, j: int, acc: int) -> int
    decreases j - i,
{
    if i < j {
        exp_accum(
            s,
            i + 1,
            j,
            if acc >= 1000000000000000 {
                acc
            } else {
                acc * 10 + ((s[i] as u32) - 48)
            },
        )
    } else {
        acc
    }
}

pub proof fn lemma_exp_accum_bounds(s: Seq<char>, i: int, j: int, acc: int)
    requires
        0 <= acc <= 10000000000000008,
        forall|k: int| i <= k < j ==> is_digit_char(s[k]),
    ensures
        0 <= exp_accum(s, i, j, acc) <= 10000000000000008,
    decreases j - i,
{
    if i < j {
        assert(is_digit_char(s[i]));
        assert(48 <= s[i] as u32 <= 57);
        lemma_exp_accum_bounds(
            s,
            i + 1,
            j,
            if acc >= 1000000000000000 {
                acc
            } else {
                acc * 10 + ((s[i] as u32) - 48)
            },
        );
    }
}

fn accum_exp(s: &Vec<char>, from: usize, to: usize) -> (r: i64)
    requires
        from <= to <= s@.len(),
        forall|k: int| from <= k < to ==> is_digit_char(s@[k]),
    ensures
        r == exp_accum(s@, from as int, to as int, 0),
        0 <= r <= 10000000000000008,
{
    proof {
        lemma_exp_accum_bounds(s@, from as int, to as int, 0);
    }
    let mut acc: i64 = 0;
    let mut k: usize = from;
    while k < to
        invariant
            from <= k <= to <= s@.len(),
            forall|m: int| from <= m < to ==> is_digit_char(s@[m]),
            exp_accum(s@, from as int, to as int, 0) == exp_accum(s@, k as int, to as int, acc as int),
            0 <= acc <= 10000000000000008,
        decreases to - k,
    {
        let c = s[k];
        proof {
            assert(is_digit_char(s@[k as int]));
            assert(48 <= c as u32 <= 57);
        }
        if acc < 1000000000000000 {
            acc = acc * 10 + (((c as u32) - 48) as i64);
        }
        k = k + 1;
    }
    acc
}


/// What a numeric literal at `i` denotes: optional sign, then either
/// integer digits with an optional fraction, or a bare fraction; an
/// exponent part is taken only when digits follow the `e`.
pub open spec fn spec_number_tail(
    s: Seq<char>,
    neg: bool,
    mant: Seq<u8>,
    exp0: int,
    pos: int,
) -> (NumberV, int) {
    if 0 <= pos < s.len() && (s[pos] == 'e' || s[pos] == 'E') {
        let has_sign = pos + 1 < s.len() && (s[pos + 1] == '+' || s[pos + 1] == '-');
        let eneg = pos + 1 < s.len() && s[pos + 1] == '-';
        let es = if has_sign {
            pos + 2
        } else {
            pos + 1
        };
        let ee = digits_end(s, es);
        if ee > es {
            let ev = exp_accum(s, es, ee, 0);
            (
                spec_canon(
                    neg,
                    mant,
                    exp0 + if eneg {
                        -ev
                    } else {
                        ev
                    },
                ),
                ee,
            )
        } else {
            (spec_canon(neg, mant, exp0), pos)
        }
    } else {
        (spec_canon(neg, mant, exp0), pos)
    }
}

pub open spec fn spec_parse_number(s: Seq<char>, i: int) -> Option<(NumberV, int)> {
    if i < 0 || i >= s.len() {
        None
    } else {
        let signed = s[i] == '-' || s[i] == '+';
        let neg = s[i] == '-';
        let i1 = if signed {
            i + 1
        } else {
            i
        };
        let ie = digits_end(s, i1);
        if ie > i1 {
            if ie < s.len() && s[ie] == '.' {
                let fe = digits_end(s, ie + 1);
                Some(
                    spec_number_tail(
                        s,
                        neg,
                        digit_vals(s, i1, ie) + digit_vals(s, ie + 1, fe),
                        -(fe - (ie + 1)),
                        fe,
                    ),
                )
            } else {
                Some(spec_number_tail(s, neg, digit_vals(s, i1, ie), 0, ie))
            }
        } else if i1 < s.len() && s[i1] == '.' && digits_end(s, i1 + 1) > i1 + 1 {
            let fe = digits_end(s, i1 + 1);
            Some(spec_number_tail(s, neg, digit_vals(s, i1 + 1, fe), -(fe - (i1 + 1)), fe))
        } else {
            None
        }
    }
}

/// Parse a numeric literal at `i`.
#[verifier::rlimit(50)]
pub fn parse_number(s: &Vec<char>, i: usize) -> (r: Option<(Number, usize)>)
    requires
        i <= s@.len(),
        s@.len() < 0x1000_0000_0000,
    ensures
        match (r, spec_parse_number(s@, i as int)) {
            (Some((v, j)), Some((sv, sj))) => v@ == sv && j == sj && i < j <= s@.len(),
            (None, None) => true,
            _ => false,
        },
{
    if i >= s.len() {
        return None;
    }
    let signed = s[i] == '-' || s[i] == '+';
    let neg = s[i] == '-';
    let i1: usize = if signed {
        i + 1
    } else {
        i
    };
    let ie = scan_digits(s, i1);
    proof {
        lemma_scan_end_bounds(s@, i1 as int);
    }
    if ie > i1 {
        let mut mant: Vec<u8> = Vec::new();
        proof {
            assert forall|k: int| i1 <= k < ie implies is_digit_char(s@[k]) by {
                lemma_digits_range(s@, i1 as int, ie as int, k);
            }
        }
        if ie < s.len() && s[ie] == '.' {
            let fe = scan_digits(s, ie + 1);
            proof {
                assert forall|k: int| ie + 1 <= k < fe implies is_digit_char(s@[k]) by {
                    lemma_digits_range(s@, ie + 1, fe as int, k);
                }
            }
            collect_digits(s, i1, ie, &mut mant);
            collect_digits(s, ie + 1, fe, &mut mant);
            proof {
                assert(mant@ =~= digit_vals(s@, i1 as int, ie as int) + digit_vals(
                    s@,
                    ie + 1,
                    fe as int,
                ));
            }
            let exp0: i64 = -((fe - (ie + 1)) as i64);
            Some(number_tail(s, neg, &mant, exp0, fe))
        } else {
            collect_digits(s, i1, ie, &mut mant);
            proof {
                assert(mant@ =~= digit_vals(s@, i1 as int, ie as int));
            }
            Some(number_tail(s, neg, &mant, 0, ie))
        }
    } else if i1 < s.len() && s[i1] == '.' {
        let fe = scan_digits(s, i1 + 1);
        if fe > i1 + 1 {
            proof {
                assert forall|k: int| i1 + 1 <= k < fe implies is_digit_char(s@[k]) by {
                    lemma_digits_range(s@, i1 + 1, fe as int, k);
                }
            }
            let mut mant: Vec<u8> = Vec::new();
            collect_digits(s, i1 + 1, fe, &mut mant);
            proof {
                assert(mant@ =~= digit_vals(s@, i1 + 1, fe as int));
            }
            let exp0: i64 = -((fe - (i1 + 1)) as i64);
            Some(number_tail(s, neg, &mant, exp0, fe))
        } else {
            None
        }
    } else {
        None
    }
}

/// Digits scanned by `digits_end` really are digits.
pub proof fn lemma_digits_range(s: Seq<char>, i: int, e: int, k: int)
    requires
        0 <= i,
        e == digits_end(s, i),
        i <= k < e,
    ensures
        is_digit_char(s[k]),
    decreases k - i,
{
    lemma_scan_end_bounds(s, i);
    if k > i {
        lemma_digits_range(s, i + 1, e, k);
    }
}

/// Apply an optional exponent part and build the canonical number.
fn number_tail(s: &Vec<char>, neg: bool, mant: &Vec<u8>, exp0: i64, pos: usize) -> (r: (
    Number,
    usize,
))
    requires
        pos <= s@.len(),
        s@.len() < 0x1000_0000_0000,
        crate::number::digits_ok(mant@),
        mant@.len() <= s@.len(),
        -(s@.len() as int) <= exp0 <= 0,
    ensures
        (r.0@, r.1 as int) == spec_number_tail(s@, neg, mant@, exp0 as int, pos as int),
        pos <= r.1 <= s@.len(),
{
    if pos < s.len() && (s[pos] == 'e' || s[pos] == 'E') {
        let has_sign = pos + 1 < s.len() && (s[pos + 1] == '+' || s[pos + 1] == '-');
        let eneg = pos + 1 < s.len() && s[pos + 1] == '-';
        let es: usize = if has_sign {
            pos + 2
        } else {
            pos + 1
        };
        if es <= s.len() {
            let ee = scan_digits(s, es);
            proof {
                lemma_scan_end_bounds(s@, es as int);
            }
            if ee > es {
                proof {
                    assert forall|k: int| es <= k < ee implies is_digit_char(s@[k]) by {
                        lemma_digits_range(s@, es as int, ee as int, k);
                    }
                }
                let ev = accum_exp(s, es, ee);
                let et: i64 = if eneg {
                    exp0 - ev
                } else {
                    exp0 + ev
                };
                (Number::from_parts(neg, mant, et), ee)
            } else {
                (Number::from_parts(neg, mant, exp0), pos)
            }
        } else {
            // the sign, if any, was the last character: no exponent digits
            proof {
                assert(digits_end(s@, es as int) == es);
            }
            (Number::from_parts(neg, mant, exp0), pos)
        }
    } else {
        (Number::from_parts(neg, mant, exp0), pos)
    }
}

/// An object key: an identifier wrapped in `\"`, `\`, or plain quotes,
/// after leading whitespace.
pub open spec fn spec_escaped_l(s: Seq<char>, i: int) -> Option<(Seq<char>, int)> {
    let w = ws_end(s, i);
    if w < i {
        None
    } else if has_tag(s, w, "\\\""@) && {
        let e = json_ident_end(s, w + 2);
        has_tag(s, e, "\\\""@)
    } {
        let e = json_ident_end(s, w + 2);
        Some((s.subrange(w + 2, e), e + 2))
    } else if has_tag(s, w, "\\"@) && {
        let e = json_ident_end(s, w + 1);
        has_tag(s, e, "\\"@)
    } {
        let e = json_ident_end(s, w + 1);
        Some((s.subrange(w + 1, e), e + 1))
    } else if has_tag(s, w, "\""@) && {
        let e = json_ident_end(s, w + 1);
        has_tag(s, e, "\""@)
    } {
        let e = json_ident_end(s, w + 1);
        Some((s.subrange(w + 1, e), e + 1))
    } else {
        None
    }
}

pub fn escaped_l(s: &Vec<char>, i: usize) -> (r: Option<(String, usize)>)
    requires
        i <= s@.len(),
    ensures
        match (r, spec_escaped_l(s@, i as int)) {
            (Some((t, j)), Some((st, sj))) => t@ == st && j == sj && i < j <= s@.len(),
            (None, None) => true,
            _ => false,
        },
{
    let w = skip_ws(s, i);
    proof {
        reveal_strlit("\\\"");
        reveal_strlit("\\");
        reveal_strlit("\"");
        assert(s.len() == s@.len());
    }
    let bq = str_to_chars("\\\"");
    let bs = str_to_chars("\\");
    let qq = str_to_chars("\"");
    if check_tag(s, w, &bq) {
        let e = scan_json_ident(s, w + 2);
        if check_tag(s, e, &bq) {
            return Some((copy_range(s, w + 2, e), e + 2));
        }
    }
    if check_tag(s, w, &bs) {
        let e = scan_json_ident(s, w + 1);
        if check_tag(s, e, &bs) {
            return Some((copy_range(s, w + 1, e), e + 1));
        }
    }
    if check_tag(s, w, &qq) {
        let e = scan_json_ident(s, w + 1);
        if check_tag(s, e, &qq) {
            return Some((copy_range(s, w + 1, e), e + 1));
        }
    }
    None
}

/// A raw string in escaped or quoted form, with trailing whitespace
/// consumed.
pub open spec fn spec_escaped_r(s: Seq<char>, i: int) -> Option<(Seq<char>, int)> {
    let w = ws_end(s, i);
    if w < i {
        None
    } else if has_tag(s, w, "\\\""@) && {
        let e = raw_end(s, w + 2);
        has_tag(s, e, "\\\""@)
    } {
        let e = raw_end(s, w + 2);
        Some((s.subrange(w + 2, e), ws_end(s, e + 2)))
    } else if has_tag(s, w, "\\"@) && {
        let e = raw_end(s, w + 1);
        has_tag(s, e, "\\"@)
    } {
        let e = raw_end(s, w + 1);
        Some((s.subrange(w + 1, e), ws_end(s, e + 1)))
    } else if has_tag(s, w, "\""@) && {
        let e = raw_end(s, w + 1);
        has_tag(s, e, "\""@)
    } {
        let e = raw_end(s, w + 1);
        Some((s.subrange(w + 1, e), ws_end(s, e + 1)))
    } else {
        None
    }
}

pub fn escaped_r(s: &Vec<char>, i: usize) -> (r: Option<(String, usize)>)
    requires
        i <= s@.len(),
    ensures
        match (r, spec_escaped_r(s@, i as int)) {
            (Some((t, j)), Some((st, sj))) => t@ == st && j == sj && i < j <= s@.len(),
            (None, None) => true,
            _ => false,
        },
{
    let w = skip_ws(s, i);
    proof {
        reveal_strlit("\\\"");
        reveal_strlit("\\");
        reveal_strlit("\"");
        assert(s.len() == s@.len());
    }
    let bq = str_to_chars("\\\"");
    let bs = str_to_chars("\\");
    let qq = str_to_chars("\"");
    if check_tag(s, w, &bq) {
        let e = scan_raw(s, w + 2);
        if check_tag(s, e, &bq) {
            let p = skip_ws(s, e + 2);
            return Some((copy_range(s, w + 2, e), p));
        }
    }
    if check_tag(s, w, &bs) {
        let e = scan_raw(s, w + 1);
        if check_tag(s, e, &bs) {
            let p = skip_ws(s, e + 1);
            return Some((copy_range(s, w + 1, e), p));
        }
    }
    if check_tag(s, w, &qq) {
        let e = scan_raw(s, w + 1);
        if check_tag(s, e, &qq) {
            let p = skip_ws(s, e + 1);
            return Some((copy_range(s, w + 1, e), p));
        }
    }
    None
}


/// One parsed JSON value, after leading whitespace.  Dispatch is by the
/// first significant character: object, array, quoted string, escaped raw
/// string, number, boolean, null — the order the grammar fixes.
pub open spec fn spec_json_value(s: Seq<char>, i: int) -> Option<(JsonValueV, int)>
    decreases s.len() - i, 0int,
{
    let w = ws_end(s, i);
    if !(i <= w && w < s.len()) {
        None
    } else if s[w] == '{' {
        let (pairs, j) = spec_members(s, w + 1);
        let c = ws_end(s, j);
        if 0 <= j && c < s.len() && s[c] == '}' {
            Some((JsonValueV::Object(pairs), c + 1))
        } else {
            None
        }
    } else if s[w] == '[' {
        let (elems, j) = spec_elems(s, w + 1);
        let c = ws_end(s, j);
        if 0 <= j && c < s.len() && s[c] == ']' {
            Some((JsonValueV::Array(elems), c + 1))
        } else {
            None
        }
    } else if s[w] == '"' {
        match spec_str_content(s, w + 1) {
            Some((t, j)) => Some((JsonValueV::Str(t), j)),
            None => None,
        }
    } else if s[w] == '\\' {
        match spec_escaped_r(s, i) {
            Some((t, j)) => Some((JsonValueV::Str(t), j)),
            None => None,
        }
    } else {
        match spec_parse_number(s, w) {
            Some((n, j)) => Some((JsonValueV::Num(n), j)),
            None => if has_tag(s, w, "true"@) {
                Some((JsonValueV::Boolean(true), w + 4))
            } else if has_tag(s, w, "false"@) {
                Some((JsonValueV::Boolean(false), w + 5))
            } else if has_tag(s, w, "null"@) {
                Some((JsonValueV::Null, w + 4))
            } else {
                None
            },
        }
    }
}

/// A `key : value` pair.
pub open spec fn spec_key_value(s: Seq<char>, i: int) -> Option<(Seq<char>, JsonValueV, int)>
    decreases s.len() - i, 0int,
{
    match spec_escaped_l(s, i) {
        None => None,
        Some((k, j)) => {
            let c = sp_end(s, j);
            if i < j <= s.len() && j <= c && c < s.len() && s[c] == ':' {
                match spec_json_value(s, c + 1) {
                    Some((v, e)) => Some((k, v, e)),
                    None => None,
                }
            } else {
                None
            }
        },
    }
}

/// Zero or more comma-separated `key : value` pairs; a comma not followed
/// by another pair is left unconsumed.
pub open spec fn spec_members(s: Seq<char>, i: int) -> (Seq<(Seq<char>, JsonValueV)>, int)
    decreases s.len() - i, 1int,
{
    match spec_key_value(s, i) {
        None => (Seq::empty(), i),
        Some((k, v, j)) => {
            let sp = sp_end(s, j);
            if i < j <= s.len() && j <= sp && sp < s.len() && s[sp] == ','
                && spec_key_value(s, sp + 1) is Some {
                let (rest, e) = spec_members(s, sp + 1);
                (seq![(k, v)] + rest, e)
            } else {
                (seq![(k, v)], j)
            }
        },
    }
}

/// Zero or more comma-separated values; a comma not followed by another
/// value is left unconsumed.
pub open spec fn spec_elems(s: Seq<char>, i: int) -> (Seq<JsonValueV>, int)
    decreases s.len() - i, 1int,
{
    match spec_json_value(s, i) {
        None => (Seq::empty(), i),
        Some((v, j)) => {
            let sp = sp_end(s, j);
            if i < j <= s.len() && j <= sp && sp < s.len() && s[sp] == ','
                && spec_json_value(s, sp + 1) is Some {
                let (rest, e) = spec_elems(s, sp + 1);
                (seq![v] + rest, e)
            } else {
                (seq![v], j)
            }
        },
    }
}

/// The root of a JSON document: an object or an array, with surrounding
/// spaces allowed.
pub open spec fn spec_parse_json(s: Seq<char>, i: int) -> Option<(JsonValueV, int)> {
    let w = ws_end(s, i);
    if i <= w && w < s.len() && (s[w] == '{' || s[w] == '[') {
        match spec_json_value(s, i) {
            Some((v, j)) => Some((v, sp_end(s, j))),
            None => None,
        }
    } else {
        None
    }
}

fn prepend_elem(v: JsonValue, rest: Vec<JsonValue>) -> (r: Vec<JsonValue>)
    ensures
        jv_seq_view(r@) == seq![jv_view(v)] + jv_seq_view(rest@),
{
    let ghost gv = v;
    let ghost grest = rest@;
    let mut out = rest;
    out.insert(0, v);
    proof {
        assert(out@ =~= seq![gv] + grest);
        assert(out@.drop_first() =~= grest);
    }
    out
}

fn prepend_pair(k: String, v: JsonValue, rest: Vec<(String, JsonValue)>) -> (r: Vec<
    (String, JsonValue),
>)
    ensures
        jv_pairs_view(r@) == seq![(k@, jv_view(v))] + jv_pairs_view(rest@),
{
    let ghost gk = k;
    let ghost gv = v;
    let ghost grest = rest@;
    let mut out = rest;
    out.insert(0, (k, v));
    proof {
        assert(out@ =~= seq![(gk, gv)] + grest);
        assert(out@.drop_first() =~= grest);
    }
    out
}

/// Parse one JSON value at `i`.
pub fn json_value_at(s: &Vec<char>, i: usize) -> (r: Option<(JsonValue, usize)>)
    requires
        i <= s@.len(),
        s@.len() < 0x1000_0000_0000,
    ensures
        match (r, spec_json_value(s@, i as int)) {
            (Some((v, j)), Some((sv, sj))) => v@ == sv && j == sj && i < j <= s@.len(),
            (None, None) => true,
            _ => false,
        },
    decreases s@.len() - i, 0int,
{
    let w = skip_ws(s, i);
    if w >= s.len() {
        return None;
    }
    let ch = s[w];
    if ch == '{' {
        let (pairs, j) = members_at(s, w + 1);
        let c = skip_ws(s, j);
        if c < s.len() && s[c] == '}' {
            Some((JsonValue::Object(pairs), c + 1))
        } else {
            None
        }
    } else if ch == '[' {
        let (elems, j) = elems_at(s, w + 1);
        let c = skip_ws(s, j);
        if c < s.len() && s[c] == ']' {
            Some((JsonValue::Array(elems), c + 1))
        } else {
            None
        }
    } else if ch == '"' {
        match str_content(s, w + 1) {
            Some((t, j)) => Some((JsonValue::Str(chars_to_string(&t)), j)),
            None => None,
        }
    } else if ch == '\\' {
        match escaped_r(s, i) {
            Some((t, j)) => Some((JsonValue::Str(t), j)),
            None => None,
        }
    } else {
        match parse_number(s, w) {
            Some((n, j)) => Some((JsonValue::Num(n), j)),
            None => {
                proof {
                    reveal_strlit("true");
                    reveal_strlit("false");
                    reveal_strlit("null");
                }
                let t_true = str_to_chars("true");
                let t_false = str_to_chars("false");
                let t_null = str_to_chars("null");
                if check_tag(s, w, &t_true) {
                    Some((JsonValue::Boolean(true), w + 4))
                } else if check_tag(s, w, &t_false) {
                    Some((JsonValue::Boolean(false), w + 5))
                } else if check_tag(s, w, &t_null) {
                    Some((JsonValue::Null, w + 4))
                } else {
                    None
                }
            },
        }
    }
}

fn key_value_at(s: &Vec<char>, i: usize) -> (r: Option<(String, JsonValue, usize)>)
    requires
        i <= s@.len(),
        s@.len() < 0x1000_0000_0000,
    ensures
        match (r, spec_key_value(s@, i as int)) {
            (Some((k, v, j)), Some((sk, sv, sj))) => k@ == sk && v@ == sv && j == sj && i < j
                <= s@.len(),
            (None, None) => true,
            _ => false,
        },
    decreases s@.len() - i, 0int,
{
    match escaped_l(s, i) {
        None => None,
        Some((k, j)) => {
            let c = skip_sp(s, j);
            if c < s.len() && s[c] == ':' {
                match json_value_at(s, c + 1) {
                    Some((v, e)) => Some((k, v, e)),
                    None => None,
                }
            } else {
                None
            }
        },
    }
}

fn members_at(s: &Vec<char>, i: usize) -> (r: (Vec<(String, JsonValue)>, usize))
    requires
        i <= s@.len(),
        s@.len() < 0x1000_0000_0000,
    ensures
        (jv_pairs_view(r.0@), r.1 as int) == spec_members(s@, i as int),
        i <= r.1 <= s@.len(),
    decreases s@.len() - i, 1int,
{
    match key_value_at(s, i) {
        None => {
            let out: Vec<(String, JsonValue)> = Vec::new();
            proof {
                assert(jv_pairs_view(out@) =~= spec_members(s@, i as int).0);
            }
            (out, i)
        },
        Some((k, v, j)) => {
            let sp = skip_sp(s, j);
            let mut more = false;
            if sp < s.len() && s[sp] == ',' {
                if key_value_at(s, sp + 1).is_some() {
                    more = true;
                }
            }
            if more {
                let (rest, e) = members_at(s, sp + 1);
                let ghost gk = k@;
                let ghost gv = v@;
                let out = prepend_pair(k, v, rest);
                (out, e)
            } else {
                let mut out: Vec<(String, JsonValue)> = Vec::new();
                let ghost gk = k@;
                let ghost gv = v@;
                out.push((k, v));
                proof {
                    let kv = out@[0];
                    assert(out@.len() == 1);
                    assert(out@.drop_first() =~= Seq::<(String, JsonValue)>::empty());
                    assert(jv_pairs_view(Seq::<(String, JsonValue)>::empty())
                        =~= Seq::<(Seq<char>, JsonValueV)>::empty());
                    assert(jv_pairs_view(out@) =~= seq![(kv.0@, jv_view(kv.1))]);
                    assert(kv.0@ == gk);
                    assert(jv_view(kv.1) == gv);
                    assert(jv_pairs_view(out@) =~= seq![(gk, gv)]);
                }
                (out, j)
            }
        },
    }
}

fn elems_at(s: &Vec<char>, i: usize) -> (r: (Vec<JsonValue>, usize))
    requires
        i <= s@.len(),
        s@.len() < 0x1000_0000_0000,
    ensures
        (jv_seq_view(r.0@), r.1 as int) == spec_elems(s@, i as int),
        i <= r.1 <= s@.len(),
    decreases s@.len() - i, 1int,
{
    match json_value_at(s, i) {
        None => {
            let out: Vec<JsonValue> = Vec::new();
            proof {
                assert(jv_seq_view(out@) =~= spec_elems(s@, i as int).0);
            }
            (out, i)
        },
        Some((v, j)) => {
            let sp = skip_sp(s, j);
            let mut more = false;
            if sp < s.len() && s[sp] == ',' {
                if json_value_at(s, sp + 1).is_some() {
                    more = true;
                }
            }
            if more {
                let (rest, e) = elems_at(s, sp + 1);
                let out = prepend_elem(v, rest);
                (out, e)
            } else {
                let mut out: Vec<JsonValue> = Vec::new();
                let ghost gv = v@;
                out.push(v);
                proof {
                    let v0 = out@[0];
                    assert(out@.len() == 1);
                    assert(out@.drop_first() =~= Seq::<JsonValue>::empty());
                    assert(jv_seq_view(Seq::<JsonValue>::empty()) =~= Seq::<JsonValueV>::empty());
                    assert(jv_seq_view(out@) =~= seq![jv_view(v0)]);
                    assert(jv_view(v0) == gv);
                    assert(jv_seq_view(out@) =~= seq![gv]);
                }
                (out, j)
            }
        },
    }
}

/// Parse a JSON document (an object or an array) at `i`.
pub fn parse_json_at(s: &Vec<char>, i: usize) -> (r: Option<(JsonValue, usize)>)
    requires
        i <= s@.len(),
        s@.len() < 0x1000_0000_0000,
    ensures
        match (r, spec_parse_json(s@, i as int)) {
            (Some((v, j)), Some((sv, sj))) => v@ == sv && j == sj && i < j <= s@.len(),
            (None, None) => true,
            _ => false,
        },
{
    let w = skip_ws(s, i);
    if w < s.len() && (s[w] == '{' || s[w] == '[') {
        match json_value_at(s, i) {
            Some((v, j)) => {
                let p = skip_sp(s, j);
                Some((v, p))
            },
            None => None,
        }
    } else {
        None
    }
}

/// Parse a JSON document from the start of `input`; on success, the value
/// and the number of characters consumed.
pub fn parse_json(input: &str) -> (r: Option<(JsonValue, usize)>)
    requires
        input@.len() < 0x1000_0000_0000,
    ensures
        match (r, spec_parse_json(input@, 0)) {
            (Some((v, j)), Some((sv, sj))) => v@ == sv && j == sj,
            (None, None) => true,
            _ => false,
        },
{
    let chars = str_to_chars(input);
    parse_json_at(&chars, 0)
}


/// A JSON value rendered back to text, exactly: strings keep their
/// escapes verbatim, numbers print their canonical decimal literal, and
/// keywords are bare.
pub open spec fn spec_serialize(v: JsonValueV) -> Seq<char>
    decreases v,
{
    match v {
        JsonValueV::Str(s) => seq!['"'] + s + seq!['"'],
        JsonValueV::Boolean(b) => if b {
            "true"@
        } else {
            "false"@
        },
        JsonValueV::Null => "null"@,
        JsonValueV::Num(n) => crate::number::spec_render_number(n),
        JsonValueV::Array(vs) => seq!['['] + spec_serialize_elems(vs) + seq![']'],
        JsonValueV::Object(ps) => seq!['{'] + spec_serialize_pairs(ps) + seq!['}'],
    }
}

pub open spec fn spec_serialize_elems(vs: Seq<JsonValueV>) -> Seq<char>
    decreases vs,
{
    if vs.len() == 0 {
        Seq::empty()
    } else if vs.len() == 1 {
        spec_serialize(vs[0])
    } else {
        spec_serialize(vs[0]) + seq![','] + spec_serialize_elems(vs.drop_first())
    }
}

pub open spec fn spec_serialize_pair(p: (Seq<char>, JsonValueV)) -> Seq<char>
    decreases p,
{
    seq!['"'] + p.0 + seq!['"', ':'] + spec_serialize(p.1)
}

pub open spec fn spec_serialize_pairs(ps: Seq<(Seq<char>, JsonValueV)>) -> Seq<char>
    decreases ps,
{
    if ps.len() == 0 {
        Seq::empty()
    } else if ps.len() == 1 {
        spec_serialize_pair(ps[0])
    } else {
        spec_serialize_pair(ps[0]) + seq![','] + spec_serialize_pairs(ps.drop_first())
    }
}

/// Render a JSON value back to text.
pub fn serialize(v: &JsonValue) -> (r: String)
    ensures
        r@ == spec_serialize(v@),
    decreases v,
{
    match v {
        JsonValue::Str(s) => {
            let mut out = String::new();
            out.append("\"");
            out.append(s.as_str());
            out.append("\"");
            proof {
                reveal_strlit("\"");
                assert("\""@ =~= seq!['"']);
                assert(out@ =~= spec_serialize(v@));
            }
            out
        },
        JsonValue::Boolean(b) => {
            if *b {
                crate::text::lit_string("true")
            } else {
                crate::text::lit_string("false")
            }
        },
        JsonValue::Null => crate::text::lit_string("null"),
        JsonValue::Num(n) => n.to_literal(),
        JsonValue::Array(vs) => {
            let mut out = String::new();
            out.append("[");
            let body = serialize_elems(vs, 0);
            out.append(body.as_str());
            out.append("]");
            proof {
                reveal_strlit("[");
                reveal_strlit("]");
                assert("["@ =~= seq!['[']);
                assert("]"@ =~= seq![']']);
                crate::model::lemma_jv_seq_view(vs@);
                assert(jv_seq_view(vs@).subrange(0, vs@.len() as int) =~= jv_seq_view(vs@));
                assert(out@ =~= spec_serialize(v@));
            }
            out
        },
        JsonValue::Object(ps) => {
            let mut out = String::new();
            out.append("{");
            let body = serialize_pairs(ps, 0);
            out.append(body.as_str());
            out.append("}");
            proof {
                reveal_strlit("{");
                reveal_strlit("}");
                assert("{"@ =~= seq!['{']);
                assert("}"@ =~= seq!['}']);
                crate::model::lemma_jv_pairs_view(ps@);
                assert(jv_pairs_view(ps@).subrange(0, ps@.len() as int) =~= jv_pairs_view(ps@));
                assert(out@ =~= spec_serialize(v@));
            }
            out
        },
    }
}

fn serialize_elems(vs: &Vec<JsonValue>, k: usize) -> (r: String)
    requires
        k <= vs@.len(),
    ensures
        r@ == spec_serialize_elems(jv_seq_view(vs@).subrange(k as int, vs@.len() as int)),
    decreases vs, vs@.len() - k,
{
    proof {
        crate::model::lemma_jv_seq_view(vs@);
    }
    let ghost sub = jv_seq_view(vs@).subrange(k as int, vs@.len() as int);
    if k >= vs.len() {
        let s = String::new();
        return s;
    }
    proof {
        assert(sub[0] == jv_seq_view(vs@)[k as int]);
        assert(sub.drop_first() =~= jv_seq_view(vs@).subrange(k + 1, vs@.len() as int));
    }
    let mut s = serialize(&vs[k]);
    if k + 1 < vs.len() {
        s.append(",");
        let rest = serialize_elems(vs, k + 1);
        s.append(rest.as_str());
        proof {
            reveal_strlit(",");
            assert(","@ =~= seq![',']);
            assert(s@ =~= spec_serialize_elems(sub));
        }
    }
    s
}

fn serialize_pairs(ps: &Vec<(String, JsonValue)>, k: usize) -> (r: String)
    requires
        k <= ps@.len(),
    ensures
        r@ == spec_serialize_pairs(jv_pairs_view(ps@).subrange(k as int, ps@.len() as int)),
    decreases ps, ps@.len() - k,
{
    proof {
        crate::model::lemma_jv_pairs_view(ps@);
    }
    let ghost sub = jv_pairs_view(ps@).subrange(k as int, ps@.len() as int);
    if k >= ps.len() {
        let s = String::new();
        return s;
    }
    proof {
        assert(sub[0] == jv_pairs_view(ps@)[k as int]);
        assert(sub.drop_first() =~= jv_pairs_view(ps@).subrange(k + 1, ps@.len() as int));
    }
    let pair = &ps[k];
    let mut s = String::new();
    s.append("\"");
    s.append(pair.0.as_str());
    s.append("\":");
    let v = serialize(&pair.1);
    s.append(v.as_str());
    proof {
        reveal_strlit("\"");
        reveal_strlit("\":");
        assert("\""@ =~= seq!['"']);
        assert("\":"@ =~= seq!['"', ':']);
        assert(s@ =~= spec_serialize_pair(sub[0]));
    }
    if k + 1 < ps.len() {
        s.append(",");
        let rest = serialize_pairs(ps, k + 1);
        s.append(rest.as_str());
        proof {
            reveal_strlit(",");
            assert(","@ =~= seq![',']);
            assert(s@ =~= spec_serialize_pairs(sub));
        }
    }
    s
}

} // verus!
