use vstd::prelude::*;

verus! {

broadcast use vstd::std_specs::vec::group_vec_axioms;

/// The characters of `s`, in order, as a vector.
pub fn str_to_chars(s: &str) -> (r: Vec<char>)
    ensures
        r@ == s@,
{
    let n = s.unicode_len();
    let mut v: Vec<char> = Vec::new();
    let mut i: usize = 0;
    while i < n
        invariant
            i <= n,
            n == s@.len(),
            v@ == s@.subrange(0, i as int),
        decreases n - i,
    {
        v.push(s.get_char(i));
        i = i + 1;
    }
    proof {
        assert(v@ =~= s@);
    }
    v
}

/// Relies on String's FromIterator over char: collecting characters yields
/// the string of exactly those characters, in order.
#[verifier::external_body]
pub fn chars_to_string(v: &Vec<char>) -> (r: String)
    ensures
        r@ == v@,
{
    v.iter().collect()
}

/// Space or tab: what separates tokens within one line.
pub open spec fn is_space_char(c: char) -> bool {
    c == ' ' || c == '\t'
}

/// Any horizontal or vertical whitespace.
pub open spec fn is_multispace_char(c: char) -> bool {
    c == ' ' || c == '\t' || c == '\r' || c == '\n'
}

/// ASCII letters and digits; bytes outside ASCII are accepted as letters.
pub open spec fn is_alnum_char(c: char) -> bool {
    ('a' <= c && c <= 'z') || ('A' <= c && c <= 'Z') || ('0' <= c && c <= '9') || (c as u32)
        >= 128
}

pub open spec fn is_digit_char(c: char) -> bool {
    '0' <= c && c <= '9'
}

pub fn digit_char(c: char) -> (r: bool)
    ensures
        r == is_digit_char(c),
{
    '0' <= c && c <= '9'
}

pub fn space_char(c: char) -> (r: bool)
    ensures
        r == is_space_char(c),
{
    c == ' ' || c == '\t'
}

pub fn multispace_char(c: char) -> (r: bool)
    ensures
        r == is_multispace_char(c),
{
    c == ' ' || c == '\t' || c == '\r' || c == '\n'
}

pub fn alnum_char(c: char) -> (r: bool)
    ensures
        r == is_alnum_char(c),
{
    ('a' <= c && c <= 'z') || ('A' <= c && c <= 'Z') || ('0' <= c && c <= '9') || (c as u32)
        >= 128
}

/// Position of the first character at or after `i` that is not a space or
/// tab (`space0`).
pub open spec fn sp_end(s: Seq<char>, i: int) -> int
    decreases s.len() - i,
{
    if 0 <= i < s.len() && is_space_char(s[i]) {
        sp_end(s, i + 1)
    } else {
        i
    }
}

/// Position of the first character at or after `i` that is not whitespace
/// (`multispace0`).
pub open spec fn ws_end(s: Seq<char>, i: int) -> int
    decreases s.len() - i,
{
    if 0 <= i < s.len() && is_multispace_char(s[i]) {
        ws_end(s, i + 1)
    } else {
        i
    }
}

pub proof fn lemma_sp_end(s: Seq<char>, i: int)
    requires
        0 <= i <= s.len(),
    ensures
        i <= sp_end(s, i) <= s.len(),
    decreases s.len() - i,
{
    if i < s.len() && is_space_char(s[i]) {
        lemma_sp_end(s, i + 1);
    }
}

pub proof fn lemma_ws_end(s: Seq<char>, i: int)
    requires
        0 <= i <= s.len(),
    ensures
        i <= ws_end(s, i) <= s.len(),
    decreases s.len() - i,
{
    if i < s.len() && is_multispace_char(s[i]) {
        lemma_ws_end(s, i + 1);
    }
}

/// Skip spaces and tabs.
pub fn skip_sp(s: &Vec<char>, i: usize) -> (r: usize)
    requires
        i <= s@.len(),
    ensures
        r == sp_end(s@, i as int),
        i <= r <= s@.len(),
    decreases s@.len() - i,
{
    if i < s.len() && space_char(s[i]) {
        skip_sp(s, i + 1)
    } else {
        i
    }
}

/// Skip all whitespace.
pub fn skip_ws(s: &Vec<char>, i: usize) -> (r: usize)
    requires
        i <= s@.len(),
    ensures
        r == ws_end(s@, i as int),
        i <= r <= s@.len(),
    decreases s@.len() - i,
{
    if i < s.len() && multispace_char(s[i]) {
        skip_ws(s, i + 1)
    } else {
        i
    }
}

/// True when `t` occurs in `s` starting at `i`.
pub open spec fn has_tag(s: Seq<char>, i: int, t: Seq<char>) -> bool {
    0 <= i && i + t.len() <= s.len() && s.subrange(i, i + t.len()) == t
}

/// Check for the literal `t` at position `i`.
pub fn check_tag(s: &Vec<char>, i: usize, t: &Vec<char>) -> (r: bool)
    requires
        i <= s@.len(),
    ensures
        r == has_tag(s@, i as int, t@),
{
    if s.len() - i < t.len() {
        proof {
            assert(!has_tag(s@, i as int, t@));
        }
        return false;
    }
    let n = t.len();
    proof {
        assert(s.len() == s@.len());
    }
    let mut k: usize = 0;
    while k < n
        invariant
            k <= n,
            n == t@.len(),
            i + n <= s@.len(),
            s@.len() <= usize::MAX,
            forall|j: int| 0 <= j < k ==> s@[i + j] == t@[j],
        decreases n - k,
    {
        if s[i + k] != t[k] {
            proof {
                if has_tag(s@, i as int, t@) {
                    assert(s@.subrange(i as int, i + t@.len())[k as int] == t@[k as int]);
                }
            }
            return false;
        }
        k = k + 1;
    }
    proof {
        assert(s@.subrange(i as int, i + t@.len()) =~= t@);
    }
    true
}


/// The views of a sequence of strings.
pub open spec fn strs_view(s: Seq<String>) -> Seq<Seq<char>>
    decreases s,
{
    if s.len() == 0 {
        Seq::empty()
    } else {
        seq![s[0]@] + strs_view(s.drop_first())
    }
}

pub proof fn lemma_strs_view(s: Seq<String>)
    ensures
        strs_view(s).len() == s.len(),
        forall|i: int| 0 <= i < s.len() ==> #[trigger] strs_view(s)[i] == s[i]@,
    decreases s,
{
    if s.len() > 0 {
        lemma_strs_view(s.drop_first());
        assert forall|i: int| 0 <= i < s.len() implies #[trigger] strs_view(s)[i] == s[i]@ by {
            if i > 0 {
                assert(strs_view(s.drop_first())[i - 1] == s.drop_first()[i - 1]@);
            }
        }
    }
}


/// Character-for-character string equality.
pub fn str_eq(a: &str, b: &str) -> (r: bool)
    ensures
        r == (a@ == b@),
{
    let va = str_to_chars(a);
    let vb = str_to_chars(b);
    if va.len() != vb.len() {
        proof {
            assert(a@.len() != b@.len());
        }
        return false;
    }
    let n = va.len();
    let mut i: usize = 0;
    while i < n
        invariant
            i <= n,
            n == va@.len() == vb@.len(),
            va@ == a@,
            vb@ == b@,
            forall|j: int| 0 <= j < i ==> va@[j] == vb@[j],
        decreases n - i,
    {
        if va[i] != vb[i] {
            proof {
                if a@ == b@ {
                    assert(a@[i as int] == b@[i as int]);
                }
            }
            return false;
        }
        i = i + 1;
    }
    proof {
        assert(a@ =~= b@);
    }
    true
}


/// A fresh `String` holding the given literal.
pub fn lit_string(s: &str) -> (r: String)
    ensures
        r@ == s@,
{
    String::from_str(s)
}


/// `s` with every occurrence of `pat` replaced by `rep`, scanning left to
/// right without revisiting replaced text.
pub open spec fn spec_replace(s: Seq<char>, pat: Seq<char>, rep: Seq<char>) -> Seq<char>
    decreases s.len(),
{
    if pat.len() == 0 || s.len() < pat.len() {
        s
    } else if s.subrange(0, pat.len() as int) == pat {
        rep + spec_replace(s.skip(pat.len() as int), pat, rep)
    } else {
        seq![s[0]] + spec_replace(s.drop_first(), pat, rep)
    }
}

/// Whether `pat` occurs in `s` at `i`.
pub open spec fn has_sub_at(s: Seq<char>, pat: Seq<char>, i: int) -> bool {
    0 <= i && i + pat.len() <= s.len() && s.subrange(i, i + pat.len()) == pat
}

/// Whether `pat` occurs anywhere in `s`.
pub open spec fn spec_contains_sub(s: Seq<char>, pat: Seq<char>) -> bool {
    exists|i: int| has_sub_at(s, pat, i)
}

/// Replace every occurrence of `pat` in `s` by `rep`.
pub fn replace_chars(s: &Vec<char>, pat: &Vec<char>, rep: &Vec<char>) -> (r: Vec<char>)
    ensures
        r@ == spec_replace(s@, pat@, rep@),
    decreases s@.len(),
{
    if pat.len() == 0 || s.len() < pat.len() {
        let mut out: Vec<char> = Vec::new();
        let n = s.len();
        let mut i: usize = 0;
        while i < n
            invariant
                i <= n,
                n == s@.len(),
                out@ == s@.subrange(0, i as int),
            decreases n - i,
        {
            out.push(s[i]);
            i = i + 1;
        }
        proof {
            assert(out@ =~= s@);
        }
        return out;
    }
    if check_tag(s, 0, pat) {
        let mut tail: Vec<char> = Vec::new();
        let n = s.len();
        let mut i: usize = pat.len();
        while i < n
            invariant
                pat@.len() <= i <= n,
                n == s@.len(),
                tail@ == s@.subrange(pat@.len() as int, i as int),
            decreases n - i,
        {
            tail.push(s[i]);
            i = i + 1;
        }
        proof {
            assert(tail@ =~= s@.skip(pat@.len() as int));
        }
        let rest = replace_chars(&tail, pat, rep);
        let mut out: Vec<char> = Vec::new();
        let mut k: usize = 0;
        let nr = rep.len();
        while k < nr
            invariant
                k <= nr,
                nr == rep@.len(),
                out@ == rep@.subrange(0, k as int),
            decreases nr - k,
        {
            out.push(rep[k]);
            k = k + 1;
        }
        proof {
            assert(out@ =~= rep@);
        }
        let ghost gout = out@;
        let ghost grest = rest@;
        let mut out2 = out;
        let mut rest2 = rest;
        out2.append(&mut rest2);
        proof {
            assert(out2@ =~= rep@ + grest);
        }
        out2
    } else {
        proof {
            assert(s@.subrange(0, pat@.len() as int) != pat@);
        }
        let mut tail: Vec<char> = Vec::new();
        let n = s.len();
        let mut i: usize = 1;
        while i < n
            invariant
                1 <= i <= n,
                n == s@.len(),
                tail@ == s@.subrange(1, i as int),
            decreases n - i,
        {
            tail.push(s[i]);
            i = i + 1;
        }
        proof {
            assert(tail@ =~= s@.drop_first());
        }
        let rest = replace_chars(&tail, pat, rep);
        let ghost grest = rest@;
        let mut out: Vec<char> = Vec::new();
        out.push(s[0]);
        let mut rest2 = rest;
        out.append(&mut rest2);
        proof {
            assert(out@ =~= seq![s@[0]] + grest);
        }
        out
    }
}

/// Replace every occurrence of `pat` in `s` by `rep`, on strings.
pub fn replace_str(s: &String, pat: &str, rep: &str) -> (r: String)
    ensures
        r@ == spec_replace(s@, pat@, rep@),
{
    let sv = str_to_chars(s.as_str());
    let pv = str_to_chars(pat);
    let rv = str_to_chars(rep);
    let out = replace_chars(&sv, &pv, &rv);
    chars_to_string(&out)
}

/// Whether `pat` occurs anywhere in `s`.
pub fn contains_sub(s: &String, pat: &str) -> (r: bool)
    ensures
        r == spec_contains_sub(s@, pat@),
{
    let sv = str_to_chars(s.as_str());
    let pv = str_to_chars(pat);
    proof {
        assert(sv.len() == sv@.len());
    }
    if pv.len() == 0 {
        proof {
            assert(sv@.subrange(0, 0) =~= pv@);
            assert(has_sub_at(s@, pat@, 0));
        }
        return true;
    }
    if pv.len() > sv.len() {
        proof {
            if spec_contains_sub(s@, pat@) {
                let w = choose|i: int| has_sub_at(s@, pat@, i);
                assert(false);
            }
        }
        return false;
    }
    let n = sv.len() - pv.len();
    let mut i: usize = 0;
    while i <= n
        invariant
            0 <= i <= n + 1,
            n == sv@.len() - pv@.len(),
            1 <= pv@.len() <= sv@.len(),
            sv@.len() <= usize::MAX,
            sv@ == s@,
            pv@ == pat@,
            forall|j: int| 0 <= j < i ==> !has_sub_at(s@, pat@, j),
        decreases n + 1 - i,
    {
        if check_tag(&sv, i, &pv) {
            proof {
                assert(has_sub_at(s@, pat@, i as int));
            }
            return true;
        }
        i = i + 1;
    }
    proof {
        if spec_contains_sub(s@, pat@) {
            let w = choose|j: int| has_sub_at(s@, pat@, j);
            assert(!has_sub_at(s@, pat@, w));
        }
    }
    false
}

} // verus!
