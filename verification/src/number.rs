use vstd::prelude::*;

verus! {

/// Mathematical value of a numeric literal, in canonical decimal form.
///
/// The value is `(-1)^neg * digits * 10^exp`, where `digits` is read as a
/// base-10 integer.  Canonical form: `digits` has no leading and no trailing
/// zero, and zero itself is represented as `digits == empty, exp == 0,
/// neg == false`.  Every mathematical value has exactly one canonical form,
/// so equality of `NumberV` values is equality of the numbers they denote.
pub struct NumberV {
    pub neg: bool,
    pub digits: Seq<u8>,
    pub exp: int,
}

pub open spec fn digits_ok(ds: Seq<u8>) -> bool {
    forall|i: int| 0 <= i < ds.len() ==> 0 <= #[trigger] ds[i] <= 9
}

pub open spec fn number_wf(n: NumberV) -> bool {
    &&& digits_ok(n.digits)
    &&& n.digits.len() > 0 ==> n.digits[0] != 0 && n.digits[n.digits.len() - 1] != 0
    &&& n.digits.len() == 0 ==> !n.neg && n.exp == 0
}

/// Drop leading zero digits.
pub open spec fn strip_lead(ds: Seq<u8>) -> Seq<u8>
    decreases ds.len(),
{
    if ds.len() > 0 && ds[0] == 0 {
        strip_lead(ds.drop_first())
    } else {
        ds
    }
}

/// Drop trailing zero digits.
pub open spec fn strip_trail(ds: Seq<u8>) -> Seq<u8>
    decreases ds.len(),
{
    if ds.len() > 0 && ds[ds.len() - 1] == 0 {
        strip_trail(ds.drop_last())
    } else {
        ds
    }
}

/// Canonical number built from a scanned digit string `ds` (all significant
/// digits, integer part then fraction part) and a power-of-ten offset `exp`.
pub open spec fn spec_canon(neg: bool, ds: Seq<u8>, exp: int) -> NumberV {
    let t = strip_trail(ds);
    let m = strip_lead(t);
    if m.len() == 0 {
        NumberV { neg: false, digits: Seq::empty(), exp: 0 }
    } else {
        NumberV { neg, digits: m, exp: exp + ds.len() - t.len() }
    }
}

/// A numeric attribute value: the parsed form of a decimal literal.
#[derive(Debug, PartialEq)]
pub struct Number {
    pub neg: bool,
    pub digits: Vec<u8>,
    pub exp: i64,
}

impl View for Number {
    type V = NumberV;

    open spec fn view(&self) -> NumberV {
        NumberV { neg: self.neg, digits: self.digits@, exp: self.exp as int }
    }
}

pub proof fn lemma_strip_lead_props(ds: Seq<u8>)
    ensures
        strip_lead(ds).len() <= ds.len(),
        strip_lead(ds).len() > 0 ==> strip_lead(ds)[0] != 0,
        forall|i: int|
            0 <= i < strip_lead(ds).len() ==> #[trigger] strip_lead(ds)[i] == ds[i + (ds.len()
                - strip_lead(ds).len())],
        forall|i: int| 0 <= i < ds.len() - strip_lead(ds).len() ==> ds[i] == 0,
    decreases ds.len(),
{
    if ds.len() > 0 && ds[0] == 0 {
        let d = ds.drop_first();
        lemma_strip_lead_props(d);
        assert forall|i: int| 0 <= i < strip_lead(ds).len() implies #[trigger] strip_lead(ds)[i]
            == ds[i + (ds.len() - strip_lead(ds).len())] by {
            assert(strip_lead(ds)[i] == strip_lead(d)[i]);
            assert(strip_lead(d)[i] == d[i + (d.len() - strip_lead(d).len())]);
        }
        assert forall|i: int| 0 <= i < ds.len() - strip_lead(ds).len() implies ds[i] == 0 by {
            if i > 0 {
                assert(d[i - 1] == 0);
            }
        }
    }
}

pub proof fn lemma_strip_trail_props(ds: Seq<u8>)
    ensures
        strip_trail(ds).len() <= ds.len(),
        strip_trail(ds).len() > 0 ==> strip_trail(ds)[strip_trail(ds).len() - 1] != 0,
        forall|i: int| 0 <= i < strip_trail(ds).len() ==> #[trigger] strip_trail(ds)[i] == ds[i],
        forall|i: int| strip_trail(ds).len() <= i < ds.len() ==> ds[i] == 0,
    decreases ds.len(),
{
    if ds.len() > 0 && ds[ds.len() - 1] == 0 {
        let d = ds.drop_last();
        lemma_strip_trail_props(d);
        assert forall|i: int| 0 <= i < strip_trail(ds).len() implies #[trigger] strip_trail(
            ds,
        )[i] == ds[i] by {
            assert(strip_trail(ds)[i] == strip_trail(d)[i]);
            assert(strip_trail(d)[i] == d[i]);
        }
        assert forall|i: int| strip_trail(ds).len() <= i < ds.len() implies ds[i] == 0 by {
            if i < ds.len() - 1 {
                assert(d[i] == 0);
            }
        }
    }
}

pub proof fn lemma_canon_wf(neg: bool, ds: Seq<u8>, exp: int)
    requires
        digits_ok(ds),
    ensures
        number_wf(spec_canon(neg, ds, exp)),
{
    lemma_strip_trail_props(ds);
    lemma_strip_lead_props(strip_trail(ds));
}

impl Number {
    /// Build the canonical number for the significant digits `ds` (integer
    /// part followed by fraction part, each digit 0..=9) scaled by `10^exp`.
    #[verifier::loop_isolation(false)]
    pub fn from_parts(neg: bool, ds: &Vec<u8>, exp: i64) -> (r: Number)
        requires
            digits_ok(ds@),
            -0x2000_0000_0000_0000 <= exp,
            exp + ds@.len() <= 0x2000_0000_0000_0000,
        ensures
            r@ == spec_canon(neg, ds@, exp as int),
            number_wf(r@),
    {
        proof {
            lemma_canon_wf(neg, ds@, exp as int);
            lemma_strip_trail_props(ds@);
            lemma_strip_lead_props(strip_trail(ds@));
        }
        let t = Ghost(strip_trail(ds@));
        let m = Ghost(strip_lead(strip_trail(ds@)));
        // index one past the last non-zero digit
        let mut hi: usize = ds.len();
        while hi > 0 && ds[hi - 1] == 0
            invariant
                hi <= ds@.len(),
                t@.len() <= hi,
                forall|i: int| hi <= i < ds@.len() ==> ds@[i] == 0,
            decreases hi,
        {
            proof {
                if t@.len() == hi {
                    assert(t@[hi - 1int] != 0);
                    assert(t@[hi - 1int] == ds@[hi - 1int]);
                    assert(false);
                }
            }
            hi = hi - 1;
        }
        proof {
            if t@.len() < hi {
                assert(ds@[hi - 1int] == 0);
                assert(false);
            }
            assert(hi == t@.len());
        }
        // index of the first non-zero digit below hi
        let mut lo: usize = 0;
        while lo < hi && ds[lo] == 0
            invariant
                0 <= lo <= hi,
                hi <= ds@.len(),
                hi == t@.len(),
                t@ == strip_trail(ds@),
                m@ == strip_lead(t@),
                lo <= hi - m@.len(),
            decreases hi - lo,
        {
            proof {
                if lo + 1 > hi - m@.len() {
                    assert(lo == hi - m@.len());
                    assert(m@.len() > 0);
                    assert(strip_lead(t@)[0] == t@[0 + (t@.len() - strip_lead(t@).len())]);
                    assert(t@[lo as int] == ds@[lo as int]);
                    assert(false);
                }
            }
            lo = lo + 1;
        }
        proof {
            if lo < hi - m@.len() {
                assert(t@[lo as int] == 0);
                assert(t@[lo as int] == ds@[lo as int]);
                assert(false);
            }
            assert(lo == hi - m@.len());
        }
        let mut digits: Vec<u8> = Vec::new();
        let mut i: usize = lo;
        while i < hi
            invariant
                lo <= i <= hi <= ds@.len(),
                digits@.len() == i - lo,
                forall|j: int| 0 <= j < digits@.len() ==> #[trigger] digits@[j] == ds@[j + lo],
            decreases hi - i,
        {
            digits.push(ds[i]);
            i = i + 1;
        }
        proof {
            assert forall|j: int| 0 <= j < digits@.len() implies digits@[j] == m@[j] by {
                assert(strip_lead(t@)[j] == t@[j + (t@.len() - strip_lead(t@).len())]);
                assert(t@[j + lo] == ds@[j + lo]);
            }
            assert(digits@ =~= m@);
        }
        if digits.len() == 0 {
            proof {
                assert(digits@ =~= Seq::<u8>::empty());
            }
            Number { neg: false, digits, exp: 0 }
        } else {
            let stripped: usize = ds.len() - hi;
            let e: i64 = exp + (stripped as i64);
            Number { neg, digits, exp: e }
        }
    }

    /// An exact copy of this number.
    pub fn clone_value(&self) -> (r: Number)
        ensures
            r@ == self@,
    {
        let mut digits: Vec<u8> = Vec::new();
        let n = self.digits.len();
        let mut i: usize = 0;
        while i < n
            invariant
                i <= n,
                n == self.digits@.len(),
                digits@ == self.digits@.subrange(0, i as int),
            decreases n - i,
        {
            digits.push(self.digits[i]);
            i = i + 1;
        }
        proof {
            assert(digits@ =~= self.digits@);
        }
        Number { neg: self.neg, digits, exp: self.exp }
    }

    /// Two numbers are equal exactly when their canonical forms agree.
    pub fn eq_value(&self, other: &Number) -> (r: bool)
        ensures
            r <==> self@ == other@,
    {
        if self.neg != other.neg || self.exp != other.exp || self.digits.len()
            != other.digits.len() {
            proof {
                if self@ == other@ {
                    assert(self@.digits.len() == other@.digits.len());
                }
            }
            return false;
        }
        let n = self.digits.len();
        let mut i: usize = 0;
        while i < n
            invariant
                i <= n,
                n == self.digits@.len() == other.digits@.len(),
                forall|j: int| 0 <= j < i ==> self.digits@[j] == other.digits@[j],
            decreases n - i,
        {
            if self.digits[i] != other.digits[i] {
                proof {
                    if self@ == other@ {
                        assert(self@.digits[i as int] == other@.digits[i as int]);
                    }
                }
                return false;
            }
            i = i + 1;
        }
        proof {
            assert(self.digits@ =~= other.digits@);
        }
        true
    }
}


/// The canonical decimal literal of a number: digits with a decimal point
/// or trailing zeros as the exponent requires, `-` for negatives, `0` for
/// zero.
pub open spec fn spec_render_number(n: NumberV) -> Seq<char> {
    if n.digits.len() == 0 {
        seq!['0']
    } else {
        let sign: Seq<char> = if n.neg {
            seq!['-']
        } else {
            Seq::empty()
        };
        if n.exp >= 0 {
            sign + digit_chars(n.digits) + zero_chars(n.exp as nat)
        } else if n.digits.len() + n.exp > 0 {
            let k = n.digits.len() + n.exp;
            sign + digit_chars(n.digits.subrange(0, k)) + seq!['.'] + digit_chars(
                n.digits.subrange(k, n.digits.len() as int),
            )
        } else {
            sign + seq!['0', '.'] + zero_chars((-(n.exp) - n.digits.len()) as nat) + digit_chars(
                n.digits,
            )
        }
    }
}

pub open spec fn digit_chars(ds: Seq<u8>) -> Seq<char> {
    Seq::new(ds.len(), |i: int| ((ds[i] + 48) as u8) as char)
}

pub open spec fn zero_chars(k: nat) -> Seq<char> {
    Seq::new(k, |i: int| '0')
}

impl Number {
    /// Render this number as its canonical decimal literal.
    pub fn to_literal(&self) -> (r: String)
        ensures
            r@ == spec_render_number(self@),
    {
        let mut out: Vec<char> = Vec::new();
        if self.digits.len() == 0 {
            out.push('0');
            proof {
                assert(out@ =~= spec_render_number(self@));
            }
            return crate::text::chars_to_string(&out);
        }
        if self.neg {
            out.push('-');
        }
        let ghost sign: Seq<char> = if self.neg {
            seq!['-']
        } else {
            Seq::empty()
        };
        proof {
            assert(out@ =~= sign);
        }
        if self.exp >= 0 {
            push_digit_chars(&mut out, &self.digits, 0, self.digits.len());
            let mut k: i64 = 0;
            while k < self.exp
                invariant
                    0 <= k <= self.exp,
                    out@ == sign + digit_chars(self.digits@) + zero_chars(k as nat),
                decreases self.exp - k,
            {
                out.push('0');
                proof {
                    assert(out@ =~= sign + digit_chars(self.digits@) + zero_chars((k + 1) as nat));
                }
                k = k + 1;
            }
        } else {
            let nlen: i128 = self.digits.len() as i128;
            if nlen + (self.exp as i128) > 0 {
                let k: usize = (nlen + (self.exp as i128)) as usize;
                push_digit_chars(&mut out, &self.digits, 0, k);
                out.push('.');
                proof {
                    assert(out@ =~= sign + digit_chars(self.digits@.subrange(0, k as int))
                        + seq!['.']);
                }
                push_digit_chars(&mut out, &self.digits, k, self.digits.len());
                proof {
                    assert(digit_chars(self.digits@.subrange(k as int, self.digits@.len() as int))
                        =~= Seq::new(
                        (self.digits@.len() - k) as nat,
                        |i: int| ((self.digits@[k + i] + 48) as u8) as char,
                    ));
                    assert(out@ =~= sign + digit_chars(self.digits@.subrange(0, k as int))
                        + seq!['.'] + digit_chars(
                        self.digits@.subrange(k as int, self.digits@.len() as int),
                    ));
                }
            } else {
                out.push('0');
                out.push('.');
                proof {
                    assert(out@ =~= sign + seq!['0', '.'] + zero_chars(0));
                }
                let zn: i128 = -(self.exp as i128) - nlen;
                let mut k: i128 = 0;
                while k < zn
                    invariant
                        0 <= k <= zn,
                        zn == -(self@.exp) - self.digits@.len(),
                        out@ == sign + seq!['0', '.'] + zero_chars(k as nat),
                    decreases zn - k,
                {
                    out.push('0');
                    proof {
                        assert(out@ =~= sign + seq!['0', '.'] + zero_chars((k + 1) as nat));
                    }
                    k = k + 1;
                }
                push_digit_chars(&mut out, &self.digits, 0, self.digits.len());
                proof {
                    assert(digit_chars(self.digits@.subrange(0, self.digits@.len() as int))
                        =~= digit_chars(self.digits@));
                }
            }
        }
        proof {
            assert(self.digits@.subrange(0, self.digits@.len() as int) =~= self.digits@);
        }
        crate::text::chars_to_string(&out)
    }
}

/// Append the characters of `ds[from..to]` to `out`.
fn push_digit_chars(out: &mut Vec<char>, ds: &Vec<u8>, from: usize, to: usize)
    requires
        from <= to <= ds@.len(),
    ensures
        final(out)@ == old(out)@ + Seq::new(
            (to - from) as nat,
            |i: int| ((ds@[from + i] + 48) as u8) as char,
        ),
{
    let mut k: usize = from;
    while k < to
        invariant
            from <= k <= to <= ds@.len(),
            out@ == old(out)@ + Seq::new(
                (k - from) as nat,
                |i: int| ((ds@[from + i] + 48) as u8) as char,
            ),
        decreases to - k,
    {
        let d = ds[k];
        let wide: u16 = (d as u16) + 48;
        let b: u8 = #[verifier::truncate] (wide as u8);
        out.push(b as char);
        proof {
            assert(out@ =~= old(out)@ + Seq::new(
                (k + 1 - from) as nat,
                |i: int| ((ds@[from + i] + 48) as u8) as char,
            ));
        }
        k = k + 1;
    }
}


/// Lexicographic order on digit strings.
pub open spec fn lex_lt_digits(x: Seq<u8>, y: Seq<u8>) -> bool
    decreases x.len(),
{
    if x.len() == 0 {
        y.len() > 0
    } else if y.len() == 0 {
        false
    } else if x[0] != y[0] {
        x[0] < y[0]
    } else {
        lex_lt_digits(x.drop_first(), y.drop_first())
    }
}

/// Magnitude order on canonical non-negative forms: compare the scientific
/// exponent first, then the digit strings; with no trailing zeros this is
/// the numeric order.
pub open spec fn mag_lt(a: NumberV, b: NumberV) -> bool {
    if a.digits.len() == 0 {
        b.digits.len() > 0
    } else if b.digits.len() == 0 {
        false
    } else {
        let ea = a.exp + a.digits.len();
        let eb = b.exp + b.digits.len();
        if ea != eb {
            ea < eb
        } else {
            lex_lt_digits(a.digits, b.digits)
        }
    }
}

/// The numeric order on canonical forms.
pub open spec fn num_lt(a: NumberV, b: NumberV) -> bool {
    if a.neg != b.neg {
        a.neg
    } else if !a.neg {
        mag_lt(a, b)
    } else {
        mag_lt(b, a)
    }
}

fn lex_lt_exec(x: &Vec<u8>, y: &Vec<u8>) -> (r: bool)
    ensures
        r == lex_lt_digits(x@, y@),
{
    let nx = x.len();
    let ny = y.len();
    proof {
        assert(x@.subrange(0, nx as int) =~= x@);
        assert(y@.subrange(0, ny as int) =~= y@);
    }
    let mut i: usize = 0;
    while i < nx && i < ny
        invariant
            i <= nx,
            i <= ny,
            nx == x@.len(),
            ny == y@.len(),
            lex_lt_digits(x@, y@) == lex_lt_digits(
                x@.subrange(i as int, nx as int),
                y@.subrange(i as int, ny as int),
            ),
        decreases nx - i,
    {
        let ghost xs = x@.subrange(i as int, nx as int);
        let ghost ys = y@.subrange(i as int, ny as int);
        if x[i] < y[i] {
            proof {
                assert(xs[0] == x@[i as int]);
                assert(ys[0] == y@[i as int]);
            }
            return true;
        }
        if x[i] > y[i] {
            proof {
                assert(xs[0] == x@[i as int]);
                assert(ys[0] == y@[i as int]);
            }
            return false;
        }
        proof {
            assert(xs[0] == x@[i as int]);
            assert(ys[0] == y@[i as int]);
            assert(xs.drop_first() =~= x@.subrange(i + 1, nx as int));
            assert(ys.drop_first() =~= y@.subrange(i + 1, ny as int));
        }
        i = i + 1;
    }
    proof {
        let xs = x@.subrange(i as int, nx as int);
        let ys = y@.subrange(i as int, ny as int);
        if i >= nx {
            assert(xs.len() == 0);
        } else {
            assert(ys.len() == 0);
        }
    }
    i >= nx && ny > nx
}

impl Number {
    /// Whether this number is strictly below `other`.
    pub fn lt(&self, other: &Number) -> (r: bool)
        ensures
            r == num_lt(self@, other@),
    {
        if self.neg != other.neg {
            return self.neg;
        }
        let (a, b) = if !self.neg {
            (self, other)
        } else {
            (other, self)
        };
        if a.digits.len() == 0 {
            return b.digits.len() > 0;
        }
        if b.digits.len() == 0 {
            return false;
        }
        let la: i128 = a.digits.len() as i128;
        let lb: i128 = b.digits.len() as i128;
        let ea: i128 = (a.exp as i128) + la;
        let eb: i128 = (b.exp as i128) + lb;
        if ea != eb {
            ea < eb
        } else {
            lex_lt_exec(&a.digits, &b.digits)
        }
    }
}


pub open spec fn zero_vals(k: nat) -> Seq<u8> {
    Seq::new(k, |i: int| 0u8)
}

/// A digit string plus one, with carry.
pub open spec fn spec_inc_digits(ds: Seq<u8>) -> Seq<u8>
    decreases ds.len(),
{
    if ds.len() == 0 {
        seq![1u8]
    } else if ds.last() < 9 {
        ds.update(ds.len() - 1, (ds.last() + 1) as u8)
    } else {
        spec_inc_digits(ds.drop_last()) + seq![0u8]
    }
}

/// The digits of `10 * value`, rounded half-to-even to an integer.
pub open spec fn spec_fixed1_digits(n: NumberV) -> Seq<u8> {
    if n.exp + 1 >= 0 {
        n.digits + zero_vals((n.exp + 1) as nat)
    } else {
        let k = n.digits.len() + n.exp + 1;
        let i_part = if k <= 0 {
            Seq::<u8>::empty()
        } else {
            n.digits.subrange(0, k)
        };
        let f_part = if k <= 0 {
            zero_vals((-k) as nat) + n.digits
        } else {
            n.digits.subrange(k, n.digits.len() as int)
        };
        let up = f_part.len() > 0 && (f_part[0] > 5 || (f_part[0] == 5 && f_part.len() > 1) || (
        f_part == seq![5u8] && i_part.len() > 0 && i_part.last() % 2 == 1));
        if up {
            spec_inc_digits(i_part)
        } else {
            i_part
        }
    }
}

/// The number rendered with exactly one fraction digit, as the diagram
/// output wants it; ties round to even.
pub open spec fn spec_render_fixed1(n: NumberV) -> Seq<char> {
    let sign: Seq<char> = if n.neg {
        seq!['-']
    } else {
        Seq::empty()
    };
    let d = spec_fixed1_digits(n);
    if d.len() == 0 {
        sign + seq!['0', '.', '0']
    } else if d.len() == 1 {
        sign + seq!['0', '.'] + digit_chars(d)
    } else {
        sign + digit_chars(d.subrange(0, d.len() - 1)) + seq!['.'] + digit_chars(
            d.subrange(d.len() - 1, d.len() as int),
        )
    }
}

fn inc_digits(v: Vec<u8>) -> (r: Vec<u8>)
    ensures
        r@ == spec_inc_digits(v@),
    decreases v@.len(),
{
    let ghost gv = v@;
    let mut v = v;
    if v.len() == 0 {
        v.push(1);
        proof {
            assert(v@ =~= seq![1u8]);
        }
        v
    } else {
        let last = v.pop().unwrap();
        if last < 9 {
            v.push(last + 1);
            proof {
                assert(v@ =~= gv.update(gv.len() - 1, (gv.last() + 1) as u8));
            }
            v
        } else {
            let mut front = inc_digits(v);
            let ghost gf = front@;
            front.push(0);
            proof {
                assert(front@ =~= gf + seq![0u8]);
                assert(gv.drop_last() =~= gv.subrange(0, gv.len() - 1));
            }
            front
        }
    }
}

impl Number {
    /// Render with one decimal digit.
    #[verifier::rlimit(100)]
    pub fn to_fixed1(&self) -> (r: String)
        ensures
            r@ == spec_render_fixed1(self@),
    {
        let mut d: Vec<u8> = Vec::new();
        if self.exp >= -1 {
            let n = self.digits.len();
            let mut i: usize = 0;
            while i < n
                invariant
                    i <= n,
                    n == self.digits@.len(),
                    d@ == self.digits@.subrange(0, i as int),
                decreases n - i,
            {
                d.push(self.digits[i]);
                i = i + 1;
            }
            proof {
                assert(d@ =~= self.digits@);
            }
            let zn: i128 = (self.exp as i128) + 1;
            let mut k: i128 = 0;
            while k < zn
                invariant
                    0 <= k <= zn,
                    zn == self@.exp + 1,
                    d@ == self.digits@ + zero_vals(k as nat),
                decreases zn - k,
            {
                d.push(0);
                proof {
                    assert(d@ =~= self.digits@ + zero_vals((k + 1) as nat));
                }
                k = k + 1;
            }
            proof {
                assert(d@ =~= spec_fixed1_digits(self@));
            }
        } else {
            let ki: i128 = (self.digits.len() as i128) + (self.exp as i128) + 1;
            if ki <= 0 {
                // no integer digits; round up only when the first fraction
                // digit sits at the front and exceeds a half
                let tie_at_front = ki == 0 && self.digits.len() >= 1;
                let mut up = false;
                if tie_at_front {
                    let d0 = self.digits[0];
                    if d0 > 5 || (d0 == 5 && self.digits.len() > 1) {
                        up = true;
                    }
                }
                proof {
                    let k = self@.digits.len() + self@.exp + 1;
                    let f_part = zero_vals((-k) as nat) + self@.digits;
                    if k < 0 {
                        assert(f_part[0] == 0);
                    }
                    if k == 0 {
                        assert(f_part =~= self@.digits);
                    }
                    assert(spec_fixed1_digits(self@) == (if f_part.len() > 0 && (f_part[0] > 5
                        || (f_part[0] == 5 && f_part.len() > 1) || (f_part == seq![5u8] && false))
                         {
                        spec_inc_digits(Seq::<u8>::empty())
                    } else {
                        Seq::<u8>::empty()
                    }));
                }
                if up {
                    d.push(1);
                    proof {
                        assert(d@ =~= seq![1u8]);
                        assert(spec_inc_digits(Seq::<u8>::empty()) =~= seq![1u8]);
                    }
                } else {
                    proof {
                        assert(d@ =~= Seq::<u8>::empty());
                    }
                }
            } else {
                let k = ki as usize;
                let mut i_part: Vec<u8> = Vec::new();
                let mut i: usize = 0;
                while i < k
                    invariant
                        i <= k,
                        k <= self.digits@.len(),
                        i_part@ == self.digits@.subrange(0, i as int),
                    decreases k - i,
                {
                    i_part.push(self.digits[i]);
                    i = i + 1;
                }
                let f0 = self.digits[k];
                let flen = self.digits.len() - k;
                let up = f0 > 5 || (f0 == 5 && flen > 1) || (f0 == 5 && flen == 1 && i_part[k
                    - 1] % 2 == 1);
                proof {
                    let kk = self@.digits.len() + self@.exp + 1;
                    let f_part = self@.digits.subrange(kk, self@.digits.len() as int);
                    assert(f_part[0] == self@.digits[kk]);
                    if f0 == 5 && flen == 1 {
                        assert(f_part =~= seq![5u8]);
                    }
                    if f_part == seq![5u8] {
                        assert(f_part[0] == 5);
                        assert(f_part.len() == 1);
                    }
                    assert(i_part@ =~= self@.digits.subrange(0, kk));
                    assert(i_part@.last() == i_part@[k - 1]);
                }
                if up {
                    d = inc_digits(i_part);
                } else {
                    d = i_part;
                }
            }
        }
        // render the digit string with the last digit after the point
        let mut out: Vec<char> = Vec::new();
        if self.neg {
            out.push('-');
        }
        let ghost sign: Seq<char> = if self.neg {
            seq!['-']
        } else {
            Seq::empty()
        };
        proof {
            assert(out@ =~= sign);
        }
        if d.len() == 0 {
            out.push('0');
            out.push('.');
            out.push('0');
            proof {
                assert(out@ =~= sign + seq!['0', '.', '0']);
            }
        } else if d.len() == 1 {
            out.push('0');
            out.push('.');
            proof {
                assert(out@ =~= sign + seq!['0', '.']);
            }
            push_digit_chars(&mut out, &d, 0, 1);
            proof {
                assert(digit_chars(d@) =~= Seq::new(
                    1nat,
                    |i: int| ((d@[0 + i] + 48) as u8) as char,
                ));
            }
        } else {
            let dl = d.len();
            push_digit_chars(&mut out, &d, 0, dl - 1);
            proof {
                assert(digit_chars(d@.subrange(0, d@.len() - 1)) =~= Seq::new(
                    (d@.len() - 1) as nat,
                    |i: int| ((d@[0 + i] + 48) as u8) as char,
                ));
            }
            out.push('.');
            let ghost mid = out@;
            push_digit_chars(&mut out, &d, dl - 1, dl);
            proof {
                assert(digit_chars(d@.subrange(d@.len() - 1, d@.len() as int)) =~= Seq::new(
                    1nat,
                    |i: int| ((d@[d@.len() - 1 + i] + 48) as u8) as char,
                ));
                assert(out@ =~= sign + digit_chars(d@.subrange(0, d@.len() - 1)) + seq!['.']
                    + digit_chars(d@.subrange(d@.len() - 1, d@.len() as int)));
            }
        }
        crate::text::chars_to_string(&out)
    }
}

} // verus!
