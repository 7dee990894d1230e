use vstd::prelude::*;
use crate::codec::ParsePercentageError;

verus! {

/// Largest exponent that is told apart from larger ones: beyond it, every number with a
/// non-zero digit is far outside a percentage either way.
pub const EXPONENT_CAP: u128 = 100_000_000_000_000_000_000;

pub open spec fn is_digit(c: u8) -> bool {
    48 <= c <= 57
}

pub open spec fn all_digits(s: Seq<u8>) -> bool {
    forall|i: int| 0 <= i < s.len() ==> is_digit(#[trigger] s[i])
}

/// The number that a run of decimal digits writes.
pub open spec fn digits_value(s: Seq<u8>) -> int
    decreases s.len(),
{
    if s.len() == 0 {
        0
    } else {
        digits_value(s.drop_last()) * 10 + (s.last() - 48)
    }
}

pub open spec fn pow10(n: nat) -> int
    decreases n,
{
    if n == 0 {
        1
    } else {
        10 * pow10((n - 1) as nat)
    }
}

/// Index of the first byte that is `x` or `y`, or the length when there is none.
pub open spec fn find2(s: Seq<u8>, x: u8, y: u8) -> int
    decreases s.len(),
{
    if s.len() == 0 {
        0
    } else if s[0] == x || s[0] == y {
        0
    } else {
        1 + find2(s.drop_first(), x, y)
    }
}

/// Length of a leading `+` or `-`.
pub open spec fn sign_len(b: Seq<u8>) -> int {
    if b.len() > 0 && (b[0] == 43 || b[0] == 45) {
        1
    } else {
        0
    }
}

/// ASCII lower case.
pub open spec fn lower(c: u8) -> u8 {
    if 65 <= c <= 90 {
        (c + 32) as u8
    } else {
        c
    }
}

/// `inf` or `infinity`, in any case.
pub open spec fn names_infinity(s: Seq<u8>) -> bool {
    let l = s.map_values(|c: u8| lower(c));
    l == seq![105u8, 110u8, 102u8] || l == seq![105u8, 110u8, 102u8, 105u8, 110u8, 105u8, 116u8, 121u8]
}

/// Where the exponent marker `e` or `E` stands, or the length.
pub open spec fn exp_at(body: Seq<u8>) -> int {
    find2(body, 101, 69)
}

/// The digits and point before the exponent.
pub open spec fn mantissa(body: Seq<u8>) -> Seq<u8> {
    body.take(exp_at(body))
}

/// What follows the exponent marker: an optional sign and digits.
pub open spec fn exponent_text(body: Seq<u8>) -> Seq<u8> {
    if exp_at(body) < body.len() {
        body.skip(exp_at(body) + 1)
    } else {
        Seq::empty()
    }
}

pub open spec fn exponent_digits(body: Seq<u8>) -> Seq<u8> {
    exponent_text(body).skip(sign_len(exponent_text(body)))
}

/// The digits before the point.
pub open spec fn integral(body: Seq<u8>) -> Seq<u8> {
    mantissa(body).take(find2(mantissa(body), 46, 46))
}

/// The digits after the point.
pub open spec fn fraction(body: Seq<u8>) -> Seq<u8> {
    let m = mantissa(body);
    if find2(m, 46, 46) < m.len() {
        m.skip(find2(m, 46, 46) + 1)
    } else {
        Seq::empty()
    }
}

/// Digits, an optional point and digits, with at least one digit in all; then optionally
/// `e` or `E`, an optional sign and at least one digit.
pub open spec fn well_formed(body: Seq<u8>) -> bool {
    &&& all_digits(integral(body))
    &&& all_digits(fraction(body))
    &&& integral(body).len() + fraction(body).len() >= 1
    &&& (exp_at(body) < body.len() ==> exponent_digits(body).len() >= 1 && all_digits(
        exponent_digits(body),
    ))
}

pub open spec fn exponent(body: Seq<u8>) -> int {
    let x = exponent_text(body);
    if x.len() > 0 && x[0] == 45 {
        -digits_value(exponent_digits(body))
    } else {
        digits_value(exponent_digits(body))
    }
}

/// `d * 10^t` exceeds `10000`.
pub open spec fn exceeds_full(d: int, t: int) -> bool {
    if t >= 0 {
        d * pow10(t as nat) > 10000
    } else {
        d > 10000 * pow10((-t) as nat)
    }
}

/// `d * 10^t`, rounded down.
pub open spec fn scaled(d: int, t: int) -> int {
    if t >= 0 {
        d * pow10(t as nat)
    } else {
        d / pow10((-t) as nat)
    }
}

/// The percentage that `b` writes, in hundredths of a percent and rounded down, or why it
/// is refused. `b` is an optional sign, then a decimal number in the form `well_formed`
/// states, or `inf` / `infinity` in any case. The number is taken exactly: above a
/// hundred percent is `TooBig`, below zero is `Negative`, and minus zero is zero.
pub open spec fn percentage_of(b: Seq<u8>) -> Result<int, ParsePercentageError> {
    let negative = b.len() > 0 && b[0] == 45;
    let body = b.skip(sign_len(b));
    let d = digits_value(integral(body) + fraction(body));
    let t = exponent(body) - fraction(body).len() + 2;
    if names_infinity(body) {
        if negative {
            Err(ParsePercentageError::Negative)
        } else {
            Err(ParsePercentageError::TooBig)
        }
    } else if !well_formed(body) {
        Err(ParsePercentageError::Malformed)
    } else {
        numeric_outcome(d, negative, t)
    }
}

/// The percentage `d * 10^(t - 2)`, signed by `negative`, in hundredths and rounded down.
pub open spec fn numeric_outcome(d: int, negative: bool, t: int) -> Result<int, ParsePercentageError> {
    if negative && d > 0 {
        Err(ParsePercentageError::Negative)
    } else if exceeds_full(d, t) {
        Err(ParsePercentageError::TooBig)
    } else {
        Ok(scaled(d, t))
    }
}

/// An executable result that agrees with a result of `percentage_of`.
pub open spec fn agrees(r: Result<u16, ParsePercentageError>, s: Result<int, ParsePercentageError>) -> bool {
    &&& s is Ok ==> r is Ok && r->Ok_0 == s->Ok_0
    &&& s is Err ==> r == Err::<u16, _>(s->Err_0)
}

proof fn lemma_pow10_pos(n: nat)
    ensures
        pow10(n) >= 1,
    decreases n,
{
    if n > 0 {
        lemma_pow10_pos((n - 1) as nat);
    }
}

proof fn lemma_pow10_mono(a: nat, b: nat)
    requires
        a <= b,
    ensures
        pow10(a) <= pow10(b),
    decreases b,
{
    if b > a {
        lemma_pow10_mono(a, (b - 1) as nat);
        lemma_pow10_pos((b - 1) as nat);
    }
}

proof fn lemma_digits_bound(s: Seq<u8>)
    requires
        all_digits(s),
    ensures
        0 <= digits_value(s) < pow10(s.len()),
    decreases s.len(),
{
    if s.len() > 0 {
        let p = s.drop_last();
        assert(all_digits(p)) by {
            assert forall|i: int| 0 <= i < p.len() implies is_digit(#[trigger] p[i]) by {
                assert(p[i] == s[i]);
            }
        }
        lemma_digits_bound(p);
        let v = digits_value(p);
        let q = pow10(p.len());
        let d = s.last() - 48;
        assert(is_digit(s[s.len() - 1]));
        assert(0 <= v * 10 + d < 10 * q) by (nonlinear_arith)
            requires 0 <= v < q, 0 <= d <= 9;
    }
}

proof fn lemma_digits_concat(a: Seq<u8>, b: Seq<u8>)
    ensures
        digits_value(a + b) == digits_value(a) * pow10(b.len()) + digits_value(b),
    decreases b.len(),
{
    if b.len() == 0 {
        assert(a + b =~= a);
    } else {
        let b1 = b.drop_last();
        assert((a + b).drop_last() =~= a + b1);
        assert((a + b).last() == b.last());
        lemma_digits_concat(a, b1);
        let x = digits_value(a);
        let p = pow10(b1.len());
        let y = digits_value(b1);
        let d = b.last() - 48;
        assert((x * p + y) * 10 + d == x * (10 * p) + (y * 10 + d)) by (nonlinear_arith);
    }
}

proof fn lemma_find2(s: Seq<u8>, x: u8, y: u8, i: int)
    requires
        0 <= i <= s.len(),
        forall|k: int| 0 <= k < i ==> s[k] != x && s[k] != y,
        i == s.len() || s[i] == x || s[i] == y,
    ensures
        find2(s, x, y) == i,
    decreases i,
{
    if i > 0 {
        let t = s.drop_first();
        assert forall|k: int| 0 <= k < i - 1 implies t[k] != x && t[k] != y by {
            assert(t[k] == s[k + 1]);
        }
        if i < s.len() {
            assert(t[i - 1] == s[i]);
        }
        lemma_find2(t, x, y, i - 1);
    }
}

/// Appends `s[lo..hi]` to `out`.
fn push_range(out: &mut Vec<u8>, s: &[u8], lo: usize, hi: usize)
    requires
        lo <= hi <= s@.len(),
    ensures
        final(out)@ == old(out)@ + s@.subrange(lo as int, hi as int),
{
    let mut i = lo;
    while i < hi
        invariant
            lo <= i <= hi,
            hi <= s@.len(),
            out@ == old(out)@ + s@.subrange(lo as int, i as int),
        decreases hi - i,
    {
        out.push(s[i]);
        i = i + 1;
        assert(s@.subrange(lo as int, i as int) =~= s@.subrange(lo as int, i - 1).push(s@[i - 1]));
    }
}

fn copy_range(s: &[u8], lo: usize, hi: usize) -> (r: Vec<u8>)
    requires
        lo <= hi <= s@.len(),
    ensures
        r@ == s@.subrange(lo as int, hi as int),
{
    let mut out: Vec<u8> = Vec::new();
    push_range(&mut out, s, lo, hi);
    assert(out@ =~= s@.subrange(lo as int, hi as int));
    out
}

fn find_either(s: &[u8], x: u8, y: u8) -> (r: usize)
    ensures
        r == find2(s@, x, y),
        r <= s@.len(),
{
    let mut i: usize = 0;
    while i < s.len() && s[i] != x && s[i] != y
        invariant
            i <= s@.len(),
            forall|k: int| 0 <= k < i ==> s@[k] != x && s@[k] != y,
        decreases s@.len() - i,
    {
        i = i + 1;
    }
    proof {
        lemma_find2(s@, x, y, i as int);
    }
    i
}

fn digits_ok(s: &[u8]) -> (r: bool)
    ensures
        r == all_digits(s@),
{
    let mut i: usize = 0;
    while i < s.len()
        invariant
            i <= s@.len(),
            forall|k: int| 0 <= k < i ==> is_digit(#[trigger] s@[k]),
        decreases s@.len() - i,
    {
        if s[i] < 48 || s[i] > 57 {
            return false;
        }
        i = i + 1;
    }
    true
}

/// The number that the digits `s` write, or `cap` if that is less.
fn capped_value(s: &[u8], cap: u128) -> (r: u128)
    requires
        all_digits(s@),
        1 <= cap <= EXPONENT_CAP,
    ensures
        r == if digits_value(s@) < cap { digits_value(s@) } else { cap as int },
{
    let mut acc: u128 = 0;
    let mut i: usize = 0;
    while i < s.len()
        invariant
            i <= s@.len(),
            all_digits(s@),
            1 <= cap <= EXPONENT_CAP,
            acc == if digits_value(s@.take(i as int)) < cap {
                digits_value(s@.take(i as int))
            } else {
                cap as int
            },
        decreases s@.len() - i,
    {
        proof {
            assert(s@.take(i + 1).drop_last() =~= s@.take(i as int));
            assert(s@.take(i + 1).last() == s@[i as int]);
            assert(is_digit(s@[i as int]));
            lemma_digits_bound(s@.take(i as int));
            assert(all_digits(s@.take(i as int))) by {
                assert forall|k: int| 0 <= k < i implies is_digit(#[trigger] s@.take(i as int)[k]) by {
                    assert(s@.take(i as int)[k] == s@[k]);
                }
            }
            lemma_digits_bound(s@.take(i as int));
        }
        let w = acc * 10 + (s[i] - 48) as u128;
        acc = if w > cap { cap } else { w };
        i = i + 1;
    }
    assert(s@.take(i as int) =~= s@);
    acc
}

/// Whether `s` reads `inf` or `infinity`, in any case.
fn is_infinity(s: &[u8]) -> (r: bool)
    ensures
        r == names_infinity(s@),
{
    let mut l: Vec<u8> = Vec::new();
    let mut i: usize = 0;
    while i < s.len()
        invariant
            i <= s@.len(),
            l@ == s@.take(i as int).map_values(|c: u8| lower(c)),
        decreases s@.len() - i,
    {
        let c = s[i];
        let lc = if 65 <= c && c <= 90 { c + 32 } else { c };
        l.push(lc);
        i = i + 1;
        assert(s@.take(i as int).map_values(|c: u8| lower(c)) =~= s@.take(i - 1).map_values(
            |c: u8| lower(c),
        ).push(lower(c)));
    }
    assert(s@.take(i as int) =~= s@);
    let inf: [u8; 3] = [105, 110, 102];
    let infinity: [u8; 8] = [105, 110, 102, 105, 110, 105, 116, 121];
    assert(inf@ =~= seq![105u8, 110u8, 102u8]);
    assert(infinity@ =~= seq![105u8, 110u8, 102u8, 105u8, 110u8, 105u8, 116u8, 121u8]);
    let a = same_bytes(l.as_slice(), &inf);
    let b = same_bytes(l.as_slice(), &infinity);
    a || b
}

fn same_bytes(b: &[u8], lit: &[u8]) -> (r: bool)
    ensures
        r == (b@ == lit@),
{
    if b.len() != lit.len() {
        return false;
    }
    let mut i: usize = 0;
    while i < b.len()
        invariant
            i <= b@.len(),
            b@.len() == lit@.len(),
            forall|k: int| 0 <= k < i ==> b@[k] == lit@[k],
        decreases b@.len() - i,
    {
        if b[i] != lit[i] {
            return false;
        }
        i = i + 1;
    }
    assert(b@ =~= lit@);
    true
}

/// An accepted percentage lies in `0..=10000`.
pub proof fn lemma_percentage_bounded(b: Seq<u8>)
    ensures
        percentage_of(b) is Ok ==> 0 <= percentage_of(b)->Ok_0 <= 10000,
{
    let body = b.skip(sign_len(b));
    let d = digits_value(integral(body) + fraction(body));
    let t = exponent(body) - fraction(body).len() + 2;
    if percentage_of(b) is Ok {
        lemma_digits_bound(integral(body) + fraction(body));
        if t >= 0 {
            lemma_pow10_pos(t as nat);
            assert(d * pow10(t as nat) >= 0) by (nonlinear_arith)
                requires d >= 0, pow10(t as nat) >= 1;
        } else {
            let q = pow10((-t) as nat);
            lemma_pow10_pos((-t) as nat);
            assert(0 <= d / q <= 10000) by (nonlinear_arith)
                requires d >= 0, q >= 1, d <= 10000 * q;
        }
    }
}

proof fn lemma_pow10_small()
    ensures
        pow10(0) == 1,
        pow10(1) == 10,
        pow10(2) == 100,
        pow10(3) == 1000,
        pow10(4) == 10000,
        pow10(5) == 100000,
{
    assert(pow10(0) == 1);
    assert(pow10(1) == 10);
    assert(pow10(2) == 100);
    assert(pow10(3) == 1000);
    assert(pow10(4) == 10000);
    assert(pow10(5) == 100000);
}

proof fn lemma_sub_digits(s: Seq<u8>, lo: int, hi: int)
    requires
        all_digits(s),
        0 <= lo <= hi <= s.len(),
    ensures
        all_digits(s.subrange(lo, hi)),
{
    assert forall|i: int| 0 <= i < hi - lo implies is_digit(#[trigger] s.subrange(lo, hi)[i]) by {
        assert(s.subrange(lo, hi)[i] == s[lo + i]);
    }
}

/// Reads a percentage, in hundredths of a percent; see `percentage_of`.
pub fn parse_percentage(b: &[u8]) -> (r: Result<u16, ParsePercentageError>)
    ensures
        agrees(r, percentage_of(b@)),
{
    let negative = b.len() > 0 && b[0] == 45;
    let start: usize = if b.len() > 0 && (b[0] == 43 || b[0] == 45) {
        1
    } else {
        0
    };
    let body = copy_range(b, start, b.len());
    let ghost bd = b@.skip(start as int);
    assert(body@ =~= bd);
    if is_infinity(body.as_slice()) {
        return if negative {
            Err(ParsePercentageError::Negative)
        } else {
            Err(ParsePercentageError::TooBig)
        };
    }
    let e = find_either(body.as_slice(), 101, 69);
    let mant = copy_range(body.as_slice(), 0, e);
    assert(mant@ =~= mantissa(bd));
    let xt = if e < body.len() {
        copy_range(body.as_slice(), e + 1, body.len())
    } else {
        Vec::new()
    };
    assert(xt@ =~= exponent_text(bd));
    let xs: usize = if xt.len() > 0 && (xt[0] == 43 || xt[0] == 45) {
        1
    } else {
        0
    };
    let xneg = xt.len() > 0 && xt[0] == 45;
    let xd = copy_range(xt.as_slice(), xs, xt.len());
    assert(xd@ =~= exponent_digits(bd));
    let p = find_either(mant.as_slice(), 46, 46);
    let whole = copy_range(mant.as_slice(), 0, p);
    assert(whole@ =~= integral(bd));
    let frac = if p < mant.len() {
        copy_range(mant.as_slice(), p + 1, mant.len())
    } else {
        Vec::new()
    };
    assert(frac@ =~= fraction(bd));
    if !digits_ok(whole.as_slice()) || !digits_ok(frac.as_slice()) || whole.len() + frac.len() < 1
        || (e < body.len() && (xd.len() < 1 || !digits_ok(xd.as_slice()))) {
        return Err(ParsePercentageError::Malformed);
    }
    let mut ds = copy_range(whole.as_slice(), 0, whole.len());
    push_range(&mut ds, frac.as_slice(), 0, frac.len());
    assert(ds@ =~= integral(bd) + fraction(bd));
    if !(e < body.len()) {
        assert(xd@.len() == 0);
    }
    let r = scale_digits(&ds, negative, xneg, &xd, frac.len());
    assert(fraction(bd).len() == frac@.len());
    r
}

/// The percentage that the digits `ds` write, shifted by the exponent that `xd` writes
/// (negated when `xneg`) less `f` fraction digits.
#[verifier::rlimit(40)]
fn scale_digits(ds: &Vec<u8>, negative: bool, xneg: bool, xd: &Vec<u8>, f: usize) -> (r: Result<
    u16,
    ParsePercentageError,
>)
    requires
        all_digits(ds@),
        all_digits(xd@),
    ensures
        agrees(
            r,
            numeric_outcome(
                digits_value(ds@),
                negative,
                (if xneg { -digits_value(xd@) } else { digits_value(xd@) }) - f + 2,
            ),
        ),
{
    let ghost dd = ds@;
    let ghost d = digits_value(dd);
    proof {
        lemma_digits_bound(dd);
    }
    let nz = capped_value(ds.as_slice(), 1);
    if negative && nz == 1 {
        return Err(ParsePercentageError::Negative);
    }
    if nz == 0 {
        assert(d == 0);
        proof {
            let t0 = (if xneg { -digits_value(xd@) } else { digits_value(xd@) }) - f + 2;
            lemma_pow10_pos(t0 as nat);
            lemma_pow10_pos((-t0) as nat);
        }
        return Ok(0);
    }
    assert(d >= 1);
    let ec = capped_value(xd.as_slice(), EXPONENT_CAP);
    let ghost ev = digits_value(xd@);
    proof {
        lemma_digits_bound(xd@);
    }
    let f = f as i128;
    let t: i128 = if xneg {
        -(ec as i128) - f + 2
    } else {
        ec as i128 - f + 2
    };
    let ghost tt = (if xneg { -ev } else { ev }) - f + 2;
    proof {
        lemma_pow10_small();
    }
    if t >= 5 {
        proof {
            assert(tt >= t);
            lemma_pow10_mono(5, tt as nat);
            let q = pow10(tt as nat);
            assert(d * q > 10000) by (nonlinear_arith)
                requires d >= 1, q >= 100000;
        }
        return Err(ParsePercentageError::TooBig);
    }
    if t >= 0 {
        assert(tt == t);
        let dc = capped_value(ds.as_slice(), 10001);
        let pw: u128 = if t == 0 {
            1
        } else if t == 1 {
            10
        } else if t == 2 {
            100
        } else if t == 3 {
            1000
        } else {
            10000
        };
        assert(pw == pow10(tt as nat));
        let c = dc * pw;
        proof {
            if dc == 10001 {
                assert(d * pw > 10000) by (nonlinear_arith)
                    requires d >= 10001, pw >= 1;
            }
        }
        if c > 10000 {
            Err(ParsePercentageError::TooBig)
        } else {
            Ok(c as u16)
        }
    } else {
        let m = -t;
        if m >= ds.len() as i128 {
            proof {
                assert(tt <= t);
                let mm = (-tt) as nat;
                lemma_pow10_mono(dd.len(), mm);
                let q = pow10(mm);
                assert(d / q == 0 && !(d > 10000 * q)) by (nonlinear_arith)
                    requires 0 <= d < q;
            }
            return Ok(0);
        }
        assert(tt == t);
        let k = ds.len() - m as usize;
        let a = copy_range(ds.as_slice(), 0, k);
        let rest = copy_range(ds.as_slice(), k, ds.len());
        proof {
            lemma_sub_digits(dd, 0, k as int);
            lemma_sub_digits(dd, k as int, dd.len() as int);
            assert(dd =~= a@ + rest@);
            lemma_digits_concat(a@, rest@);
            lemma_digits_bound(rest@);
            lemma_digits_bound(a@);
        }
        let ac = capped_value(a.as_slice(), 10001);
        let rnz = capped_value(rest.as_slice(), 1);
        proof {
            let q = pow10(m as nat);
            let av = digits_value(a@);
            let rv = digits_value(rest@);
            assert(d == av * q + rv);
            assert(d / q == av) by (nonlinear_arith)
                requires d == av * q + rv, 0 <= rv < q, av >= 0;
            assert(d > 10000 * q <==> av > 10000 || (av == 10000 && rv > 0)) by (nonlinear_arith)
                requires d == av * q + rv, 0 <= rv < q, av >= 0, q >= 1;
        }
        if ac > 10000 || (ac == 10000 && rnz == 1) {
            Err(ParsePercentageError::TooBig)
        } else {
            Ok(ac as u16)
        }
    }
}

} // verus!
