//! Which texts `f32::from_str` accepts, and which of them read as a value between 0 and 1,
//! decided on the text itself.
//!
//! The accepted texts are those that match, once ASCII letters are made small,
//!
//! ```text
//! Float  ::= Sign? ( 'inf' | 'infinity' | 'nan' | Number )
//! Number ::= ( Digit+ | Digit+ '.' Digit* | Digit* '.' Digit+ ) Exp?
//! Exp    ::= 'e' Sign? Digit+
//! Sign   ::= [+-]
//! ```
//!
//! and the value read is the decimal number rounded to the nearest `f32`, ties to even.

use vstd::prelude::*;
use crate::commands::{ascii_lowercase, to_ascii_lowercase};
use crate::decimal::{
    all_digits, digits_value, le_scaled, prefix_value, pow10, zeros, lemma_compare_scaled,
    lemma_digits_at_least, lemma_first_difference, lemma_leading_zeros, lemma_prefix_value,
};
use crate::strings::is_text;
use crate::text::chars_of;

verus! {

/// What a text reads as under `f32::from_str`.
pub enum FloatReading {
    /// Not a float.
    Invalid,
    /// An infinity.
    Infinite { negative: bool },
    /// Not a number.
    NotANumber,
    /// The decimal number `mantissa · 10^exponent`, negated where `negative` holds.
    Finite { negative: bool, mantissa: nat, exponent: int },
}

/// The place of the first `c` in `s`; the length of `s` where there is none.
pub open spec fn find_char(s: Seq<char>, c: char) -> nat
    decreases s.len(),
{
    if s.len() == 0 {
        0
    } else if s[0] == c {
        0
    } else {
        1 + find_char(s.drop_first(), c)
    }
}

/// Whether `s` starts with a minus sign, and `s` without its leading sign if it has one.
pub open spec fn sign_split(s: Seq<char>) -> (bool, Seq<char>) {
    if s.len() > 0 && (s[0] == '+' || s[0] == '-') {
        (s[0] == '-', s.drop_first())
    } else {
        (false, s)
    }
}

/// What `f32::from_str` reads the text as.
pub open spec fn float_reading(s: Seq<char>) -> FloatReading {
    let (negative, body) = sign_split(ascii_lowercase(s));
    if body == "inf"@ || body == "infinity"@ {
        FloatReading::Infinite { negative }
    } else if body == "nan"@ {
        FloatReading::NotANumber
    } else {
        number_reading(body, negative)
    }
}

/// The parts of a number's text: the digits before the point, those after it, whether an
/// exponent follows, whether it is negative, and its digits.
pub open spec fn number_parts(body: Seq<char>) -> (Seq<char>, Seq<char>, bool, bool, Seq<char>) {
    let e_at = find_char(body, 'e');
    let has_exp = e_at < body.len();
    let mant = body.take(e_at as int);
    let d_at = find_char(mant, '.');
    let int_part = mant.take(d_at as int);
    let frac_part = if d_at < mant.len() {
        mant.skip(d_at + 1int)
    } else {
        Seq::empty()
    };
    let (exp_negative, exp_digits) = sign_split(
        if has_exp {
            body.skip(e_at + 1int)
        } else {
            Seq::empty()
        },
    );
    (int_part, frac_part, has_exp, exp_negative, exp_digits)
}

/// What the text of a number (after its sign) reads as.
pub open spec fn number_reading(body: Seq<char>, negative: bool) -> FloatReading {
    let (int_part, frac_part, has_exp, exp_negative, exp_digits) = number_parts(body);
    if all_digits(int_part) && all_digits(frac_part) && int_part.len() + frac_part.len() >= 1 && (!has_exp
        || (exp_digits.len() >= 1 && all_digits(exp_digits))) {
        let e = if exp_negative {
            -digits_value(exp_digits)
        } else {
            digits_value(exp_digits) as int
        };
        FloatReading::Finite {
            negative,
            mantissa: digits_value(int_part + frac_part),
            exponent: e - frac_part.len(),
        }
    } else {
        FloatReading::Invalid
    }
}

/// `f32::from_str` accepts the text.
pub open spec fn reads_as_float(s: Seq<char>) -> bool {
    !(float_reading(s) is Invalid)
}

/// `b` to the power `e`.
pub open spec fn pow_nat(b: nat, e: nat) -> nat
    decreases e,
{
    if e == 0 {
        1
    } else {
        b * pow_nat(b, (e - 1) as nat)
    }
}

/// The text reads as an `f32` between 0 and 1, both included. Rounding to the nearest `f32`
/// with ties to even takes every number up to 1 + 2^-24 (written here as
/// (2^24 + 1)·5^24 · 10^-24) to at most 1, and every negative number down to -2^-150
/// (5^150 · 10^-150) to -0, which is not below 0; all other numbers, the infinities and
/// not-a-number fall outside.
pub open spec fn reads_in_unit_interval(s: Seq<char>) -> bool {
    match float_reading(s) {
        FloatReading::Finite { negative, mantissa, exponent } => if negative {
            le_scaled(mantissa, exponent, pow_nat(5, 150), -150)
        } else {
            le_scaled(mantissa, exponent, (pow_nat(2, 24) + 1) * pow_nat(5, 24), -24)
        },
        _ => false,
    }
}

/// How far a digit's place is followed exactly; beyond it, only which side it lies on.
pub const PLACE_LIMIT: i128 = 0x1_0000_0000_0000_0000_0000;

/// The largest exponent read exactly; larger ones read as this.
pub const EXP_CAP: i128 = 0x2_0000_0000_0000_0000_0000;

/// `x`, held within `PLACE_LIMIT` on either side.
pub open spec fn clamp_place(x: int) -> int {
    if x > PLACE_LIMIT {
        PLACE_LIMIT as int
    } else if x < -PLACE_LIMIT {
        -PLACE_LIMIT
    } else {
        x
    }
}

/// A text scanned as a float: a finite one as its sign, its significant digits (those after
/// the leading zeros; none for zero) and the place of its first significant digit.
enum FloatScan {
    Invalid,
    Infinite { negative: bool },
    NotANumber,
    Finite { negative: bool, significant: Vec<char>, place: i128 },
}

/// The characters of `s` from `from` up to `to`.
fn slice_chars(s: &[char], from: usize, to: usize) -> (r: Vec<char>)
    requires
        from <= to <= s@.len(),
    ensures
        r@ == s@.subrange(from as int, to as int),
{
    let mut r: Vec<char> = Vec::new();
    let mut i: usize = from;
    while i < to
        invariant
            from <= i <= to,
            to <= s@.len(),
            r@ == s@.subrange(from as int, i as int),
        decreases to - i,
    {
        r.push(s[i]);
        i += 1;
        assert(r@ =~= s@.subrange(from as int, i as int));
    }
    r
}

/// The place of the first `c` in `s`, or its length.
fn find(s: &[char], c: char) -> (r: usize)
    ensures
        r == find_char(s@, c),
        r <= s@.len(),
{
    let mut i: usize = 0;
    assert(s@.skip(0) =~= s@);
    while i < s.len() && s[i] != c
        invariant
            i <= s@.len(),
            find_char(s@, c) == i + find_char(s@.skip(i as int), c),
        decreases s@.len() - i,
    {
        assert(s@.skip(i as int).drop_first() =~= s@.skip(i + 1));
        assert(s@.skip(i as int)[0] == s@[i as int]);
        i += 1;
    }
    proof {
        if i < s@.len() {
            assert(s@.skip(i as int)[0] == c);
        }
    }
    i
}

/// Every character of `s` is a decimal digit.
fn only_digits(s: &[char]) -> (r: bool)
    ensures
        r == all_digits(s@),
{
    let mut i: usize = 0;
    while i < s.len()
        invariant
            i <= s@.len(),
            forall|j: int| 0 <= j < i ==> '0' <= #[trigger] s@[j] <= '9',
        decreases s@.len() - i,
    {
        if s[i] < '0' || s[i] > '9' {
            return false;
        }
        i += 1;
    }
    true
}

/// The value of the digits, or `EXP_CAP` when it is at least that.
fn capped_value(d: &[char]) -> (r: i128)
    requires
        all_digits(d@),
    ensures
        r == (if digits_value(d@) >= EXP_CAP {
            EXP_CAP as int
        } else {
            digits_value(d@) as int
        }),
{
    let mut v: i128 = 0;
    let mut i: usize = 0;
    while i < d.len()
        invariant
            i <= d@.len(),
            all_digits(d@),
            v == (if prefix_value(d@, i as nat) >= EXP_CAP {
                EXP_CAP as int
            } else {
                prefix_value(d@, i as nat) as int
            }),
        decreases d@.len() - i,
    {
        assert('0' <= d@[i as int] <= '9');
        if v < EXP_CAP {
            v = v * 10 + (d[i] as u32 - 48) as i128;
            if v >= EXP_CAP {
                v = EXP_CAP;
            }
        }
        i += 1;
    }
    proof {
        lemma_prefix_value(d@, d@.len());
        assert(d@.take(d@.len() as int) =~= d@);
    }
    v
}

/// `s` after its leading zeros.
fn strip_leading_zeros(s: &[char]) -> (r: Vec<char>)
    ensures
        exists|z: int|
            0 <= z <= s@.len() && r@ == s@.skip(z) && (forall|i: int| 0 <= i < z ==> #[trigger] s@[i] == '0'),
        r@.len() == 0 || r@[0] != '0',
{
    let mut z: usize = 0;
    while z < s.len() && s[z] == '0'
        invariant
            z <= s@.len(),
            forall|i: int| 0 <= i < z ==> #[trigger] s@[i] == '0',
        decreases s@.len() - z,
    {
        z += 1;
    }
    let r = slice_chars(s, z, s.len());
    assert(r@ =~= s@.skip(z as int));
    r
}

/// The scan agrees with what `f32::from_str` reads.
spec fn scan_agrees(r: FloatScan, f: FloatReading) -> bool {
    match r {
        FloatScan::Invalid => f is Invalid,
        FloatScan::Infinite { negative } => f == FloatReading::Infinite { negative },
        FloatScan::NotANumber => f is NotANumber,
        FloatScan::Finite { negative, significant, place } => match f {
            FloatReading::Finite { negative: n, mantissa, exponent } => {
                &&& negative == n
                &&& all_digits(significant@)
                &&& (significant@.len() == 0 || significant@[0] != '0')
                &&& digits_value(significant@) == mantissa
                &&& place == clamp_place(significant@.len() + exponent)
            },
            _ => false,
        },
    }
}

/// `a` followed by `b`.
fn concat_chars(a: &[char], b: &[char]) -> (r: Vec<char>)
    ensures
        r@ == a@ + b@,
{
    let mut r = slice_chars(a, 0, a.len());
    assert(r@ =~= a@);
    let mut i: usize = 0;
    while i < b.len()
        invariant
            i <= b@.len(),
            r@ == a@ + b@.take(i as int),
        decreases b@.len() - i,
    {
        r.push(b[i]);
        i += 1;
        assert(r@ =~= a@ + b@.take(i as int));
    }
    assert(b@.take(b@.len() as int) =~= b@);
    r
}

/// The parts of a number's text.
fn split_number(body: &[char]) -> (r: (Vec<char>, Vec<char>, bool, bool, Vec<char>))
    ensures
        (r.0@, r.1@, r.2, r.3, r.4@) == number_parts(body@),
{
    let e_at = find(body, 'e');
    let mant = slice_chars(body, 0, e_at);
    assert(mant@ =~= body@.take(e_at as int));
    let d_at = find(mant.as_slice(), '.');
    let int_part = slice_chars(mant.as_slice(), 0, d_at);
    assert(int_part@ =~= mant@.take(d_at as int));
    let frac_part = if d_at < mant.len() {
        let f = slice_chars(mant.as_slice(), d_at + 1, mant.len());
        assert(f@ =~= mant@.skip(d_at + 1));
        f
    } else {
        Vec::new()
    };
    let exp_text = if e_at < body.len() {
        let x = slice_chars(body, e_at + 1, body.len());
        assert(x@ =~= body@.skip(e_at + 1));
        x
    } else {
        Vec::new()
    };
    let exp_has_sign = exp_text.len() > 0 && (exp_text[0] == '+' || exp_text[0] == '-');
    let exp_negative = exp_text.len() > 0 && exp_text[0] == '-';
    let exp_start: usize = if exp_has_sign {
        1
    } else {
        0
    };
    let exp_digits = slice_chars(exp_text.as_slice(), exp_start, exp_text.len());
    proof {
        if exp_has_sign {
            assert(exp_digits@ =~= exp_text@.drop_first());
        } else {
            assert(exp_digits@ =~= exp_text@);
        }
        assert(sign_split(exp_text@) == (exp_negative, exp_digits@));
    }
    (int_part, frac_part, e_at < body.len(), exp_negative, exp_digits)
}

/// Reads the text of a number (after its sign).
fn scan_number(body: &[char], negative: bool) -> (r: FloatScan)
    ensures
        scan_agrees(r, number_reading(body@, negative)),
{
    let (int_part, frac_part, has_exp, exp_negative, exp_digits) = split_number(body);
    let valid = only_digits(int_part.as_slice()) && only_digits(frac_part.as_slice()) && (int_part.len()
        >= 1 || frac_part.len() >= 1) && (!has_exp || (exp_digits.len() >= 1 && only_digits(
        exp_digits.as_slice(),
    )));
    if !valid {
        return FloatScan::Invalid;
    }
    let all = concat_chars(int_part.as_slice(), frac_part.as_slice());
    let significant = strip_leading_zeros(all.as_slice());
    let ghost z = choose|z: int|
        0 <= z <= all@.len() && significant@ == all@.skip(z) && (forall|i: int|
            0 <= i < z ==> #[trigger] all@[i] == '0');
    proof {
        assert(all@ =~= all@.take(z) + significant@);
        lemma_leading_zeros(all@.take(z), significant@);
        assert(all_digits(all@)) by {
            assert forall|i: int| 0 <= i < all@.len() implies '0' <= #[trigger] all@[i] <= '9' by {
                if i < int_part@.len() {
                    assert(all@[i] == int_part@[i]);
                } else {
                    assert(all@[i] == frac_part@[i - int_part@.len()]);
                }
            }
        }
        assert(all_digits(significant@)) by {
            assert forall|i: int| 0 <= i < significant@.len() implies '0' <= #[trigger] significant@[i]
                <= '9' by {
                assert(significant@[i] == all@[i + z]);
            }
        }
    }
    let e = capped_value(exp_digits.as_slice());
    let signed_e: i128 = if exp_negative {
        -e
    } else {
        e
    };
    let raw: i128 = significant.len() as i128 + signed_e - frac_part.len() as i128;
    let place: i128 = if raw > PLACE_LIMIT {
        PLACE_LIMIT
    } else if raw < -PLACE_LIMIT {
        -PLACE_LIMIT
    } else {
        raw
    };
    proof {
        let ev = digits_value(exp_digits@);
        let e_true: int = if exp_negative {
            -ev
        } else {
            ev as int
        };
        let exponent = e_true - frac_part@.len();
        assert(significant@.len() <= usize::MAX);
        assert(frac_part@.len() <= usize::MAX);
        assert(place == clamp_place(significant@.len() + exponent));
    }
    FloatScan::Finite { negative, significant, place }
}


/// Reads a text as `f32::from_str` does, without forming the float.
fn scan_float(s: &[char]) -> (r: FloatScan)
    ensures
        scan_agrees(r, float_reading(s@)),
{
    let chars = to_ascii_lowercase(s);
    let ghost l = ascii_lowercase(s@);
    let has_sign = chars.len() > 0 && (chars[0] == '+' || chars[0] == '-');
    let negative = chars.len() > 0 && chars[0] == '-';
    let start: usize = if has_sign {
        1
    } else {
        0
    };
    let body = slice_chars(chars.as_slice(), start, chars.len());
    proof {
        if has_sign {
            assert(body@ =~= l.drop_first());
        } else {
            assert(body@ =~= l);
        }
        assert(sign_split(l) == (negative, body@));
    }
    if is_text(body.as_slice(), "inf") || is_text(body.as_slice(), "infinity") {
        return FloatScan::Infinite { negative };
    }
    if is_text(body.as_slice(), "nan") {
        return FloatScan::NotANumber;
    }
    scan_number(body.as_slice(), negative)
}

/// Whether `f32::from_str` accepts the text.
pub fn is_float_text(s: &[char]) -> (r: bool)
    ensures
        r == reads_as_float(s@),
{
    match scan_float(s) {
        FloatScan::Invalid => false,
        _ => true,
    }
}

/// Whether `x` and `y`, the shorter padded with zeros to the other's length, compare as
/// at most.
fn padded_at_most(x: &[char], y: &[char]) -> (r: bool)
    requires
        all_digits(x@),
        all_digits(y@),
    ensures
        r == (if x@.len() >= y@.len() {
            digits_value(x@) <= digits_value(y@ + zeros((x@.len() - y@.len()) as nat))
        } else {
            digits_value(x@ + zeros((y@.len() - x@.len()) as nat)) <= digits_value(y@)
        }),
{
    let n: usize = if x.len() >= y.len() {
        x.len()
    } else {
        y.len()
    };
    let ghost px = x@ + zeros((n - x@.len()) as nat);
    let ghost py = y@ + zeros((n - y@.len()) as nat);
    proof {
        assert(x@ + zeros(0) =~= x@);
        assert(y@ + zeros(0) =~= y@);
        assert(all_digits(px)) by {
            assert forall|i: int| 0 <= i < px.len() implies '0' <= #[trigger] px[i] <= '9' by {
                if i < x@.len() {
                    assert(px[i] == x@[i]);
                }
            }
        }
        assert(all_digits(py)) by {
            assert forall|i: int| 0 <= i < py.len() implies '0' <= #[trigger] py[i] <= '9' by {
                if i < y@.len() {
                    assert(py[i] == y@[i]);
                }
            }
        }
    }
    let mut j: usize = 0;
    while j < n
        invariant
            j <= n,
            n == px.len(),
            n == py.len(),
            px == x@ + zeros((n - x@.len()) as nat),
            py == y@ + zeros((n - y@.len()) as nat),
            all_digits(px),
            all_digits(py),
            forall|i: int| 0 <= i < j ==> px[i] == py[i],
            n == (if x@.len() >= y@.len() {
                x@.len()
            } else {
                y@.len()
            }),
            n == x@.len() ==> px == x@,
            n == y@.len() ==> py == y@,
        decreases n - j,
    {
        let a = if j < x.len() {
            x[j]
        } else {
            '0'
        };
        let b = if j < y.len() {
            y[j]
        } else {
            '0'
        };
        assert(a == px[j as int] && b == py[j as int]);
        if a < b {
            proof {
                lemma_first_difference(px, py, j as int);
                if x@.len() >= y@.len() {
                    assert(px == x@);
                    assert(py == y@ + zeros((x@.len() - y@.len()) as nat));
                } else {
                    assert(py == y@);
                    assert(px == x@ + zeros((y@.len() - x@.len()) as nat));
                }
            }
            return true;
        }
        if a > b {
            proof {
                lemma_first_difference(py, px, j as int);
                if x@.len() >= y@.len() {
                    assert(px == x@);
                    assert(py == y@ + zeros((x@.len() - y@.len()) as nat));
                } else {
                    assert(py == y@);
                    assert(px == x@ + zeros((y@.len() - x@.len()) as nat));
                }
            }
            return false;
        }
        j += 1;
    }
    assert(px =~= py);
    true
}

/// Whether the number of significant digits `sig` whose first digit stands at `place`
/// (its exponent is `exponent`) is at most `c · 10^c_exp`.
fn at_most_constant(sig: &[char], place: i128, Ghost(exponent): Ghost<int>, c: &[char], c_exp: i128) -> (r: bool)
    requires
        all_digits(sig@),
        sig@.len() >= 1,
        sig@[0] != '0',
        place == clamp_place(sig@.len() + exponent),
        all_digits(c@),
        c@.len() >= 1,
        c@[0] != '0',
        c@.len() <= 1000,
        -1000 <= c_exp <= 1000,
    ensures
        r == le_scaled(digits_value(sig@), exponent, digits_value(c@), c_exp as int),
{
    let c_place: i128 = c.len() as i128 + c_exp;
    proof {
        lemma_compare_scaled(sig@, exponent, c@, c_exp as int);
    }
    if place < c_place {
        true
    } else if place > c_place {
        false
    } else {
        padded_at_most(sig, c)
    }
}

/// Whether the text reads as an `f32` between 0 and 1, both included.
pub fn is_unit_float_text(s: &[char]) -> (r: bool)
    ensures
        r == reads_in_unit_interval(s@),
{
    let scan = scan_float(s);
    match scan {
        FloatScan::Finite { negative, significant, place } => {
            let ghost exponent = float_reading(s@)->exponent;
            if significant.len() == 0 {
                proof {
                    assert(digits_value(significant@) == 0);
                }
                return true;
            }
            proof {
                lemma_evaluate_thresholds();
            }
            if negative {
                let down = chars_of(
                    "700649232162408535461864791644958065640130970938257885878534141944895541342930300743319094181060791015625",
                );
                proof {
                    reveal_strlit(
                        "700649232162408535461864791644958065640130970938257885878534141944895541342930300743319094181060791015625",
                    );
                }
                at_most_constant(significant.as_slice(), place, Ghost(exponent), down.as_slice(), -150)
            } else {
                let up = chars_of("1000000059604644775390625");
                proof {
                    reveal_strlit("1000000059604644775390625");
                }
                at_most_constant(significant.as_slice(), place, Ghost(exponent), up.as_slice(), -24)
            }
        },
        _ => false,
    }
}

proof fn lemma_evaluate_thresholds()
    ensures
        digits_value("1000000059604644775390625"@) == (pow_nat(2, 24) + 1) * pow_nat(5, 24),
        digits_value(
            "700649232162408535461864791644958065640130970938257885878534141944895541342930300743319094181060791015625"@,
        ) == pow_nat(5, 150),
{
    let up = "1000000059604644775390625"@;
    let down =
        "700649232162408535461864791644958065640130970938257885878534141944895541342930300743319094181060791015625"@;
    reveal_strlit("1000000059604644775390625");
    reveal_strlit(
        "700649232162408535461864791644958065640130970938257885878534141944895541342930300743319094181060791015625",
    );
    reveal_with_fuel(prefix_value, 16);
    reveal_with_fuel(pow_nat, 16);
    assert(prefix_value(up, 15) == 100000005960464);
    assert(prefix_value(up, 25) == 1000000059604644775390625);
    assert(prefix_value(down, 15) == 700649232162408);
    assert(prefix_value(down, 30) == 700649232162408535461864791644);
    assert(prefix_value(down, 45) == 700649232162408535461864791644958065640130970);
    assert(prefix_value(down, 60) == 700649232162408535461864791644958065640130970938257885878534);
    assert(prefix_value(down, 75) == 700649232162408535461864791644958065640130970938257885878534141944895541342);
    assert(prefix_value(down, 90)
        == 700649232162408535461864791644958065640130970938257885878534141944895541342930300743319094);
    assert(prefix_value(down, 105)
        == 700649232162408535461864791644958065640130970938257885878534141944895541342930300743319094181060791015625);
    assert(pow_nat(2, 12) == 4096);
    assert(pow_nat(2, 24) == 16777216);
    assert(pow_nat(5, 15) == 30517578125);
    assert(pow_nat(5, 24) == 59604644775390625);
    assert(pow_nat(5, 30) == 931322574615478515625);
    assert(pow_nat(5, 45) == 28421709430404007434844970703125);
    assert(pow_nat(5, 60) == 867361737988403547205962240695953369140625);
    assert(pow_nat(5, 75) == 26469779601696885595885078146238811314105987548828125);
    assert(pow_nat(5, 90) == 807793566946316088741610050849573099185363389551639556884765625);
    assert(pow_nat(5, 105) == 24651903288156618919116517665087069677287701097156968899071216583251953125);
    assert(pow_nat(5, 120) == 752316384526264005099991383822237233803945956334136013765601092018187046051025390625);
    assert(pow_nat(5, 135) == 22958874039497802890014385492621985894895811655704834404467806763250337098725140094757080078125);
    assert(pow_nat(5, 150) == 700649232162408535461864791644958065640130970938257885878534141944895541342930300743319094181060791015625);
    lemma_prefix_value(up, up.len());
    lemma_prefix_value(down, down.len());
    assert(up.take(up.len() as int) =~= up);
    assert(down.take(down.len() as int) =~= down);
}

} // verus!
