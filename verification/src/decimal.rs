//! Runs of decimal digits and the numbers they stand for, and how numbers written as
//! digits times a power of ten compare.

use vstd::prelude::*;

verus! {

/// Every character is a decimal digit.
pub open spec fn all_digits(d: Seq<char>) -> bool {
    forall|i: int| 0 <= i < d.len() ==> '0' <= #[trigger] d[i] <= '9'
}

/// The value of a decimal digit character.
pub open spec fn digit_of(c: char) -> nat {
    ((c as u32) - 48) as nat
}

/// The value of a run of decimal digits.
pub open spec fn digits_value(d: Seq<char>) -> nat
    decreases d.len(),
{
    if d.len() == 0 {
        0
    } else {
        digits_value(d.drop_last()) * 10 + digit_of(d.last())
    }
}

/// The value of the first `i` digits of `d`.
pub open spec fn prefix_value(d: Seq<char>, i: nat) -> nat
    decreases i,
{
    if i == 0 {
        0
    } else {
        prefix_value(d, (i - 1) as nat) * 10 + digit_of(d[i - 1])
    }
}

/// Ten to the power `n`.
pub open spec fn pow10(n: nat) -> nat
    decreases n,
{
    if n == 0 {
        1
    } else {
        10 * pow10((n - 1) as nat)
    }
}

/// `n1 · 10^e1 ≤ n2 · 10^e2`.
pub open spec fn le_scaled(n1: nat, e1: int, n2: nat, e2: int) -> bool {
    let g = if e1 <= e2 {
        e1
    } else {
        e2
    };
    n1 * pow10((e1 - g) as nat) <= n2 * pow10((e2 - g) as nat)
}

/// `k` zero digits.
pub open spec fn zeros(k: nat) -> Seq<char> {
    Seq::new(k, |i: int| '0')
}

/// Every power of ten is at least one.
pub proof fn lemma_pow10_positive(n: nat)
    ensures
        pow10(n) >= 1,
    decreases n,
{
    if n > 0 {
        lemma_pow10_positive((n - 1) as nat);
    }
}

/// Powers of ten multiply by adding their exponents.
pub proof fn lemma_pow10_add(a: nat, b: nat)
    ensures
        pow10(a + b) == pow10(a) * pow10(b),
    decreases a,
{
    if a == 0 {
        assert(pow10(a) == 1);
        assert(pow10(a) * pow10(b) == pow10(b)) by (nonlinear_arith)
            requires
                pow10(a) == 1,
        ;
    } else {
        let a1 = (a - 1) as nat;
        lemma_pow10_add(a1, b);
        let p = pow10(a1);
        let q = pow10(b);
        assert(a1 + b + 1 == a + b);
        assert(pow10(a + b) == 10 * pow10(a1 + b));
        assert(pow10(a) == 10 * p);
        assert(pow10(a) * q == 10 * (p * q)) by (nonlinear_arith)
            requires
                pow10(a) == 10 * p,
        ;
    }
}

/// Powers of ten grow with their exponent.
pub proof fn lemma_pow10_le(a: nat, b: nat)
    requires
        a <= b,
    ensures
        pow10(a) <= pow10(b),
    decreases b,
{
    if a < b {
        lemma_pow10_le(a, (b - 1) as nat);
        lemma_pow10_positive((b - 1) as nat);
    }
}

/// The value of `d` is read digit by digit from the front.
pub proof fn lemma_prefix_value(d: Seq<char>, i: nat)
    requires
        i <= d.len(),
    ensures
        prefix_value(d, i) == digits_value(d.take(i as int)),
    decreases i,
{
    if i > 0 {
        lemma_prefix_value(d, (i - 1) as nat);
        assert(d.take(i as int).drop_last() =~= d.take(i - 1));
    } else {
        assert(d.take(0) =~= Seq::<char>::empty());
    }
}

/// Digits after digits: the first run's value is shifted by the length of the second.
pub proof fn lemma_digits_append(a: Seq<char>, b: Seq<char>)
    ensures
        digits_value(a + b) == digits_value(a) * pow10(b.len()) + digits_value(b),
    decreases b.len(),
{
    if b.len() == 0 {
        assert(a + b =~= a);
        assert(pow10(b.len()) == 1);
        assert(digits_value(a) * pow10(b.len()) == digits_value(a)) by (nonlinear_arith)
            requires
                pow10(b.len()) == 1,
        ;
    } else {
        assert((a + b).drop_last() =~= a + b.drop_last());
        assert((a + b).last() == b.last());
        lemma_digits_append(a, b.drop_last());
        let va = digits_value(a);
        let p = pow10((b.len() - 1) as nat);
        let vb = digits_value(b.drop_last());
        let d = digit_of(b.last());
        assert(digits_value(a + b) == va * pow10(b.len()) + digits_value(b)) by (nonlinear_arith)
            requires
                digits_value(a + b) == digits_value(a + b.drop_last()) * 10 + d,
                digits_value(a + b.drop_last()) == va * p + vb,
                pow10(b.len()) == 10 * p,
                digits_value(b) == vb * 10 + d,
        ;
    }
}

/// A run of digits is below ten to the power of its length.
pub proof fn lemma_digits_below(d: Seq<char>)
    requires
        all_digits(d),
    ensures
        digits_value(d) < pow10(d.len()),
    decreases d.len(),
{
    if d.len() > 0 {
        assert(all_digits(d.drop_last())) by {
            assert forall|i: int| 0 <= i < d.drop_last().len() implies '0' <= #[trigger] d.drop_last()[i]
                <= '9' by {
                assert(d.drop_last()[i] == d[i]);
            }
        }
        lemma_digits_below(d.drop_last());
        assert('0' <= d[d.len() - 1] <= '9');
        let v = digits_value(d.drop_last());
        let p = pow10((d.len() - 1) as nat);
        let x = digit_of(d.last());
        assert(x <= 9);
        assert(v * 10 + x < 10 * p) by (nonlinear_arith)
            requires
                v < p,
                x <= 9,
        ;
    }
}

/// A run of digits that does not start with zero is at least ten to the power of its length
/// less one.
pub proof fn lemma_digits_at_least(d: Seq<char>)
    requires
        all_digits(d),
        d.len() >= 1,
        d[0] != '0',
    ensures
        digits_value(d) >= pow10((d.len() - 1) as nat),
    decreases d.len(),
{
    if d.len() == 1 {
        assert(d.drop_last() =~= Seq::<char>::empty());
        assert('0' <= d[0] <= '9');
    } else {
        let s = d.drop_last();
        assert(s[0] == d[0]);
        assert(all_digits(s)) by {
            assert forall|i: int| 0 <= i < s.len() implies '0' <= #[trigger] s[i] <= '9' by {
                assert(s[i] == d[i]);
            }
        }
        lemma_digits_at_least(s);
        let v = digits_value(s);
        let p = pow10((s.len() - 1) as nat);
        assert(v * 10 >= 10 * p) by (nonlinear_arith)
            requires
                v >= p,
        ;
    }
}

/// Zeros in front of digits leave their value as it is.
pub proof fn lemma_leading_zeros(z: Seq<char>, b: Seq<char>)
    requires
        forall|i: int| 0 <= i < z.len() ==> #[trigger] z[i] == '0',
    ensures
        digits_value(z + b) == digits_value(b),
    decreases z.len(),
{
    lemma_digits_append(z, b);
    lemma_zeros_value(z);
}

proof fn lemma_zeros_value(z: Seq<char>)
    requires
        forall|i: int| 0 <= i < z.len() ==> #[trigger] z[i] == '0',
    ensures
        digits_value(z) == 0,
    decreases z.len(),
{
    if z.len() > 0 {
        let s = z.drop_last();
        assert forall|i: int| 0 <= i < s.len() implies #[trigger] s[i] == '0' by {
            assert(s[i] == z[i]);
        }
        lemma_zeros_value(s);
        assert(z.last() == '0');
    }
}

/// Zeros after digits multiply their value by ten for each.
pub proof fn lemma_trailing_zeros(a: Seq<char>, k: nat)
    ensures
        digits_value(a + zeros(k)) == digits_value(a) * pow10(k),
{
    lemma_digits_append(a, zeros(k));
    lemma_zeros_value(zeros(k));
}

proof fn lemma_single_digit(c: char)
    ensures
        digits_value(seq![c]) == digit_of(c),
{
    let s = seq![c];
    assert(s.drop_last() =~= Seq::<char>::empty());
    assert(digits_value(Seq::<char>::empty()) == 0);
    assert(s.last() == c);
}

/// Of two runs of digits of one length, the one with the smaller digit where they first
/// differ is the smaller.
pub proof fn lemma_first_difference(a: Seq<char>, b: Seq<char>, k: int)
    requires
        all_digits(a),
        all_digits(b),
        a.len() == b.len(),
        0 <= k < a.len(),
        forall|i: int| 0 <= i < k ==> a[i] == b[i],
        a[k] < b[k],
    ensures
        digits_value(a) < digits_value(b),
{
    let n = a.len();
    let m = (n - k - 1) as nat;
    let ra = a.skip(k + 1);
    let rb = b.skip(k + 1);
    assert(a =~= a.take(k) + (seq![a[k]] + ra));
    assert(b =~= b.take(k) + (seq![b[k]] + rb));
    assert(a.take(k) =~= b.take(k));
    lemma_digits_append(a.take(k), seq![a[k]] + ra);
    lemma_digits_append(b.take(k), seq![b[k]] + rb);
    lemma_digits_append(seq![a[k]], ra);
    lemma_digits_append(seq![b[k]], rb);
    lemma_single_digit(a[k]);
    lemma_single_digit(b[k]);
    assert(all_digits(ra)) by {
        assert forall|i: int| 0 <= i < ra.len() implies '0' <= #[trigger] ra[i] <= '9' by {
            assert(ra[i] == a[i + k + 1]);
        }
    }
    lemma_digits_below(ra);
    assert('0' <= a[k] <= '9' && '0' <= b[k] <= '9');
    let x = digits_value(seq![a[k]]);
    let y = digits_value(seq![b[k]]);
    assert(x == digit_of(a[k]) && y == digit_of(b[k]));
    assert(x < y);
    let p = pow10(m);
    let va = digits_value(ra);
    let vb = digits_value(rb);
    let sa = seq![a[k]] + ra;
    let sb = seq![b[k]] + rb;
    assert(ra.len() == m && rb.len() == m);
    assert(digits_value(sa) < digits_value(sb)) by (nonlinear_arith)
        requires
            digits_value(sa) == x * p + va,
            digits_value(sb) == y * p + vb,
            x < y,
            va < p,
            vb >= 0,
    ;
    let h = digits_value(a.take(k));
    let q = pow10(sa.len());
    assert(sa.len() == sb.len());
    assert(digits_value(a) == h * q + digits_value(sa));
    assert(digits_value(b) == h * q + digits_value(sb));
}

/// How a number of `kx` significant digits times `10^ex` compares with one of `ky` digits
/// times `10^ey`: the one whose leading digit stands higher is the larger, and at equal
/// height they compare as their digits padded with zeros to one length.
pub proof fn lemma_compare_scaled(x: Seq<char>, ex: int, y: Seq<char>, ey: int)
    requires
        all_digits(x),
        all_digits(y),
        x.len() >= 1,
        y.len() >= 1,
        x[0] != '0',
        y[0] != '0',
    ensures
        x.len() + ex < y.len() + ey ==> le_scaled(digits_value(x), ex, digits_value(y), ey),
        x.len() + ex > y.len() + ey ==> !le_scaled(digits_value(x), ex, digits_value(y), ey),
        x.len() + ex == y.len() + ey ==> (le_scaled(digits_value(x), ex, digits_value(y), ey) <==> (if x.len()
            >= y.len() {
            digits_value(x) <= digits_value(y + zeros((x.len() - y.len()) as nat))
        } else {
            digits_value(x + zeros((y.len() - x.len()) as nat)) <= digits_value(y)
        })),
{
    let vx = digits_value(x);
    let vy = digits_value(y);
    let kx = x.len() as int;
    let ky = y.len() as int;
    let g = if ex <= ey {
        ex
    } else {
        ey
    };
    let a = (ex - g) as nat;
    let b = (ey - g) as nat;
    lemma_digits_below(x);
    lemma_digits_below(y);
    lemma_digits_at_least(x);
    lemma_digits_at_least(y);
    if kx + ex < ky + ey {
        // vx · 10^a < 10^(kx + a) ≤ 10^(ky − 1 + b) ≤ vy · 10^b
        lemma_pow10_add(kx as nat, a);
        lemma_pow10_add((ky - 1) as nat, b);
        lemma_pow10_le((kx + a) as nat, (ky - 1 + b) as nat);
        let pa = pow10(a);
        let pb = pow10(b);
        lemma_pow10_positive(a);
        lemma_pow10_positive(b);
        assert(vx * pa < pow10(kx as nat) * pa) by (nonlinear_arith)
            requires
                vx < pow10(kx as nat),
                pa >= 1,
        ;
        assert(pow10((ky - 1) as nat) * pb <= vy * pb) by (nonlinear_arith)
            requires
                pow10((ky - 1) as nat) <= vy,
                pb >= 1,
        ;
    } else if kx + ex > ky + ey {
        lemma_pow10_add(ky as nat, b);
        lemma_pow10_add((kx - 1) as nat, a);
        lemma_pow10_le((ky + b) as nat, (kx - 1 + a) as nat);
        let pa = pow10(a);
        let pb = pow10(b);
        lemma_pow10_positive(a);
        lemma_pow10_positive(b);
        assert(vy * pb < pow10(ky as nat) * pb) by (nonlinear_arith)
            requires
                vy < pow10(ky as nat),
                pb >= 1,
        ;
        assert(pow10((kx - 1) as nat) * pa <= vx * pa) by (nonlinear_arith)
            requires
                pow10((kx - 1) as nat) <= vx,
                pa >= 1,
        ;
    } else {
        if kx >= ky {
            assert(a == 0);
            assert(b == (kx - ky) as nat);
            lemma_trailing_zeros(y, b);
        } else {
            assert(b == 0);
            assert(a == (ky - kx) as nat);
            lemma_trailing_zeros(x, a);
        }
    }
}

} // verus!
