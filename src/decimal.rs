use vstd::prelude::*;

verus! {

/// `10^n`.
pub open spec fn pow10(n: nat) -> int
    decreases n,
{
    if n == 0 {
        1
    } else {
        10 * pow10((n - 1) as nat)
    }
}

pub proof fn lemma_pow10_positive(n: nat)
    ensures
        pow10(n) > 0,
    decreases n,
{
    if n > 0 {
        lemma_pow10_positive((n - 1) as nat);
    }
}

pub proof fn lemma_pow10_add(a: nat, b: nat)
    ensures
        pow10(a + b) == pow10(a) * pow10(b),
    decreases b,
{
    if b > 0 {
        lemma_pow10_add(a, (b - 1) as nat);
        assert(pow10(a + b) == 10 * pow10((a + b - 1) as nat));
        assert(pow10(a) * pow10(b) == pow10(a) * (10 * pow10((b - 1) as nat)));
        assert(pow10(a) * (10 * pow10((b - 1) as nat)) == 10 * (pow10(a) * pow10(
            (b - 1) as nat,
        ))) by (nonlinear_arith);
    }
}

/// `10^n` as a machine integer.
pub fn pow10_u64(n: u32) -> (r: u64)
    requires
        n <= 19,
    ensures
        r == pow10(n as nat),
{
    let mut r: u64 = 1;
    let mut i: u32 = 0;
    while i < n
        invariant
            i <= n <= 19,
            r == pow10(i as nat),
            r <= 10000000000000000000u64,
        decreases n - i,
    {
        proof {
            lemma_pow10_monotone((i + 1) as nat, 19);
            assert(pow10(19) == 10000000000000000000int) by {
                reveal_with_fuel(pow10, 20);
            }
        }
        r = r * 10;
        i = i + 1;
    }
    r
}

pub proof fn lemma_pow10_monotone(a: nat, b: nat)
    requires
        a <= b,
    ensures
        pow10(a) <= pow10(b),
    decreases b - a,
{
    if a < b {
        lemma_pow10_monotone(a, (b - 1) as nat);
        lemma_pow10_positive((b - 1) as nat);
    }
}

/// The character of a decimal digit.
pub open spec fn digit_char(d: int) -> char {
    if d == 0 {
        '0'
    } else if d == 1 {
        '1'
    } else if d == 2 {
        '2'
    } else if d == 3 {
        '3'
    } else if d == 4 {
        '4'
    } else if d == 5 {
        '5'
    } else if d == 6 {
        '6'
    } else if d == 7 {
        '7'
    } else if d == 8 {
        '8'
    } else {
        '9'
    }
}

/// The decimal digits of `n`, without leading zeros ("0" for zero).
pub open spec fn digits_of(n: nat) -> Seq<char>
    decreases n,
{
    if n < 10 {
        seq![digit_char(n as int)]
    } else {
        digits_of(n / 10).push(digit_char((n % 10) as int))
    }
}

/// The last `width` decimal digits of `n`, padded with leading zeros.
pub open spec fn padded_digits(n: nat, width: nat) -> Seq<char>
    decreases width,
{
    if width == 0 {
        Seq::empty()
    } else {
        padded_digits(n / 10, (width - 1) as nat).push(digit_char((n % 10) as int))
    }
}

pub open spec fn abs_int(v: int) -> nat {
    if v < 0 {
        (-v) as nat
    } else {
        v as nat
    }
}

/// `value / 10^decimals` in decimal notation with exactly `decimals` digits
/// after the point: a minus sign for negative values, the integer part, then
/// the point and the fraction when `decimals` is not zero.
pub open spec fn fixed_point_text_of(value: int, decimals: nat) -> Seq<char> {
    let a = abs_int(value) as int;
    let sign = if value < 0 {
        seq!['-']
    } else {
        Seq::<char>::empty()
    };
    let whole = digits_of((a / pow10(decimals)) as nat);
    if decimals == 0 {
        sign + whole
    } else {
        sign + whole + seq!['.'] + padded_digits((a % pow10(decimals)) as nat, decimals)
    }
}

fn digit_str(d: u64) -> (r: &'static str)
    requires
        d < 10,
    ensures
        r@ == seq![digit_char(d as int)],
{
    proof {
        reveal_strlit("0");
        reveal_strlit("1");
        reveal_strlit("2");
        reveal_strlit("3");
        reveal_strlit("4");
        reveal_strlit("5");
        reveal_strlit("6");
        reveal_strlit("7");
        reveal_strlit("8");
        reveal_strlit("9");
    }
    let r = if d == 0 {
        "0"
    } else if d == 1 {
        "1"
    } else if d == 2 {
        "2"
    } else if d == 3 {
        "3"
    } else if d == 4 {
        "4"
    } else if d == 5 {
        "5"
    } else if d == 6 {
        "6"
    } else if d == 7 {
        "7"
    } else if d == 8 {
        "8"
    } else {
        "9"
    };
    assert(r@ =~= seq![digit_char(d as int)]);
    r
}

fn push_digits(out: &mut String, n: u64)
    ensures
        final(out)@ == old(out)@ + digits_of(n as nat),
    decreases n,
{
    if n >= 10 {
        push_digits(out, n / 10);
    }
    out.append(digit_str(n % 10));
    assert(final(out)@ =~= old(out)@ + digits_of(n as nat));
}

fn push_padded_digits(out: &mut String, n: u64, width: u32)
    ensures
        final(out)@ == old(out)@ + padded_digits(n as nat, width as nat),
    decreases width,
{
    if width == 0 {
        assert(final(out)@ =~= old(out)@ + padded_digits(n as nat, width as nat));
        return;
    }
    push_padded_digits(out, n / 10, width - 1);
    out.append(digit_str(n % 10));
    assert(final(out)@ =~= old(out)@ + padded_digits(n as nat, width as nat));
}

/// Renders an unsigned integer in decimal.
pub fn unsigned_text(n: u64) -> (r: String)
    ensures
        r@ == digits_of(n as nat),
{
    let mut out = String::new();
    push_digits(&mut out, n);
    assert(out@ =~= digits_of(n as nat));
    out
}

/// Renders the fixed-point value `value / 10^decimals` as decimal text.
pub fn fixed_point_text(value: i64, decimals: u32) -> (r: String)
    requires
        decimals <= 19,
    ensures
        r@ == fixed_point_text_of(value as int, decimals as nat),
{
    let a: u64 = if value < 0 {
        (-(value as i128)) as u64
    } else {
        value as u64
    };
    let p = pow10_u64(decimals);
    proof {
        lemma_pow10_positive(decimals as nat);
    }
    let mut out = String::new();
    if value < 0 {
        proof {
            reveal_strlit("-");
        }
        out.append("-");
    }
    push_digits(&mut out, a / p);
    if decimals > 0 {
        proof {
            reveal_strlit(".");
        }
        out.append(".");
        push_padded_digits(&mut out, a % p, decimals);
    }
    assert(out@ =~= fixed_point_text_of(value as int, decimals as nat));
    out
}

} // verus!
