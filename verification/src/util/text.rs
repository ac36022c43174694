use vstd::prelude::*;

verus! {

/// The character for one decimal digit value.
pub open spec fn dec_digit(d: int) -> char {
    if d == 0 {
        '0'
    } else if d == 1 {
        '1'
    } else if d == 2 {
        '2'
    } else if d == 3 {
        '3'
    } else if d == 4 {
        '4'
    } else if d == 5 {
        '5'
    } else if d == 6 {
        '6'
    } else if d == 7 {
        '7'
    } else if d == 8 {
        '8'
    } else {
        '9'
    }
}

/// The decimal digit string of a nonnegative number, most significant
/// digit first, without leading zeros (a single zero for 0).
pub open spec fn dec_seq(n: int) -> Seq<char>
    decreases n,
{
    if n < 10 {
        seq![dec_digit(n)]
    } else {
        dec_seq(n / 10).push(dec_digit(n % 10))
    }
}

/// The decimal digit string of a signed number: a minus sign followed
/// by the digits of the magnitude, or just the digits when nonnegative.
pub open spec fn dec_seq_signed(v: int) -> Seq<char> {
    if v < 0 {
        seq!['-'] + dec_seq(-v)
    } else {
        dec_seq(v)
    }
}

/// The character for one hexadecimal digit value, upper case.
pub open spec fn hex_digit(d: int) -> char {
    if d < 10 {
        dec_digit(d)
    } else if d == 10 {
        'A'
    } else if d == 11 {
        'B'
    } else if d == 12 {
        'C'
    } else if d == 13 {
        'D'
    } else if d == 14 {
        'E'
    } else {
        'F'
    }
}

/// Two hexadecimal digits for one byte, zero-padded.
pub open spec fn hex_seq2(n: int) -> Seq<char> {
    seq![hex_digit(n / 16), hex_digit(n % 16)]
}

/// A fixed-point value held in thousandths, printed with five decimal
/// places as a plain decimal numeral (the last two places are zero).
pub open spec fn milli_seq(v: int) -> Seq<char> {
    if v < 0 {
        seq!['-'] + milli_seq_abs(-v)
    } else {
        milli_seq_abs(v)
    }
}

/// The five-decimal rendering of a nonnegative count of thousandths.
pub open spec fn milli_seq_abs(v: int) -> Seq<char> {
    dec_seq(v / 1000) + seq!['.'] + dec_seq3(v % 1000) + seq!['0', '0']
}

/// Three decimal digits, zero-padded.
pub open spec fn dec_seq3(v: int) -> Seq<char> {
    seq![dec_digit(v / 100), dec_digit((v / 10) % 10), dec_digit(v % 10)]
}

/// An alpha byte as a fraction of 255, rounded to thousandths.
pub open spec fn alpha_milli(a: int) -> int {
    (2000 * a + 255) / 510
}

/// An alpha byte rendered as a fraction of 255 with three decimal
/// places: `1.000` for full alpha, else `0.` and three digits.
pub open spec fn alpha_fraction_seq(a: int) -> Seq<char> {
    if alpha_milli(a) >= 1000 {
        "1.000"@
    } else {
        "0."@ + dec_seq3(alpha_milli(a))
    }
}

/// A single decimal digit as a string literal.
fn digit_str(d: u64) -> (r: &'static str)
    requires
        d < 10,
    ensures
        r@ == seq![dec_digit(d as int)],
{
    proof {
        reveal_strlit("0");
        reveal_strlit("1");
        reveal_strlit("2");
        reveal_strlit("3");
        reveal_strlit("4");
        reveal_strlit("5");
        reveal_strlit("6");
        reveal_strlit("7");
        reveal_strlit("8");
        reveal_strlit("9");
    }
    match d {
        0 => "0",
        1 => "1",
        2 => "2",
        3 => "3",
        4 => "4",
        5 => "5",
        6 => "6",
        7 => "7",
        8 => "8",
        _ => "9",
    }
}

/// A single upper-case hexadecimal digit as a string literal.
fn hex_digit_str(d: u64) -> (r: &'static str)
    requires
        d < 16,
    ensures
        r@ == seq![hex_digit(d as int)],
{
    if d < 10 {
        digit_str(d)
    } else {
        proof {
            reveal_strlit("A");
            reveal_strlit("B");
            reveal_strlit("C");
            reveal_strlit("D");
            reveal_strlit("E");
            reveal_strlit("F");
        }
        match d {
            10 => "A",
            11 => "B",
            12 => "C",
            13 => "D",
            14 => "E",
            _ => "F",
        }
    }
}

/// The decimal numeral of an unsigned number.
pub fn decimal_u64(n: u64) -> (r: String)
    ensures
        r@ == dec_seq(n as int),
    decreases n,
{
    if n < 10 {
        let mut s = String::new();
        s.append(digit_str(n));
        s
    } else {
        let mut s = decimal_u64(n / 10);
        s.append(digit_str(n % 10));
        proof {
            assert(s@ =~= dec_seq(n as int));
        }
        s
    }
}

/// The decimal numeral of a signed number, with a leading minus sign
/// when negative.
pub fn decimal_i64(v: i64) -> (r: String)
    requires
        v > i64::MIN,
    ensures
        r@ == dec_seq_signed(v as int),
{
    if v < 0 {
        let mut s = String::new();
        proof {
            reveal_strlit("-");
        }
        s.append("-");
        let digits = decimal_u64((-v) as u64);
        s.append(digits.as_str());
        proof {
            assert(s@ =~= dec_seq_signed(v as int));
        }
        s
    } else {
        decimal_u64(v as u64)
    }
}

/// Appends the two-digit hexadecimal form of a byte.
pub fn append_hex2(s: &mut String, n: u8)
    ensures
        final(s)@ == old(s)@ + hex_seq2(n as int),
{
    s.append(hex_digit_str((n as u64) / 16));
    s.append(hex_digit_str((n as u64) % 16));
    proof {
        assert(s@ =~= old(s)@ + hex_seq2(n as int));
    }
}

/// An alpha byte rendered as a fraction of 255 with three decimals.
pub fn alpha_fraction(a: u8) -> (r: String)
    ensures
        r@ == alpha_fraction_seq(a as int),
{
    let m: u64 = (2000 * (a as u64) + 255) / 510;
    if m >= 1000 {
        String::from_str("1.000")
    } else {
        let mut s = String::new();
        proof {
            reveal_strlit("0.");
        }
        s.append("0.");
        s.append(digit_str(m / 100));
        s.append(digit_str((m / 10) % 10));
        s.append(digit_str(m % 10));
        proof {
            assert(s@ =~= alpha_fraction_seq(a as int));
        }
        s
    }
}

/// The five-decimal rendering of a fixed-point count of thousandths.
pub fn decimal_milli(v: i64) -> (r: String)
    requires
        v > i64::MIN,
    ensures
        r@ == milli_seq(v as int),
{
    let mut s = String::new();
    proof {
        reveal_strlit("-");
        reveal_strlit(".");
        reveal_strlit("00");
    }
    let m: u64 = if v < 0 {
        s.append("-");
        (-v) as u64
    } else {
        v as u64
    };
    let whole = decimal_u64(m / 1000);
    s.append(whole.as_str());
    s.append(".");
    let frac = m % 1000;
    s.append(digit_str(frac / 100));
    s.append(digit_str((frac / 10) % 10));
    s.append(digit_str(frac % 10));
    s.append("00");
    proof {
        assert(s@ =~= milli_seq(v as int));
    }
    s
}

} // verus!
