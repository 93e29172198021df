//! Numerals: reading them, and writing them out.
use crate::text::{lower, lower_char};
use vstd::prelude::*;

verus! {

/// What the digit `c` is worth in base `radix` (at most 16).
pub open spec fn digit_of(c: char, radix: nat) -> Option<nat> {
    let d: int = if '0' <= c <= '9' {
        c as int - '0' as int
    } else if 'a' <= c <= 'f' {
        c as int - 'a' as int + 10
    } else if 'A' <= c <= 'F' {
        c as int - 'A' as int + 10
    } else {
        16
    };
    if d < radix && d < 16 {
        Some(d as nat)
    } else {
        None
    }
}

/// What the digits `s` are worth in base `radix`; none where one of them is
/// not a digit.
pub open spec fn numeral(s: Seq<char>, radix: nat) -> Option<nat>
    decreases s.len(),
{
    if s.len() == 0 {
        Some(0)
    } else {
        match (numeral(s.drop_last(), radix), digit_of(s.last(), radix)) {
            (Some(v), Some(d)) => Some(v * radix + d),
            _ => None,
        }
    }
}

/// The number that `s` writes in base `radix`: at least one digit, after a `+`
/// or without one.
pub open spec fn unsigned_of(s: Seq<char>, radix: nat) -> Option<nat> {
    let t = if s.len() > 0 && s[0] == '+' {
        s.drop_first()
    } else {
        s
    };
    if t.len() == 0 {
        None
    } else {
        numeral(t, radix)
    }
}

/// `unsigned_of`, where the number is at most `max`.
pub open spec fn unsigned_up_to(s: Seq<char>, radix: nat, max: nat) -> Option<nat> {
    match unsigned_of(s, radix) {
        Some(v) => if v <= max {
            Some(v)
        } else {
            None
        },
        None => None,
    }
}

/// `numeral`, where there is a digit and the number is at most `max`.
pub open spec fn digits_up_to(s: Seq<char>, radix: nat, max: nat) -> Option<nat> {
    match numeral(s, radix) {
        Some(v) => if s.len() > 0 && v <= max {
            Some(v)
        } else {
            None
        },
        None => None,
    }
}

/// Reads one digit.
pub fn read_digit(c: char, radix: u64) -> (r: Option<u64>)
    ensures
        match r {
            Some(d) => digit_of(c, radix as nat) == Some(d as nat) && d < radix,
            None => digit_of(c, radix as nat) is None,
        },
{
    let d: u64 = if '0' <= c && c <= '9' {
        (c as u8 - 48) as u64
    } else if 'a' <= c && c <= 'f' {
        (c as u8 - 87) as u64
    } else if 'A' <= c && c <= 'F' {
        (c as u8 - 55) as u64
    } else {
        16
    };
    if d < radix && d < 16 {
        Some(d)
    } else {
        None
    }
}

proof fn lemma_numeral_grows(s: Seq<char>, n: int, radix: nat)
    requires
        0 <= n <= s.len(),
        radix >= 1,
    ensures
        numeral(s.take(n), radix) is None ==> numeral(s, radix) is None,
        numeral(s, radix) is Some ==> numeral(s, radix)->0 >= numeral(s.take(n), radix)->0,
    decreases s.len(),
{
    if n == s.len() {
        assert(s.take(n) == s);
    } else {
        lemma_numeral_grows(s.drop_last(), n, radix);
        assert(s.drop_last().take(n) == s.take(n));
        if numeral(s.drop_last(), radix) is Some {
            let v = numeral(s.drop_last(), radix)->0;
            assert(v * radix >= v) by (nonlinear_arith)
                requires
                    radix >= 1,
            ;
        }
    }
}

/// Reads the digits `s` in base `radix`, as far as the number is at most `max`.
pub fn read_digits(s: &[char], radix: u64, max: u64) -> (r: Option<u64>)
    requires
        2 <= radix <= 16,
    ensures
        match r {
            Some(v) => digits_up_to(s@, radix as nat, max as nat) == Some(v as nat),
            None => digits_up_to(s@, radix as nat, max as nat) is None,
        },
{
    if s.len() == 0 {
        return None;
    }
    let mut v: u64 = 0;
    for i in 0..s.len()
        invariant
            2 <= radix <= 16,
            s@.len() > 0,
            v <= max,
            numeral(s@.take(i as int), radix as nat) == Some(v as nat),
    {
        proof {
            assert(s@.take(i + 1).drop_last() == s@.take(i as int));
            lemma_numeral_grows(s@, i + 1, radix as nat);
        }
        match read_digit(s[i], radix) {
            Some(d) => {
                assert(v * radix + d <= u64::MAX * 16 + 16) by (nonlinear_arith)
                    requires
                        v <= u64::MAX,
                        2 <= radix <= 16,
                        d < radix,
                ;
                let w: u128 = v as u128 * radix as u128 + d as u128;
                if w > max as u128 {
                    return None;
                }
                v = w as u64;
            },
            None => {
                return None;
            },
        }
    }
    assert(s@.take(s@.len() as int) == s@);
    Some(v)
}

/// Reads the number that `s` writes in base `radix`, as far as it is at most
/// `max`.
pub fn read_unsigned(s: &[char], radix: u64, max: u64) -> (r: Option<u64>)
    requires
        2 <= radix <= 16,
    ensures
        match r {
            Some(v) => unsigned_up_to(s@, radix as nat, max as nat) == Some(v as nat),
            None => unsigned_up_to(s@, radix as nat, max as nat) is None,
        },
{
    if s.len() > 0 && s[0] == '+' {
        let t = vstd::slice::slice_subrange(s, 1, s.len());
        assert(t@ == s@.drop_first());
        read_digits(t, radix, max)
    } else {
        read_digits(s, radix, max)
    }
}

/// The digit of value `d` (less than 16), with small letters.
pub open spec fn small_digit(d: nat) -> char {
    if d < 10 {
        ('0' as u32 + d) as char
    } else {
        ('a' as u32 + d - 10) as char
    }
}

/// The digits of `n` in base `radix` (2 to 16), without leading zeros.
pub open spec fn digits(n: nat, radix: nat) -> Seq<char>
    decreases n,
{
    if n < radix || radix < 2 {
        seq![small_digit(n)]
    } else {
        proof {
            assert(n / radix < n) by (nonlinear_arith)
                requires
                    2 <= radix <= n,
            ;
        }
        digits(n / radix, radix).push(small_digit(n % radix))
    }
}

/// `n` in decimal.
pub open spec fn decimal(n: nat) -> Seq<char> {
    digits(n, 10)
}

/// The digit of value `d`.
pub fn digit_char(d: u64) -> (r: char)
    requires
        d < 16,
    ensures
        r == small_digit(d as nat),
{
    if d < 10 {
        (48 + d as u8) as char
    } else {
        (87 + d as u8) as char
    }
}

/// Appends the digits of `n` in base `radix`.
pub fn push_digits(out: &mut String, n: u64, radix: u64)
    requires
        2 <= radix <= 16,
    ensures
        final(out)@ == old(out)@ + digits(n as nat, radix as nat),
    decreases n,
{
    if n < radix {
        out.push(digit_char(n));
    } else {
        assert(n / radix < n) by (nonlinear_arith)
            requires
                2 <= radix <= n,
        ;
        push_digits(out, n / radix, radix);
        out.push(digit_char(n % radix));
    }
}

/// Appends `n` in decimal.
pub fn push_decimal(out: &mut String, n: u64)
    ensures
        final(out)@ == old(out)@ + decimal(n as nat),
{
    push_digits(out, n, 10)
}

/// `n` in decimal, with its sign where it is negative.
pub open spec fn signed(n: int) -> Seq<char> {
    if n < 0 {
        seq!['-'] + decimal((-n) as nat)
    } else {
        decimal(n as nat)
    }
}

/// Appends `n` in decimal.
pub fn push_signed(out: &mut String, n: i32)
    ensures
        final(out)@ == old(out)@ + signed(n as int),
{
    let v: i64 = n as i64;
    if v < 0 {
        out.push('-');
        push_decimal(out, (-v) as u64);
    } else {
        push_decimal(out, v as u64);
    }
    assert(out@ == old(out)@ + signed(n as int));
}

/// Written out and read again, a number is what it was.
pub proof fn digits_read_back(n: nat, radix: nat)
    requires
        2 <= radix <= 16,
    ensures
        digits(n, radix).len() > 0,
        numeral(digits(n, radix), radix) == Some(n),
        unsigned_of(digits(n, radix), radix) == Some(n),
    decreases n,
{
    lemma_digits_are_digits(n, radix);
    let s = digits(n, radix);
    if n < radix {
        assert(s.drop_last() == Seq::<char>::empty());
        assert(numeral(s.drop_last(), radix) == Some(0nat));
        assert(0 * radix == 0) by (nonlinear_arith);
        assert(digit_of(s.last(), radix) == Some(n));
    } else {
        assert(n / radix < n) by (nonlinear_arith)
            requires
                2 <= radix <= n,
        ;
        digits_read_back(n / radix, radix);
        assert(s.drop_last() == digits(n / radix, radix));
        vstd::arithmetic::div_mod::lemma_fundamental_div_mod(n as int, radix as int);
        assert((n / radix) * radix + n % radix == n) by (nonlinear_arith)
            requires
                n == radix * (n / radix) + n % radix,
        ;
        assert(n % radix < radix) by (nonlinear_arith)
            requires
                2 <= radix,
        ;
        assert(digit_of(s.last(), radix) == Some(n % radix));
    }
}

/// What is written out of a number is a digit throughout.
pub proof fn lemma_digits_are_digits(n: nat, radix: nat)
    requires
        2 <= radix <= 16,
    ensures
        digits(n, radix).len() > 0,
        forall|i: int| #![trigger digits(n, radix)[i]]
            0 <= i < digits(n, radix).len() ==> {
                ||| '0' <= digits(n, radix)[i] <= '9'
                ||| 'a' <= digits(n, radix)[i] <= 'f'
            },
    decreases n,
{
    if n >= radix {
        assert(n / radix < n) by (nonlinear_arith)
            requires
                2 <= radix <= n,
        ;
        lemma_digits_are_digits(n / radix, radix);
    }
}

/// What has a worth as a numeral is a digit throughout.
pub proof fn lemma_numeral_digits(s: Seq<char>, radix: nat, i: int)
    requires
        numeral(s, radix) is Some,
        0 <= i < s.len(),
    ensures
        digit_of(s[i], radix) is Some,
    decreases s.len(),
{
    if i < s.len() - 1 {
        lemma_numeral_digits(s.drop_last(), radix, i);
    }
}

/// A numeral without leading zeros, in small letters, is what its number is
/// written as.
pub proof fn numeral_is_written_back(s: Seq<char>, n: nat, radix: nat)
    requires
        2 <= radix <= 16,
        s.len() > 0,
        s.len() == 1 || s[0] != '0',
        numeral(s, radix) == Some(n),
        forall|i: int| 0 <= i < s.len() ==> !('A' <= #[trigger] s[i] <= 'F'),
    ensures
        digits(n, radix) == s,
        s[0] != '0' ==> n > 0,
    decreases s.len(),
{
    let t = s.drop_last();
    let v = numeral(t, radix)->0;
    let d = digit_of(s.last(), radix)->0;
    assert(small_digit(d) == s.last());
    if s.len() == 1 {
        assert(t == Seq::<char>::empty());
        assert(0 * radix == 0) by (nonlinear_arith);
        assert(n == d);
        assert(digits(n, radix) == s);
    } else {
        assert(t[0] == s[0]);
        numeral_is_written_back(t, v, radix);
        assert(v * radix >= radix) by (nonlinear_arith)
            requires
                v >= 1,
        ;
        assert((v * radix + d) / radix == v && (v * radix + d) % radix == d) by {
            vstd::arithmetic::div_mod::lemma_fundamental_div_mod_converse(
                n as int,
                radix as int,
                v as int,
                d as int,
            );
        }
        assert(digits(n, radix) == t.push(s.last()));
    }
}

/// A digit is worth the same as a capital and as a small letter.
pub proof fn lemma_lower_numeral(s: Seq<char>, radix: nat)
    ensures
        numeral(lower(s), radix) == numeral(s, radix),
    decreases s.len(),
{
    if s.len() > 0 {
        let c = s.last();
        assert(digit_of(lower_char(c), radix) == digit_of(c, radix));
        lemma_lower_numeral(s.drop_last(), radix);
        assert(lower(s).drop_last() == lower(s.drop_last()));
    }
}

/// A number is written digit by digit: the last digit is its remainder, and
/// what stands before it is the rest of the number.
pub proof fn numbers_are_written_by_digits(n: nat)
    ensures
        n < 10 ==> decimal(n).len() == 1 && decimal(n)[0] as u32 == 48 + n,
        n >= 10 ==> decimal(n).len() > 1 && decimal(n).drop_last() == decimal(n / 10)
            && decimal(n).last() as u32 == 48 + n % 10,
        n < 16 ==> digits(n, 16).len() == 1 && digits(n, 16)[0] as u32 == if n < 10 {
            48 + n
        } else {
            87 + n
        },
        n >= 16 ==> digits(n, 16).len() > 1 && digits(n, 16).drop_last() == digits(n / 16, 16)
            && digits(n, 16).last() as u32 == if n % 16 < 10 {
            48 + n % 16
        } else {
            87 + n % 16
        },
{
    if n >= 10 {
        lemma_digits_are_digits(n / 10, 10);
        assert(decimal(n).drop_last() == decimal(n / 10));
    }
    if n >= 16 {
        lemma_digits_are_digits(n / 16, 16);
        assert(digits(n, 16).drop_last() == digits(n / 16, 16));
    }
}

/// A numeral is read digit by digit, and a character that is no digit makes it
/// none.
pub proof fn numerals_are_read_by_digits(s: Seq<char>, c: char)
    ensures
        numeral(Seq::empty(), 10) == Some(0nat),
        numeral(Seq::empty(), 16) == Some(0nat),
        ({
            let n = c as u32;
            let v = numeral(s, 10);
            numeral(s.push(c), 10) == if v is Some && 48 <= n <= 57 {
                Some(((v->0) * 10 + (n - 48)) as nat)
            } else {
                None
            }
        }),
        ({
            let n = c as u32;
            let v = numeral(s, 16);
            numeral(s.push(c), 16) == if v is None {
                None
            } else if 48 <= n <= 57 {
                Some(((v->0) * 16 + (n - 48)) as nat)
            } else if 65 <= n <= 70 {
                Some(((v->0) * 16 + (n - 55)) as nat)
            } else if 97 <= n <= 102 {
                Some(((v->0) * 16 + (n - 87)) as nat)
            } else {
                None
            }
        }),
{
    assert(s.push(c).drop_last() == s);
    assert(s.push(c).last() == c);
}

/// A number that was written is read as it was, after a `+` too, up to the
/// greatest that is let through and no further. What is empty, or holds a
/// character that is no digit, is no number.
pub proof fn numbers_up_to_a_bound(n: nat, max: nat, s: Seq<char>)
    ensures
        unsigned_up_to(decimal(n), 10, max) == if n <= max {
            Some(n)
        } else {
            None
        },
        unsigned_up_to(seq!['+'] + decimal(n), 10, max) == unsigned_up_to(decimal(n), 10, max),
        unsigned_up_to(digits(n, 16), 16, max) == if n <= max {
            Some(n)
        } else {
            None
        },
        digits_up_to(decimal(n), 10, max) == unsigned_up_to(decimal(n), 10, max),
        digits_up_to(digits(n, 16), 16, max) == unsigned_up_to(digits(n, 16), 16, max),
        digits_up_to(Seq::empty(), 10, max) is None,
        digits_up_to(Seq::empty(), 16, max) is None,
        unsigned_up_to(Seq::empty(), 10, max) is None,
        unsigned_up_to(Seq::empty(), 16, max) is None,
        unsigned_up_to(seq!['+'], 10, max) is None,
        (exists|i: int| 0 <= i < s.len() && !(48 <= (#[trigger] s[i]) as u32 <= 57)) ==> {
            &&& digits_up_to(s, 10, max) is None
            &&& s[0] != '+' ==> unsigned_up_to(s, 10, max) is None
        },
{
    digits_read_back(n, 10);
    digits_read_back(n, 16);
    lemma_digits_are_digits(n, 10);
    assert((seq!['+'] + decimal(n)).drop_first() == decimal(n));
    assert(seq!['+'].drop_first() == Seq::<char>::empty());
    if exists|i: int| 0 <= i < s.len() && !(48 <= (#[trigger] s[i]) as u32 <= 57) {
        let i = choose|i: int| 0 <= i < s.len() && !(48 <= (#[trigger] s[i]) as u32 <= 57);
        if numeral(s, 10) is Some {
            lemma_numeral_digits(s, 10, i);
        }
    }
}

/// A negative number has a `-` in front.
pub proof fn negative_numbers_have_a_sign(n: nat)
    ensures
        signed(n as int) == decimal(n),
        n > 0 ==> signed(-(n as int)) == seq!['-'] + decimal(n),
{
}

} // verus!
