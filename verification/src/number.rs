//! Decimal numbers as text.
use crate::text::chars_of;
use vstd::prelude::*;

verus! {

/// Whether `c` is one of the digits `0` to `9`.
pub open spec fn is_digit(c: char) -> bool {
    '0' <= c <= '9'
}

/// The digit that stands for `d`.
pub open spec fn digit_char(d: nat) -> char {
    ('0' as u8 + d) as char
}

/// The decimal digits of `n`, without leading zeros.
pub open spec fn decimal(n: nat) -> Seq<char>
    decreases n,
{
    if n < 10 {
        seq![digit_char(n)]
    } else {
        decimal(n / 10).push(digit_char(n % 10))
    }
}

/// Whether `s` is made of digits alone.
pub open spec fn all_digits(s: Seq<char>) -> bool {
    forall|i: int| 0 <= i < s.len() ==> is_digit(#[trigger] s[i])
}

/// The number that the digits `s` stand for.
pub open spec fn digits_value(s: Seq<char>) -> nat
    decreases s.len(),
{
    if s.len() == 0 {
        0
    } else {
        (10 * digits_value(s.drop_last()) + (s.last() as int - '0' as int)) as nat
    }
}

/// Whether `s` starts with a sign: `+`, or `-` where `signed` allows it.
pub open spec fn has_sign(s: Seq<char>, signed: bool) -> bool {
    s.len() > 0 && (s[0] == '+' || (signed && s[0] == '-'))
}

/// The integer that `s` stands for: an optional sign and at least one digit.
pub open spec fn integer_of(s: Seq<char>, signed: bool) -> Option<int> {
    let digits = if has_sign(s, signed) {
        s.skip(1)
    } else {
        s
    };
    if digits.len() == 0 || !all_digits(digits) {
        None
    } else if signed && s[0] == '-' {
        Some(-(digits_value(digits) as int))
    } else {
        Some(digits_value(digits) as int)
    }
}

/// The `u32` that `s` stands for, if it is one.
pub open spec fn u32_of(s: Seq<char>) -> Option<u32> {
    match integer_of(s, false) {
        Some(v) => if v <= u32::MAX {
            Some(v as u32)
        } else {
            None
        },
        None => None,
    }
}

/// The `i32` that `s` stands for, if it is one.
pub open spec fn i32_of(s: Seq<char>) -> Option<i32> {
    match integer_of(s, true) {
        Some(v) => if i32::MIN <= v <= i32::MAX {
            Some(v as i32)
        } else {
            None
        },
        None => None,
    }
}

/// The value of the digits of `cs` from `start` on, or `None` if there are none
/// or another character stands among them. A value above `u32::MAX` comes back
/// as some number above `u32::MAX`.
fn parse_digits(cs: &Vec<char>, start: usize) -> (r: Option<u64>)
    requires
        start <= cs@.len(),
    ensures
        match r {
            Some(v) => {
                let digits = cs@.skip(start as int);
                &&& digits.len() > 0
                &&& all_digits(digits)
                &&& v <= u32::MAX ==> v == digits_value(digits)
                &&& v > u32::MAX ==> digits_value(digits) > u32::MAX
            },
            None => cs@.skip(start as int).len() == 0 || !all_digits(cs@.skip(start as int)),
        },
{
    if start == cs.len() {
        return None;
    }
    let ghost digits = cs@.skip(start as int);
    let mut v: u64 = 0;
    let mut i: usize = start;
    assert(digits.take(0) =~= seq![]);
    while i < cs.len()
        invariant
            start <= i <= cs@.len(),
            digits == cs@.skip(start as int),
            all_digits(digits.take(i - start)),
            v <= 42_949_672_959,
            v <= u32::MAX ==> v == digits_value(digits.take(i - start)),
            v > u32::MAX ==> digits_value(digits.take(i - start)) > u32::MAX,
        decreases cs@.len() - i,
    {
        let c = cs[i];
        let ghost before = digits.take(i - start);
        let ghost after = digits.take(i + 1 - start);
        assert(after.drop_last() =~= before);
        assert(after.last() == c);
        if c < '0' || c > '9' {
            assert(!is_digit(digits[i - start]));
            return None;
        }
        assert forall|k: int| 0 <= k < after.len() implies is_digit(#[trigger] after[k]) by {
            if k < before.len() {
                assert(before[k] == after[k]);
            }
        }
        let d: u64 = (c as u32 - '0' as u32) as u64;
        if v <= 0xffff_ffff {
            v = v * 10 + d;
        }
        i = i + 1;
    }
    assert(digits.take(i - start) =~= digits);
    Some(v)
}

/// Reads a `u32`: an optional `+` and digits, within range.
pub fn parse_u32(s: &str) -> (r: Option<u32>)
    ensures
        r == u32_of(s@),
{
    let cs = chars_of(s);
    let start: usize = if cs.len() > 0 && cs[0] == '+' {
        1
    } else {
        0
    };
    assert(cs@.skip(0) =~= cs@);
    match parse_digits(&cs, start) {
        Some(v) => if v <= 0xffff_ffff {
            Some(v as u32)
        } else {
            None
        },
        None => None,
    }
}

/// Reads an `i32`: an optional `+` or `-` and digits, within range.
pub fn parse_i32(s: &str) -> (r: Option<i32>)
    ensures
        r == i32_of(s@),
{
    let cs = chars_of(s);
    let negative: bool = cs.len() > 0 && cs[0] == '-';
    let start: usize = if negative || (cs.len() > 0 && cs[0] == '+') {
        1
    } else {
        0
    };
    assert(cs@.skip(0) =~= cs@);
    match parse_digits(&cs, start) {
        Some(v) => {
            if v > 0x8000_0000 {
                return None;
            }
            let w: i64 = if negative {
                -(v as i64)
            } else {
                v as i64
            };
            if w <= 0x7fff_ffff {
                Some(w as i32)
            } else {
                None
            }
        },
        None => None,
    }
}

/// The decimal digits of `n`.
pub fn u64_to_text(n: u64) -> (r: String)
    ensures
        r@ == decimal(n as nat),
{
    let mut digits: Vec<char> = Vec::new();
    let mut rest: u64 = n;
    let ghost mut tail: Seq<char> = seq![];
    while rest >= 10
        invariant
            decimal(n as nat) == decimal(rest as nat) + tail,
            digits@ == tail.reverse(),
        decreases rest,
    {
        let d: u8 = (rest % 10) as u8;
        let c: char = (48u8 + d) as char;
        let ghost more = seq![c] + tail;
        assert(decimal(rest as nat) + tail =~= decimal((rest / 10) as nat) + more);
        digits.push(c);
        assert(digits@ =~= more.reverse());
        rest = rest / 10;
        proof {
            tail = more;
        }
    }
    let c: char = (48u8 + rest as u8) as char;
    let mut out = String::new();
    out.push(c);
    let mut k: usize = digits.len();
    assert(decimal(n as nat) =~= seq![c] + tail);
    while k > 0
        invariant
            k <= digits@.len(),
            digits@ == tail.reverse(),
            out@ == seq![c] + tail.take(digits@.len() - k),
        decreases k,
    {
        k = k - 1;
        out.push(digits[k]);
        assert(tail.take(digits@.len() - k) =~= tail.take(digits@.len() - k - 1).push(
            digits@[k as int],
        ));
    }
    assert(tail.take(tail.len() as int) =~= tail);
    out
}

/// Decimal digits read back as the number they were made from.
pub proof fn lemma_decimal_value(n: nat)
    ensures
        decimal(n).len() > 0,
        all_digits(decimal(n)),
        digits_value(decimal(n)) == n,
    decreases n,
{
    if n < 10 {
        reveal_with_fuel(digits_value, 2);
    } else {
        lemma_decimal_value(n / 10);
        assert(decimal(n).drop_last() =~= decimal(n / 10));
        assert forall|i: int| 0 <= i < decimal(n).len() implies is_digit(
            #[trigger] decimal(n)[i],
        ) by {
            if i < decimal(n / 10).len() {
                assert(decimal(n)[i] == decimal(n / 10)[i]);
            }
        }
    }
}

/// Writing a `u32` in decimal and reading it back gives the same number.
pub proof fn law_u32_round_trip(n: u32)
    ensures
        u32_of(decimal(n as nat)) == Some(n),
{
    lemma_decimal_value(n as nat);
    assert(is_digit(decimal(n as nat)[0]));
}

// ── Laws ─────────────────────────────────────────────────────────────────────

/// Digits stand for their number, and digits before others count for as many
/// times ten as there are others.
pub proof fn law_digits_count_by_place(a: Seq<char>, b: Seq<char>, d: char)
    requires
        forall|i: int| 0 <= i < a.len() ==> 48 <= (#[trigger] a[i]) as int <= 57,
        forall|i: int| 0 <= i < b.len() ==> 48 <= (#[trigger] b[i]) as int <= 57,
        48 <= d as int <= 57,
    ensures
        digits_value(seq![]) == 0,
        digits_value(seq![d]) == d as int - 48,
        digits_value(a + b) == digits_value(a) * vstd::arithmetic::power::pow(10, b.len())
            + digits_value(b),
    decreases b.len(),
{
    reveal_with_fuel(digits_value, 2);
    assert(seq![d].drop_last() =~= seq![]);
    vstd::arithmetic::power::lemma_pow0(10);
    if b.len() == 0 {
        assert(a + b =~= a);
        assert(digits_value(a) * 1 == digits_value(a));
    } else {
        let init = b.drop_last();
        assert forall|i: int| 0 <= i < init.len() implies 48 <= (#[trigger] init[i]) as int
            <= 57 by {
            assert(init[i] == b[i]);
        }
        law_digits_count_by_place(a, init, d);
        assert((a + b).drop_last() =~= a + init);
        assert((a + b).last() == b.last());
        assert(b[b.len() - 1] as int >= 48);
        let p = vstd::arithmetic::power::pow(10, init.len());
        reveal(vstd::arithmetic::power::pow);
        assert(vstd::arithmetic::power::pow(10, b.len()) == 10 * p);
        let v = digits_value(a) as int;
        assert(10 * (v * p) == v * (10 * p)) by (nonlinear_arith);
    }
}

/// A run of digits is read as the number that it stands for, with or without a
/// sign before it, as long as that number is in range; out of range nothing is
/// read.
pub proof fn law_digits_are_read(s: Seq<char>)
    requires
        s.len() > 0,
        forall|i: int| 0 <= i < s.len() ==> 48 <= (#[trigger] s[i]) as int <= 57,
    ensures
        ({
            let v = digits_value(s) as int;
            &&& u32_of(s) == if v < 0x1_0000_0000 {
                Some(v as u32)
            } else {
                None
            }
            &&& u32_of(seq!['+'] + s) == u32_of(s)
            &&& u32_of(seq!['-'] + s) is None
            &&& i32_of(s) == if v < 0x8000_0000 {
                Some(v as i32)
            } else {
                None
            }
            &&& i32_of(seq!['+'] + s) == i32_of(s)
            &&& i32_of(seq!['-'] + s) == if v <= 0x8000_0000 {
                Some((-v) as i32)
            } else {
                None
            }
        }),
{
    assert(48 <= s[0] as int <= 57);
    assert forall|i: int| 0 <= i < s.len() implies is_digit(#[trigger] s[i]) by {}
    assert((seq!['+'] + s).skip(1) =~= s);
    assert((seq!['-'] + s).skip(1) =~= s);
    assert(!is_digit((seq!['-'] + s)[0]));
}

/// Nothing is read where there is no digit, or where any character but a sign in
/// front is no digit.
pub proof fn law_other_text_is_no_number(s: Seq<char>, i: int)
    requires
        s.len() == 0 || (0 <= i < s.len() && !(48 <= s[i] as int <= 57) && (i > 0 || s.len() == 1
            || (s[0] != '+' && s[0] != '-'))),
    ensures
        u32_of(s) is None,
        i32_of(s) is None,
{
    if s.len() > 0 {
        assert(!is_digit(s[i]));
        if i > 0 {
            assert(s.skip(1)[i - 1] == s[i]);
        }
    }
}

/// A number is written in digits, the first of which is zero only in zero itself.
pub proof fn law_decimal_digits(n: nat)
    ensures
        decimal(n).len() > 0,
        forall|i: int| 0 <= i < decimal(n).len() ==> 48 <= (#[trigger] decimal(n)[i]) as int <= 57,
        digits_value(decimal(n)) == n,
        n > 0 ==> decimal(n)[0] != '0',
    decreases n,
{
    lemma_decimal_value(n);
    assert forall|i: int| 0 <= i < decimal(n).len() implies 48 <= (#[trigger] decimal(n)[i]) as int
        <= 57 by {
        assert(is_digit(decimal(n)[i]));
    }
    if n >= 10 {
        law_decimal_digits(n / 10);
        assert(decimal(n)[0] == decimal(n / 10)[0]);
    }
}

}
