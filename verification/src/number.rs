//! Whole numbers written in decimal.

use vstd::prelude::*;
use crate::text::{chars_of, string_of};

verus! {

/// Whether `c` is one of the ten digits.
pub open spec fn is_digit(c: char) -> bool {
    '0' <= c <= '9'
}

/// The value of a digit.
pub open spec fn digit_value(c: char) -> nat {
    (c as u32 - '0' as u32) as nat
}

/// Whether the text is made of digits, of one at least.
pub open spec fn all_digits(s: Seq<char>) -> bool {
    s.len() > 0 && forall|i: int| 0 <= i < s.len() ==> is_digit(#[trigger] s[i])
}

/// The number that a text made of digits stands for.
pub open spec fn digits_value(s: Seq<char>) -> nat
    decreases s.len(),
{
    if s.len() == 0 {
        0
    } else {
        digits_value(s.drop_last()) * 10 + digit_value(s.last())
    }
}

/// The text without the plus sign at its front.
pub open spec fn without_plus(s: Seq<char>) -> Seq<char> {
    if s.len() > 0 && s[0] == '+' {
        s.drop_first()
    } else {
        s
    }
}

/// The number that a text stands for: digits, behind a plus sign or none.
pub open spec fn unsigned_value(s: Seq<char>) -> Option<nat> {
    let digits = without_plus(s);
    if all_digits(digits) {
        Some(digits_value(digits))
    } else {
        None
    }
}

/// The number that a text stands for: digits, behind a plus sign, a minus sign or none.
pub open spec fn signed_value(s: Seq<char>) -> Option<int> {
    if s.len() > 0 && s[0] == '-' {
        let digits = s.drop_first();
        if all_digits(digits) {
            Some(-(digits_value(digits) as int))
        } else {
            None
        }
    } else {
        match unsigned_value(s) {
            Some(n) => Some(n as int),
            None => None,
        }
    }
}

/// The number that a text of digits stands for, where it is at most `max`.
fn parse_digits(v: &[char], max: u128) -> (res: Option<u128>)
    requires
        max <= 0xffff_ffff_ffff_ffff,
    ensures
        match res {
            Some(n) => all_digits(v@) && n == digits_value(v@) && n <= max,
            None => !all_digits(v@) || digits_value(v@) > max,
        },
{
    if v.len() == 0 {
        return None;
    }
    let mut n: u128 = 0;
    let mut big = false;
    let mut i: usize = 0;
    while i < v.len()
        invariant
            i <= v@.len(),
            max <= 0xffff_ffff_ffff_ffff,
            forall|j: int| 0 <= j < i ==> is_digit(#[trigger] v@[j]),
            big ==> digits_value(v@.take(i as int)) > max,
            !big ==> n == digits_value(v@.take(i as int)) && n <= max,
        decreases v@.len() - i,
    {
        let c = v[i];
        if c < '0' || '9' < c {
            assert(!is_digit(v@[i as int]));
            return None;
        }
        proof {
            assert(v@.take(i + 1).drop_last() == v@.take(i as int));
            assert(v@.take(i + 1).last() == c);
        }
        if !big {
            n = n * 10 + (c as u32 - '0' as u32) as u128;
            big = n > max;
        }
        i = i + 1;
    }
    assert(v@.take(i as int) == v@);
    if big {
        None
    } else {
        Some(n)
    }
}

/// The number that a text stands for, where it fits.
pub fn parse_usize(s: &str) -> (res: Option<usize>)
    ensures
        match res {
            Some(n) => unsigned_value(s@) == Some(n as nat),
            None => unsigned_value(s@) matches Some(n) ==> n > usize::MAX,
        },
{
    let v = chars_of(s);
    let digits = if v.len() > 0 && v[0] == '+' {
        assert(v@.subrange(1, v@.len() as int) == v@.drop_first());
        vstd::slice::slice_subrange(v.as_slice(), 1, v.len())
    } else {
        v.as_slice()
    };
    match parse_digits(digits, usize::MAX as u128) {
        Some(n) => Some(n as usize),
        None => None,
    }
}

/// The number that a text stands for, where it fits.
pub fn parse_i64(s: &str) -> (res: Option<i64>)
    ensures
        match res {
            Some(n) => signed_value(s@) == Some(n as int),
            None => signed_value(s@) matches Some(n) ==> n < i64::MIN || n > i64::MAX,
        },
{
    let v = chars_of(s);
    if v.len() > 0 && v[0] == '-' {
        assert(v@.subrange(1, v@.len() as int) == v@.drop_first());
        let digits = vstd::slice::slice_subrange(v.as_slice(), 1, v.len());
        match parse_digits(digits, 0x8000_0000_0000_0000) {
            Some(n) => Some((0 - n as i128) as i64),
            None => None,
        }
    } else {
        let digits = if v.len() > 0 && v[0] == '+' {
            assert(v@.subrange(1, v@.len() as int) == v@.drop_first());
            vstd::slice::slice_subrange(v.as_slice(), 1, v.len())
        } else {
            v.as_slice()
        };
        match parse_digits(digits, 0x7fff_ffff_ffff_ffff) {
            Some(n) => Some(n as i64),
            None => None,
        }
    }
}

/// The digit of this value.
pub open spec fn digit(n: nat) -> char {
    ('0' as u32 + n) as char
}

/// A number in decimal, without needless zeros.
pub open spec fn decimal_text(n: nat) -> Seq<char>
    decreases n,
{
    if n < 10 {
        seq![digit(n)]
    } else {
        decimal_text(n / 10).push(digit(n % 10))
    }
}

/// A number in decimal.
pub fn decimal(n: usize) -> (text: String)
    ensures
        text@ == decimal_text(n as nat),
{
    let v = decimal_chars(n);
    string_of(v.as_slice())
}

fn decimal_chars(n: usize) -> (out: Vec<char>)
    ensures
        out@ == decimal_text(n as nat),
    decreases n,
{
    let last = (0x30u8 + (n % 10) as u8) as char;
    if n < 10 {
        vec![last]
    } else {
        let mut out = decimal_chars(n / 10);
        out.push(last);
        out
    }
}

/// What a number looks like in decimal is read back as that number.
pub proof fn lemma_decimal_read_back(n: nat)
    ensures
        all_digits(decimal_text(n)),
        digits_value(decimal_text(n)) == n,
        unsigned_value(decimal_text(n)) == Some(n),
    decreases n,
{
    let s = decimal_text(n);
    if n < 10 {
        assert(s.drop_last() == Seq::<char>::empty());
        reveal_with_fuel(digits_value, 2);
    } else {
        lemma_decimal_read_back(n / 10);
        assert(s.drop_last() == decimal_text(n / 10));
        assert forall|i: int| 0 <= i < s.len() implies is_digit(#[trigger] s[i]) by {
            if i < s.len() - 1 {
                assert(s[i] == decimal_text(n / 10)[i]);
            }
        }
    }
    assert(is_digit(s[0]));
    assert(without_plus(s) == s);
}

// What holds of all of this

/// One digit more makes a number ten times as large and adds the value of the digit; a digit alone
/// is its value; a plus sign in front changes nothing.
pub proof fn lemma_digit_by_digit(s: Seq<char>, c: char)
    requires
        s.len() > 0,
        forall|i: int| 0 <= i < s.len() ==> '0' <= #[trigger] s[i] <= '9',
        '0' <= c <= '9',
    ensures
        unsigned_value(seq![c]) == Some((c as u32 - 48) as nat),
        unsigned_value(s) matches Some(n) && unsigned_value(s.push(c)) == Some(
            (10 * n + (c as u32 - 48)) as nat,
        ),
        unsigned_value(seq!['+'] + s) == unsigned_value(s),
        signed_value(seq!['-'] + s) == Some(-(unsigned_value(s)->Some_0 as int)),
        signed_value(s) == Some(unsigned_value(s)->Some_0 as int),
        signed_value(seq!['+'] + s) == signed_value(s),
{
    let one = seq![c];
    assert(one.drop_last() == Seq::<char>::empty());
    assert(digits_value(one.drop_last()) == 0);
    assert forall|i: int| 0 <= i < one.len() implies is_digit(#[trigger] one[i]) by {}
    assert forall|i: int| 0 <= i < s.len() implies is_digit(#[trigger] s[i]) by {}
    let more = s.push(c);
    assert(more.drop_last() == s);
    assert forall|i: int| 0 <= i < more.len() implies is_digit(#[trigger] more[i]) by {
        if i < s.len() {
            assert(more[i] == s[i]);
        }
    }
    assert(is_digit(s[0]));
    assert(more[0] == s[0]);
    assert((seq!['+'] + s).drop_first() == s);
    assert((seq!['-'] + s).drop_first() == s);
}

/// A text is no number if it is empty, if it holds anything but digits behind its sign, or if
/// nothing follows its sign.
pub proof fn lemma_no_number(s: Seq<char>, i: int)
    ensures
        s.len() == 0 ==> unsigned_value(s) is None && signed_value(s) is None,
        0 <= i < s.len() && !('0' <= s[i] <= '9') && !(i == 0 && s[0] == '+') ==> unsigned_value(
            s,
        ) is None,
        0 <= i < s.len() && !('0' <= s[i] <= '9') && !(i == 0 && (s[0] == '+' || s[0] == '-'))
            ==> signed_value(s) is None,
        s.len() == 1 && (s[0] == '+' || s[0] == '-') ==> unsigned_value(s) is None && signed_value(
            s,
        ) is None,
{
    if 0 <= i < s.len() && !('0' <= s[i] <= '9') {
        if i > 0 {
            assert(s.drop_first()[i - 1] == s[i]);
        }
        assert(!is_digit(s[i]));
        let digits = without_plus(s);
        if all_digits(digits) && !(i == 0 && s[0] == '+') {
            if s[0] == '+' {
                assert(is_digit(digits[i - 1]));
            } else {
                assert(is_digit(digits[i]));
            }
        }
        if s[0] == '-' && i > 0 && all_digits(s.drop_first()) {
            assert(is_digit(s.drop_first()[i - 1]));
        }
    }
}

/// A number below ten is written as its digit, and any other as what is left without its last digit
/// and then that digit.
pub proof fn lemma_written_digit_by_digit(n: nat, d: nat)
    requires
        d < 10,
    ensures
        decimal_text(d).len() == 1 && decimal_text(d)[0] as u32 == 48 + d,
        n > 0 ==> {
            let text = decimal_text(10 * n + d);
            text.drop_last() == decimal_text(n) && text.last() as u32 == 48 + d
        },
{
    if n > 0 {
        assert((10 * n + d) / 10 == n);
        assert((10 * n + d) % 10 == d);
    }
}

} // verus!
