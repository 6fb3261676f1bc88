use vstd::prelude::*;
use crate::error::IntErrorKind;

verus! {

/// Whether `c` is one of the digits `0` to `9`.
pub open spec fn is_digit(c: char) -> bool {
    '0' <= c && c <= '9'
}

/// The value of the digit `c`.
pub open spec fn digit_value(c: char) -> int {
    c as int - '0' as int
}

/// The digit whose value is `d`, for `d` below ten.
pub open spec fn digit_char(d: nat) -> char {
    (d + '0' as nat) as char
}

/// Whether every character of `s` is a digit.
pub open spec fn all_digits(s: Seq<char>) -> bool {
    forall|i: int| 0 <= i < s.len() ==> is_digit(#[trigger] s[i])
}

/// The number that the digits `s` write in base ten (0 for no digits).
pub open spec fn value_of(s: Seq<char>) -> int
    decreases s.len(),
{
    if s.len() == 0 {
        0
    } else {
        value_of(s.drop_last()) * 10 + digit_value(s.last())
    }
}

/// `n` written in base ten, without leading zeros.
pub open spec fn decimal(n: nat) -> Seq<char>
    decreases n,
{
    if n < 10 {
        seq![digit_char(n)]
    } else {
        decimal(n / 10).push(digit_char(n % 10))
    }
}

/// Reads the digits of `s` from the left, as a 16-bit number. The first
/// character that is not a digit gives `InvalidDigit`, and the first digit
/// that takes the value above 65535 gives `PosOverflow`, whichever comes
/// first. No characters at all read as 0.
pub open spec fn scan_digits(s: Seq<char>) -> Result<u16, IntErrorKind>
    decreases s.len(),
{
    if s.len() == 0 {
        Ok(0)
    } else {
        match scan_digits(s.drop_last()) {
            Err(e) => Err(e),
            Ok(v) => if !is_digit(s.last()) {
                Err(IntErrorKind::InvalidDigit)
            } else if v * 10 + digit_value(s.last()) > u16::MAX {
                Err(IntErrorKind::PosOverflow)
            } else {
                Ok((v * 10 + digit_value(s.last())) as u16)
            },
        }
    }
}

/// What reading `s` as a 16-bit number gives: an empty text is `Empty`;
/// otherwise the digits are read from the left as `scan_digits` says.
pub open spec fn component_of(s: Seq<char>) -> Result<u16, IntErrorKind> {
    if s.len() == 0 {
        Err(IntErrorKind::Empty)
    } else {
        scan_digits(s)
    }
}

/// The decimal form of `n` is a non-empty run of digits whose value is `n`.
pub proof fn lemma_decimal_value(n: nat)
    ensures
        decimal(n).len() > 0,
        all_digits(decimal(n)),
        value_of(decimal(n)) == n,
    decreases n,
{
    if n >= 10 {
        lemma_decimal_value(n / 10);
        let s = decimal(n);
        assert(s.drop_last() =~= decimal(n / 10));
        assert(digit_value(s.last()) == n % 10);
        assert((n / 10) * 10 + n % 10 == n);
        assert forall|i: int| 0 <= i < s.len() implies is_digit(#[trigger] s[i]) by {
            if i < s.len() - 1 {
                assert(s[i] == decimal(n / 10)[i]);
            }
        }
    } else {
        assert(decimal(n).drop_last() =~= Seq::<char>::empty());
        assert(value_of(Seq::<char>::empty()) == 0);
    }
}

/// Reading succeeds exactly on runs of digits whose value is at most
/// 65535, and then gives that value.
pub proof fn lemma_scan_digits_ok(s: Seq<char>)
    ensures
        scan_digits(s) is Ok <==> (all_digits(s) && value_of(s) <= u16::MAX),
        scan_digits(s) is Ok ==> scan_digits(s)->Ok_0 == value_of(s),
    decreases s.len(),
{
    if s.len() > 0 {
        let t = s.drop_last();
        lemma_scan_digits_ok(t);
        assert(all_digits(s) <==> (all_digits(t) && is_digit(s.last()))) by {
            if all_digits(s) {
                assert forall|i: int| 0 <= i < t.len() implies is_digit(#[trigger] t[i]) by {
                    assert(t[i] == s[i]);
                }
                assert(is_digit(s[s.len() - 1]));
            }
            if all_digits(t) && is_digit(s.last()) {
                assert forall|i: int| 0 <= i < s.len() implies is_digit(#[trigger] s[i]) by {
                    if i < s.len() - 1 {
                        assert(t[i] == s[i]);
                    }
                }
            }
        }
    }
}

/// Once reading a prefix of `s` has failed, reading `s` fails the same way.
pub proof fn lemma_scan_digits_err(s: Seq<char>, k: int)
    requires
        0 <= k <= s.len(),
        scan_digits(s.subrange(0, k)) is Err,
    ensures
        scan_digits(s) == scan_digits(s.subrange(0, k)),
    decreases s.len() - k,
{
    if k < s.len() {
        let p = s.subrange(0, k + 1);
        assert(p.drop_last() =~= s.subrange(0, k));
        lemma_scan_digits_err(s, k + 1);
    } else {
        assert(s.subrange(0, k) =~= s);
    }
}

/// The one-character text of the digit `d`.
fn digit_text(d: u16) -> (r: &'static str)
    requires
        d < 10,
    ensures
        r@ == seq![digit_char(d as nat)],
{
    proof {
        reveal_strlit("0");
        reveal_strlit("1");
        reveal_strlit("2");
        reveal_strlit("3");
        reveal_strlit("4");
        reveal_strlit("5");
        reveal_strlit("6");
        reveal_strlit("7");
        reveal_strlit("8");
        reveal_strlit("9");
    }
    match d {
        0 => "0",
        1 => "1",
        2 => "2",
        3 => "3",
        4 => "4",
        5 => "5",
        6 => "6",
        7 => "7",
        8 => "8",
        _ => "9",
    }
}

/// Appends `n` in base ten to `out`.
pub fn push_decimal(out: &mut String, n: u16)
    ensures
        final(out)@ == old(out)@ + decimal(n as nat),
    decreases n,
{
    if n >= 10 {
        push_decimal(out, n / 10);
    }
    out.append(digit_text(n % 10));
    proof {
        if n >= 10 {
            assert(decimal(n as nat) == decimal((n / 10) as nat).push(digit_char((n % 10) as nat)));
        }
    }
    assert(final(out)@ =~= old(out)@ + decimal(n as nat));
}

/// Reads the characters of `s` from `lo` up to `hi` as a 16-bit number.
pub fn parse_component(s: &str, lo: usize, hi: usize) -> (r: Result<u16, IntErrorKind>)
    requires
        lo <= hi <= s@.len(),
    ensures
        r == component_of(s@.subrange(lo as int, hi as int)),
{
    let ghost t = s@.subrange(lo as int, hi as int);
    if lo == hi {
        return Err(IntErrorKind::Empty);
    }
    let mut value: u16 = 0;
    let mut i: usize = lo;
    assert(s@.subrange(lo as int, lo as int) =~= Seq::<char>::empty());
    while i < hi
        invariant
            lo <= i <= hi <= s@.len(),
            t == s@.subrange(lo as int, hi as int),
            scan_digits(s@.subrange(lo as int, i as int)) == Ok::<u16, IntErrorKind>(value),
        decreases hi - i,
    {
        let c = s.get_char(i);
        let ghost after = s@.subrange(lo as int, i + 1);
        assert(after.drop_last() =~= s@.subrange(lo as int, i as int));
        assert(after.last() == c);
        assert(after =~= t.subrange(0, (i - lo + 1) as int));
        if !('0' <= c && c <= '9') {
            proof {
                lemma_scan_digits_err(t, (i - lo + 1) as int);
            }
            return Err(IntErrorKind::InvalidDigit);
        }
        let next: u32 = value as u32 * 10 + (c as u32 - '0' as u32);
        if next > u16::MAX as u32 {
            proof {
                lemma_scan_digits_err(t, (i - lo + 1) as int);
            }
            return Err(IntErrorKind::PosOverflow);
        }
        value = next as u16;
        i = i + 1;
    }
    assert(s@.subrange(lo as int, i as int) =~= t);
    Ok(value)
}

} // verus!
