//! Port numbers as decimal text: reading them the way `str::parse::<u16>` does
//! and writing them the way `u16`'s `Display` does.
use vstd::prelude::*;
use vstd::string::StrSliceExecFns;
use vstd::string::StringExecFns;

verus! {

/// An ASCII decimal digit.
pub open spec fn is_digit(c: char) -> bool {
    '0' <= c && c <= '9'
}

/// The value of a digit character.
pub open spec fn digit_value(c: char) -> int {
    c as int - '0' as int
}

/// The character of a digit value below ten.
pub open spec fn digit_char(d: int) -> char {
    ('0' as int + d) as char
}

/// Whether every character of `s` is a digit.
pub open spec fn all_digits(s: Seq<char>) -> bool {
    forall|i: int| 0 <= i < s.len() ==> is_digit(#[trigger] s[i])
}

/// The number a run of digits spells, most significant first.
pub open spec fn digits_value(s: Seq<char>) -> nat
    decreases s.len(),
{
    if s.len() == 0 {
        0
    } else {
        (digits_value(s.drop_last()) * 10 + digit_value(s.last())) as nat
    }
}

/// What `str::parse::<u16>` accepts: an optional `+`, then one or more ASCII
/// digits whose value fits in a `u16`; leading zeros are allowed.
pub open spec fn parse_u16_text(s: Seq<char>) -> Option<u16> {
    let d = if s.len() > 0 && s[0] == '+' {
        s.drop_first()
    } else {
        s
    };
    if d.len() > 0 && all_digits(d) && digits_value(d) <= u16::MAX {
        Some(digits_value(d) as u16)
    } else {
        None
    }
}

/// The decimal text of `n`, without leading zeros.
pub open spec fn decimal_text(n: nat) -> Seq<char>
    decreases n,
{
    if n < 10 {
        seq![digit_char(n as int)]
    } else {
        decimal_text(n / 10).push(digit_char((n % 10) as int))
    }
}

/// `v` capped at one past the largest `u16`.
pub open spec fn capped(v: nat) -> nat {
    if v > 0x1_0000 {
        0x1_0000
    } else {
        v
    }
}

/// Reads a port number the way `str::parse::<u16>` does.
pub fn parse_u16(s: &str) -> (n: Option<u16>)
    ensures
        n == parse_u16_text(s@),
{
    let len = s.unicode_len();
    let start: usize = if len > 0 && s.get_char(0) == '+' {
        1
    } else {
        0
    };
    let ghost d = if s@.len() > 0 && s@[0] == '+' {
        s@.drop_first()
    } else {
        s@
    };
    proof {
        assert(d =~= s@.subrange(start as int, len as int));
    }
    if start == len {
        return None;
    }
    let mut acc: u32 = 0;
    let mut i: usize = start;
    while i < len
        invariant
            len == s@.len(),
            start <= i <= len,
            d == s@.subrange(start as int, len as int),
            d == (if s@.len() > 0 && s@[0] == '+' {
                s@.drop_first()
            } else {
                s@
            }),
            all_digits(s@.subrange(start as int, i as int)),
            acc == capped(digits_value(s@.subrange(start as int, i as int))),
        decreases len - i,
    {
        let c = s.get_char(i);
        if !('0' <= c && c <= '9') {
            proof {
                assert(d[i - start] == c);
                assert(!is_digit(d[i - start]));
                assert(!all_digits(d));
                assert(parse_u16_text(s@) is None);
            }
            return None;
        }
        let ghost before = s@.subrange(start as int, i as int);
        let ghost after = s@.subrange(start as int, i + 1);
        proof {
            assert(after.drop_last() =~= before);
            assert(after.last() == c);
            assert(all_digits(after)) by {
                assert forall|k: int| 0 <= k < after.len() implies is_digit(#[trigger] after[k]) by {
                    if k < before.len() {
                        assert(after[k] == before[k]);
                    }
                }
            }
        }
        let v = (c as u32) - ('0' as u32);
        let next = acc * 10 + v;
        acc = if next > 0x1_0000 {
            0x1_0000
        } else {
            next
        };
        i = i + 1;
    }
    proof {
        assert(s@.subrange(start as int, i as int) =~= d);
    }
    if acc > 0xffff {
        None
    } else {
        Some(acc as u16)
    }
}

fn digit_str(d: u16) -> (t: &'static str)
    requires
        d < 10,
    ensures
        t@ == seq![digit_char(d as int)],
{
    proof {
        reveal_strlit("0");
        reveal_strlit("1");
        reveal_strlit("2");
        reveal_strlit("3");
        reveal_strlit("4");
        reveal_strlit("5");
        reveal_strlit("6");
        reveal_strlit("7");
        reveal_strlit("8");
        reveal_strlit("9");
    }
    let t = match d {
        0 => "0",
        1 => "1",
        2 => "2",
        3 => "3",
        4 => "4",
        5 => "5",
        6 => "6",
        7 => "7",
        8 => "8",
        _ => "9",
    };
    assert(t@ =~= seq![digit_char(d as int)]);
    t
}

/// Appends the decimal text of `n` to `out`, as `u16`'s `Display` writes it.
pub fn push_decimal(out: &mut String, n: u16)
    ensures
        final(out)@ == old(out)@ + decimal_text(n as nat),
    decreases n,
{
    if n >= 10 {
        push_decimal(out, n / 10);
    }
    out.append(digit_str(n % 10));
    proof {
        if n >= 10 {
            assert(old(out)@ + decimal_text(n as nat) =~= old(out)@ + decimal_text((n / 10) as nat)
                + seq![digit_char((n % 10) as int)]);
        } else {
            assert(old(out)@ + decimal_text(n as nat) =~= old(out)@ + seq![
                digit_char((n % 10) as int),
            ]);
        }
    }
}

proof fn lemma_decimal_text(n: nat)
    ensures
        decimal_text(n).len() > 0,
        all_digits(decimal_text(n)),
        digits_value(decimal_text(n)) == n,
    decreases n,
{
    let t = decimal_text(n);
    assert(digit_value(digit_char((n % 10) as int)) == n % 10);
    assert(n == (n / 10) * 10 + n % 10);
    if n < 10 {
        assert(t.drop_last() =~= Seq::<char>::empty());
        assert(digits_value(t) == digits_value(t.drop_last()) * 10 + digit_value(t.last()));
    } else {
        lemma_decimal_text(n / 10);
        let p = decimal_text(n / 10);
        assert(t.drop_last() =~= p);
        assert forall|i: int| 0 <= i < t.len() implies is_digit(#[trigger] t[i]) by {
            if i < p.len() {
                assert(t[i] == p[i]);
            }
        }
    }
}

/// A port written out in decimal reads back as the same port.
pub proof fn decimal_roundtrip(n: u16)
    ensures
        parse_u16_text(decimal_text(n as nat)) == Some(n),
{
    lemma_decimal_text(n as nat);
    let t = decimal_text(n as nat);
    assert(is_digit(t[0]));
}

} // verus!
