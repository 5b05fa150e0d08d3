use vstd::prelude::*;
use vstd::string::*;

verus! {

/// The character for a single decimal digit.
pub open spec fn spec_digit_char(d: int) -> char {
    if d == 0 {
        '0'
    } else if d == 1 {
        '1'
    } else if d == 2 {
        '2'
    } else if d == 3 {
        '3'
    } else if d == 4 {
        '4'
    } else if d == 5 {
        '5'
    } else if d == 6 {
        '6'
    } else if d == 7 {
        '7'
    } else if d == 8 {
        '8'
    } else {
        '9'
    }
}

pub open spec fn is_digit(c: char) -> bool {
    '0' <= c <= '9'
}

pub open spec fn digit_value(c: char) -> int {
    c as int - '0' as int
}

pub open spec fn all_digits(s: Seq<char>) -> bool {
    forall|i: int| 0 <= i < s.len() ==> is_digit(#[trigger] s[i])
}

/// The number that a string of decimal digits denotes, read left to right.
pub open spec fn spec_dec_value(s: Seq<char>) -> int
    decreases s.len(),
{
    if s.len() == 0 {
        0
    } else {
        spec_dec_value(s.drop_last()) * 10 + digit_value(s.last())
    }
}

/// The canonical decimal rendering of a natural number: no sign, no
/// leading zeros (except for the single digit of zero itself).
pub open spec fn spec_u64_string(n: nat) -> Seq<char>
    decreases n,
{
    if n < 10 {
        seq![spec_digit_char(n as int)]
    } else {
        spec_u64_string(n / 10).push(spec_digit_char((n % 10) as int))
    }
}

proof fn lemma_digit_char_value(d: int)
    requires
        0 <= d <= 9,
    ensures
        is_digit(spec_digit_char(d)),
        digit_value(spec_digit_char(d)) == d,
{
}

/// Every character of the decimal rendering is a digit, there is at
/// least one, and reading the rendering back yields the number again.
pub proof fn lemma_u64_string_value(n: nat)
    ensures
        spec_u64_string(n).len() >= 1,
        all_digits(spec_u64_string(n)),
        spec_dec_value(spec_u64_string(n)) == n,
    decreases n,
{
    if n < 10 {
        lemma_digit_char_value(n as int);
        let s = spec_u64_string(n);
        assert(s =~= seq![spec_digit_char(n as int)]);
        assert(s.drop_last() =~= Seq::<char>::empty());
        assert(s.last() == spec_digit_char(n as int));
        assert(s[0] == spec_digit_char(n as int));
        assert(spec_dec_value(Seq::<char>::empty()) == 0);
        assert(spec_dec_value(s) == digit_value(spec_digit_char(n as int)));
    } else {
        lemma_u64_string_value(n / 10);
        lemma_digit_char_value((n % 10) as int);
        let s = spec_u64_string(n);
        assert(s.drop_last() =~= spec_u64_string(n / 10));
        assert(s.last() == spec_digit_char((n % 10) as int));
        assert forall|i: int| 0 <= i < s.len() implies is_digit(#[trigger] s[i]) by {
            if i < s.len() - 1 {
                assert(s[i] == spec_u64_string(n / 10)[i]);
            }
        }
    }
}

/// Appending another digit can only grow the denoted value.
pub proof fn lemma_dec_value_prefix(s: Seq<char>, t: Seq<char>)
    requires
        all_digits(t),
        s.len() <= t.len(),
        s =~= t.subrange(0, s.len() as int),
        all_digits(s),
        spec_dec_value(s) >= 0,
    ensures
        spec_dec_value(t) >= spec_dec_value(s),
    decreases t.len() - s.len(),
{
    if s.len() < t.len() {
        let t1 = t.drop_last();
        assert(all_digits(t1)) by {
            assert(forall|i: int| 0 <= i < t1.len() ==> t1[i] == t[i]);
        }
        assert(s =~= t1.subrange(0, s.len() as int));
        lemma_dec_value_prefix(s, t1);
        lemma_dec_value_nonneg(t1);
        assert(is_digit(t.last()));
        assert(spec_dec_value(t1) >= spec_dec_value(s));
        assert(spec_dec_value(t) == spec_dec_value(t1) * 10 + digit_value(t.last()));
        assert(spec_dec_value(t1) * 10 >= spec_dec_value(t1)) by (nonlinear_arith)
            requires spec_dec_value(t1) >= 0;
    } else {
        assert(s =~= t);
    }
}

/// The digit value is nonnegative for digit strings.
pub proof fn lemma_dec_value_nonneg(s: Seq<char>)
    requires
        all_digits(s),
    ensures
        spec_dec_value(s) >= 0,
    decreases s.len(),
{
    if s.len() > 0 {
        let s1 = s.drop_last();
        assert(all_digits(s1)) by {
            assert forall|i: int| 0 <= i < s1.len() implies is_digit(#[trigger] s1[i]) by {
                assert(s1[i] == s[i]);
            }
        }
        lemma_dec_value_nonneg(s1);
        assert(is_digit(s.last()));
        assert(spec_dec_value(s1) * 10 >= 0) by (nonlinear_arith)
            requires spec_dec_value(s1) >= 0;
    }
}

fn digit_str(d: u64) -> (r: &'static str)
    requires
        d <= 9,
    ensures
        r@ =~= seq![spec_digit_char(d as int)],
{
    proof {
        reveal_strlit("0");
        reveal_strlit("1");
        reveal_strlit("2");
        reveal_strlit("3");
        reveal_strlit("4");
        reveal_strlit("5");
        reveal_strlit("6");
        reveal_strlit("7");
        reveal_strlit("8");
        reveal_strlit("9");
    }
    if d == 0 {
        "0"
    } else if d == 1 {
        "1"
    } else if d == 2 {
        "2"
    } else if d == 3 {
        "3"
    } else if d == 4 {
        "4"
    } else if d == 5 {
        "5"
    } else if d == 6 {
        "6"
    } else if d == 7 {
        "7"
    } else if d == 8 {
        "8"
    } else {
        "9"
    }
}

/// Render a number in decimal, matching `spec_u64_string`.
pub fn u64_to_string(n: u64) -> (r: String)
    ensures
        r@ == spec_u64_string(n as nat),
    decreases n,
{
    if n < 10 {
        let d = digit_str(n);
        d.to_owned()
    } else {
        let mut s = u64_to_string(n / 10);
        s.append(digit_str(n % 10));
        proof {
            assert(s@ =~= spec_u64_string(n as nat));
        }
        s
    }
}

/// Read a decimal number from a string, as an unsigned 16-bit integer.
/// Succeeds exactly on nonempty all-digit strings whose value fits.
pub fn parse_u16(s: &str) -> (r: Option<u16>)
    ensures
        (s@.len() > 0 && all_digits(s@) && spec_dec_value(s@) <= u16::MAX) <==> r is Some,
        r matches Some(v) ==> v == spec_dec_value(s@),
{
    let len = s.unicode_len();
    if len == 0 {
        return None;
    }
    let mut val: u32 = 0;
    let mut i: usize = 0;
    while i < len
        invariant
            0 < len == s@.len(),
            0 <= i <= len,
            all_digits(s@.subrange(0, i as int)),
            val == spec_dec_value(s@.subrange(0, i as int)),
            val <= u16::MAX,
        decreases len - i,
    {
        let c = s.get_char(i);
        if c < '0' || c > '9' {
            proof {
                assert(!is_digit(s@[i as int]));
            }
            return None;
        }
        let d: u32 = (c as u32) - ('0' as u32);
        let next: u32 = val * 10 + d;
        proof {
            assert(s@.subrange(0, i as int + 1).drop_last() =~= s@.subrange(0, i as int));
            assert(s@.subrange(0, i as int + 1).last() == s@[i as int]);
        }
        if next > u16::MAX as u32 {
            proof {
                let p = s@.subrange(0, i as int + 1);
                assert(all_digits(p)) by {
                    assert(forall|j: int| 0 <= j < i ==> p[j] == s@[j]);
                    assert(p[i as int] == s@[i as int]);
                }
                lemma_dec_value_nonneg(p);
                if s@.len() > 0 && all_digits(s@) && spec_dec_value(s@) <= u16::MAX {
                    assert(p =~= s@.subrange(0, p.len() as int));
                    lemma_dec_value_prefix(p, s@);
                    assert(false);
                }
            }
            return None;
        }
        val = next;
        i += 1;
    }
    proof {
        assert(s@.subrange(0, len as int) =~= s@);
    }
    Some(val as u16)
}

} // verus!
