//! Plain-value decoding of wire fields: field lookup in a key-value message
//! and the numeric parsers the command schema needs.
use vstd::prelude::*;

verus! {

/// The value of the first field carrying the name, if any.
pub open spec fn first_field(fs: Seq<(String, String)>, name: Seq<char>) -> Option<Seq<char>>
    decreases fs.len(),
{
    if fs.len() == 0 {
        None
    } else if fs[0].0@ == name {
        Some(fs[0].1@)
    } else {
        first_field(fs.drop_first(), name)
    }
}

/// The first field carrying the name is the one at `i`.
proof fn lemma_first_field_at(fs: Seq<(String, String)>, name: Seq<char>, i: int)
    requires
        0 <= i < fs.len(),
        fs[i].0@ == name,
        forall|j: int| 0 <= j < i ==> fs[j].0@ != name,
    ensures
        first_field(fs, name) == Some(fs[i].1@),
    decreases i,
{
    if i > 0 {
        lemma_first_field_at(fs.drop_first(), name, i - 1);
    }
}

/// No field carries the name.
proof fn lemma_first_field_none(fs: Seq<(String, String)>, name: Seq<char>)
    requires
        forall|j: int| 0 <= j < fs.len() ==> fs[j].0@ != name,
    ensures
        first_field(fs, name) is None,
    decreases fs.len(),
{
    if fs.len() > 0 {
        lemma_first_field_none(fs.drop_first(), name);
    }
}

/// The value of the first field carrying the name, copied out.
pub fn get_field(fields: &Vec<(String, String)>, name: &String) -> (r: Option<String>)
    ensures
        match r {
            Some(v) => first_field(fields@, name@) == Some(v@),
            None => first_field(fields@, name@) is None,
        },
{
    let n = fields.len();
    let mut i: usize = 0;
    while i < n
        invariant
            i <= n,
            n == fields@.len(),
            forall|j: int| 0 <= j < i ==> fields@[j].0@ != name@,
        decreases n - i,
    {
        if fields[i].0 == *name {
            proof {
                lemma_first_field_at(fields@, name@, i as int);
            }
            return Some(crate::state::clone_string(&fields[i].1));
        }
        i = i + 1;
    }
    proof {
        lemma_first_field_none(fields@, name@);
    }
    None
}

/// A decimal digit.
pub open spec fn is_digit(c: char) -> bool {
    '0' <= c <= '9'
}

/// Its numeric value.
pub open spec fn digit_val(c: char) -> int {
    c as int - '0' as int
}

/// Every character is a digit.
pub open spec fn all_digits(s: Seq<char>) -> bool {
    forall|i: int| 0 <= i < s.len() ==> is_digit(#[trigger] s[i])
}

/// The number the digit string denotes, most significant first.
pub open spec fn digits_value(s: Seq<char>) -> int
    decreases s.len(),
{
    if s.len() == 0 {
        0
    } else {
        digits_value(s.drop_last()) * 10 + digit_val(s.last())
    }
}

/// A digit string's value is not negative.
proof fn lemma_digits_value_nonneg(s: Seq<char>)
    requires
        all_digits(s),
    ensures
        digits_value(s) >= 0,
    decreases s.len(),
{
    if s.len() > 0 {
        assert(all_digits(s.drop_last()));
        lemma_digits_value_nonneg(s.drop_last());
        assert(is_digit(s[s.len() - 1]));
    }
}

/// A digit string's value only grows as digits follow.
proof fn lemma_digits_value_grows(s: Seq<char>, i: int)
    requires
        all_digits(s),
        0 <= i <= s.len(),
    ensures
        digits_value(s) >= digits_value(s.take(i)),
    decreases s.len() - i,
{
    if i < s.len() {
        lemma_digits_value_grows(s, i + 1);
        assert(s.take(i + 1).drop_last() =~= s.take(i));
        assert(all_digits(s.take(i)) && all_digits(s.take(i + 1))) by {
            assert(forall|j: int| 0 <= j < i + 1 ==> is_digit(#[trigger] s.take(i + 1)[j]));
        }
        lemma_digits_value_nonneg(s.take(i));
        assert(is_digit(s.take(i + 1).last()));
        assert(digits_value(s.take(i + 1)) == digits_value(s.take(i)) * 10 + digit_val(
            s.take(i + 1).last(),
        ));
        assert(digits_value(s.take(i)) * 10 >= digits_value(s.take(i))) by (nonlinear_arith)
            requires
                digits_value(s.take(i)) >= 0,
        ;
    } else {
        assert(s.take(i) =~= s);
    }
}

/// A digit string as a number, when it is one and it fits: exactly the
/// non-empty all-digit strings denoting at most `u64::MAX`.
pub fn parse_u64_digits(s: &str) -> (r: Option<u64>)
    ensures
        r is Some <==> s@.len() > 0 && all_digits(s@) && digits_value(s@) <= u64::MAX,
        r matches Some(v) ==> v == digits_value(s@),
{
    let n = s.unicode_len();
    if n == 0 {
        return None;
    }
    let mut v: u64 = 0;
    let mut i: usize = 0;
    while i < n
        invariant
            i <= n,
            n == s@.len(),
            all_digits(s@.take(i as int)),
            v == digits_value(s@.take(i as int)),
        decreases n - i,
    {
        let c = s.get_char(i);
        if !(c >= '0' && c <= '9') {
            proof {
                assert(!is_digit(s@[i as int]));
            }
            return None;
        }
        let d: u64 = (c as u32 as u64) - 48;
        proof {
            assert(s@.take(i + 1).drop_last() =~= s@.take(i as int));
            assert(s@.take(i + 1).last() == s@[i as int]);
            assert(all_digits(s@.take(i + 1)));
            lemma_digits_value_nonneg(s@.take(i as int));
        }
        if v > (u64::MAX - d) / 10 {
            proof {
                crate::dec::lemma_scaled_bound(v as int, 10, (u64::MAX - d) as int);
                assert(digits_value(s@.take(i + 1)) > u64::MAX);
                if all_digits(s@) {
                    lemma_digits_value_grows(s@, i + 1);
                }
            }
            return None;
        }
        proof {
            crate::dec::lemma_scaled_bound(v as int, 10, (u64::MAX - d) as int);
        }
        v = v * 10 + d;
        i = i + 1;
    }
    proof {
        assert(s@.take(n as int) =~= s@);
    }
    Some(v)
}

/// A digit string as a `u32`, when it is one and it fits.
pub fn parse_u32_digits(s: &str) -> (r: Option<u32>)
    ensures
        r is Some <==> s@.len() > 0 && all_digits(s@) && digits_value(s@) <= u32::MAX,
        r matches Some(v) ==> v == digits_value(s@),
{
    match parse_u64_digits(s) {
        Some(v) => {
            if v <= 0xffff_ffff {
                Some(v as u32)
            } else {
                None
            }
        },
        None => {
            proof {
                if s@.len() > 0 && all_digits(s@) {
                    lemma_digits_value_nonneg(s@);
                }
            }
            None
        },
    }
}

/// A digit string as an `i64` count of seconds, when it is one and it fits.
pub fn parse_i64_digits(s: &str) -> (r: Option<i64>)
    ensures
        r is Some <==> s@.len() > 0 && all_digits(s@) && digits_value(s@) <= i64::MAX,
        r matches Some(v) ==> v == digits_value(s@),
{
    match parse_u64_digits(s) {
        Some(v) => {
            if v <= 0x7fff_ffff_ffff_ffff {
                Some(v as i64)
            } else {
                None
            }
        },
        None => {
            proof {
                if s@.len() > 0 && all_digits(s@) {
                    lemma_digits_value_nonneg(s@);
                }
            }
            None
        },
    }
}

} // verus!
