use vstd::prelude::*;
use vstd::string::StrSliceExecFns;
use crate::errors::CacheError;

verus! {

/// Is this character a decimal digit?
pub open spec fn is_digit(c: char) -> bool {
    48 <= c as u32 <= 57
}

/// The numeric value of a digit sequence, most significant first.
pub open spec fn spec_digits_val(s: Seq<char>) -> int
    decreases s.len(),
{
    if s.len() == 0 {
        0
    } else {
        spec_digits_val(s.drop_last()) * 10 + (s.last() as u32 - 48)
    }
}

/// The strings accepted as unsigned 64-bit decimal numbers: at least one
/// character, digits only, and a value that fits.
pub open spec fn spec_is_u64_str(s: Seq<char>) -> bool {
    &&& s.len() > 0
    &&& forall|i: int| 0 <= i < s.len() ==> is_digit(#[trigger] s[i])
    &&& spec_digits_val(s) <= u64::MAX
}

/// A digit string names a non-negative value.
proof fn lemma_digits_val_nonneg(s: Seq<char>)
    requires
        forall|i: int| 0 <= i < s.len() ==> is_digit(#[trigger] s[i]),
    ensures
        spec_digits_val(s) >= 0,
    decreases s.len(),
{
    if s.len() > 0 {
        lemma_digits_val_nonneg(s.drop_last());
    }
}

/// Extending a digit prefix never shrinks its value.
proof fn lemma_digits_val_mono(s: Seq<char>, i: int)
    requires
        forall|j: int| 0 <= j < s.len() ==> is_digit(#[trigger] s[j]),
        0 <= i <= s.len(),
    ensures
        spec_digits_val(s.subrange(0, i)) <= spec_digits_val(s),
    decreases s.len() - i,
{
    if i < s.len() {
        let a = s.subrange(0, i);
        let b = s.subrange(0, i + 1);
        assert(b.drop_last() =~= a);
        assert(forall|j: int| 0 <= j < a.len() ==> is_digit(#[trigger] a[j]));
        lemma_digits_val_nonneg(a);
        assert(spec_digits_val(b) == spec_digits_val(a) * 10 + (s[i] as u32 - 48));
        assert(spec_digits_val(a) * 10 >= spec_digits_val(a));
        lemma_digits_val_mono(s, i + 1);
    } else {
        assert(s.subrange(0, i) =~= s);
    }
}

/// Parses a decimal string into an unsigned 64-bit value. Exactly the
/// strings of `spec_is_u64_str` are accepted; anything else — empty, a
/// non-digit, or a value that does not fit — is a `Parse` error.
pub fn parse_u64(s: &str) -> (r: Result<u64, CacheError>)
    ensures
        match r {
            Ok(v) => spec_is_u64_str(s@) && v == spec_digits_val(s@),
            Err(e) => e == CacheError::Parse && !spec_is_u64_str(s@),
        },
{
    let n = s.unicode_len();
    if n == 0 {
        return Err(CacheError::Parse);
    }
    let mut acc: u64 = 0;
    let mut i: usize = 0;
    proof {
        assert(s@.subrange(0, 0) =~= Seq::<char>::empty());
    }
    while i < n
        invariant
            i <= n,
            n == s@.len(),
            forall|j: int| 0 <= j < i ==> is_digit(#[trigger] s@[j]),
            acc == spec_digits_val(s@.subrange(0, i as int)),
        decreases n - i,
    {
        let c = s.get_char(i);
        let d = c as u32;
        if d < 48 || d > 57 {
            return Err(CacheError::Parse);
        }
        proof {
            assert(s@.subrange(0, i + 1).drop_last() =~= s@.subrange(0, i as int));
        }
        let scaled = match acc.checked_mul(10) {
            Some(x) => x,
            None => {
                proof {
                    if spec_is_u64_str(s@) {
                        lemma_digits_val_mono(s@, i + 1);
                        assert(spec_digits_val(s@.subrange(0, i + 1)) == acc * 10 + (s@[i as int]
                            as u32 - 48));
                        assert(false);
                    }
                }
                return Err(CacheError::Parse);
            },
        };
        let digit = (d - 48) as u64;
        let acc2 = match scaled.checked_add(digit) {
            Some(x) => x,
            None => {
                proof {
                    if spec_is_u64_str(s@) {
                        lemma_digits_val_mono(s@, i + 1);
                        assert(spec_digits_val(s@.subrange(0, i + 1)) == acc * 10 + (s@[i as int]
                            as u32 - 48));
                        assert(false);
                    }
                }
                return Err(CacheError::Parse);
            },
        };
        acc = acc2;
        i += 1;
    }
    proof {
        assert(s@.subrange(0, n as int) =~= s@);
    }
    Ok(acc)
}

/// The strings accepted as signed 64-bit decimal numbers: an optional
/// leading minus, then at least one digit, and a value that fits.
pub open spec fn spec_is_i64_str(s: Seq<char>) -> bool {
    if s.len() > 0 && s[0] == '-' {
        let d = s.subrange(1, s.len() as int);
        &&& d.len() > 0
        &&& forall|i: int| 0 <= i < d.len() ==> is_digit(#[trigger] d[i])
        &&& spec_digits_val(d) <= 0x8000000000000000
    } else {
        &&& s.len() > 0
        &&& forall|i: int| 0 <= i < s.len() ==> is_digit(#[trigger] s[i])
        &&& spec_digits_val(s) <= i64::MAX
    }
}

/// The signed value named by such a string.
pub open spec fn spec_i64_val(s: Seq<char>) -> int {
    if s.len() > 0 && s[0] == '-' {
        -spec_digits_val(s.subrange(1, s.len() as int))
    } else {
        spec_digits_val(s)
    }
}

/// Parses a decimal string into a signed 64-bit value. Exactly the strings
/// of `spec_is_i64_str` are accepted; anything else — empty, a bare or
/// misplaced sign, a non-digit, or a value that does not fit — is a `Parse`
/// error.
pub fn parse_i64(s: &str) -> (r: Result<i64, CacheError>)
    ensures
        match r {
            Ok(v) => spec_is_i64_str(s@) && v as int == spec_i64_val(s@),
            Err(e) => e == CacheError::Parse && !spec_is_i64_str(s@),
        },
{
    let n = s.unicode_len();
    if n == 0 {
        return Err(CacheError::Parse);
    }
    let c0 = s.get_char(0);
    if c0 == '-' {
        let rest = s.substring_char(1, n);
        proof {
            assert(rest@ =~= s@.subrange(1, s@.len() as int));
        }
        match parse_u64(rest) {
            Ok(m) => {
                if m > 9223372036854775808u64 {
                    Err(CacheError::Parse)
                } else if m == 9223372036854775808u64 {
                    Ok(i64::MIN)
                } else {
                    Ok(-(m as i64))
                }
            },
            Err(e) => Err(e),
        }
    } else {
        match parse_u64(s) {
            Ok(m) => {
                if m > 9223372036854775807u64 {
                    Err(CacheError::Parse)
                } else {
                    Ok(m as i64)
                }
            },
            Err(e) => Err(e),
        }
    }
}

} // verus!
