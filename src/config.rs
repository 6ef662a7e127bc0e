use vstd::prelude::*;
use crate::text::{all_digits, digits_value, digits_in, is_digit};

verus! {

/// Why a size expression was refused.
#[derive(Clone, Copy, Debug, PartialEq, Eq, Structural)]
pub enum SizeError {
    /// It does not start with a decimal digit.
    Malformed,
    /// What follows the digits is not a known unit.
    UnknownUnit,
    /// It resolves to zero bytes.
    NotPositive,
    /// It resolves to more bytes than 64 bits hold.
    TooLarge,
}

/// The position of the first non-digit at or after `i`, or the length.
pub open spec fn digits_end(s: Seq<char>, i: int) -> int
    decreases s.len() - i,
{
    if i >= s.len() || i < 0 {
        s.len() as int
    } else if !is_digit(s[i]) {
        i
    } else {
        digits_end(s, i + 1)
    }
}

/// `u` is the upper-case ASCII word `w`, up to the case of its letters.
pub open spec fn same_letters(u: Seq<char>, w: Seq<char>) -> bool {
    u.len() == w.len() && forall|i: int|
        0 <= i < u.len() ==> #[trigger] u[i] == w[i] || ('A' <= w[i] && w[i] <= 'Z' && u[i] as int
            == w[i] as int + 32)
}

/// The number of bytes in one unit: none or `B` for bytes; `K`, `M`, `G`,
/// `T` (optionally followed by `B`) for powers of 1000; `KiB`, `MiB`,
/// `GiB`, `TiB` for powers of 1024; letters in either case.
pub open spec fn unit_factor(u: Seq<char>) -> Option<nat> {
    if u.len() == 0 || same_letters(u, seq!['B']) {
        Some(1)
    } else if same_letters(u, seq!['K']) || same_letters(u, seq!['K', 'B']) {
        Some(1000)
    } else if same_letters(u, seq!['M']) || same_letters(u, seq!['M', 'B']) {
        Some(1000000)
    } else if same_letters(u, seq!['G']) || same_letters(u, seq!['G', 'B']) {
        Some(1000000000)
    } else if same_letters(u, seq!['T']) || same_letters(u, seq!['T', 'B']) {
        Some(1000000000000)
    } else if same_letters(u, seq!['K', 'I', 'B']) {
        Some(1024)
    } else if same_letters(u, seq!['M', 'I', 'B']) {
        Some(1048576)
    } else if same_letters(u, seq!['G', 'I', 'B']) {
        Some(1073741824)
    } else if same_letters(u, seq!['T', 'I', 'B']) {
        Some(1099511627776)
    } else {
        None
    }
}

/// The byte count of a size expression: decimal digits, then a unit.
pub open spec fn size_of(s: Seq<char>) -> Result<u64, SizeError> {
    let k = digits_end(s, 0);
    if k == 0 {
        Err(SizeError::Malformed)
    } else {
        match unit_factor(s.subrange(k, s.len() as int)) {
            None => Err(SizeError::UnknownUnit),
            Some(f) => {
                let v = digits_value(s.subrange(0, k)) * f;
                if v == 0 {
                    Err(SizeError::NotPositive)
                } else if v > u64::MAX {
                    Err(SizeError::TooLarge)
                } else {
                    Ok(v as u64)
                }
            },
        }
    }
}

fn letters_match(u: &str, w: &str) -> (r: bool)
    ensures
        r == same_letters(u@, w@),
{
    let n = u.unicode_len();
    if n != w.unicode_len() {
        return false;
    }
    let mut i: usize = 0;
    while i < n
        invariant
            n == u@.len() == w@.len(),
            i <= n,
            forall|j: int|
                0 <= j < i ==> #[trigger] u@[j] == w@[j] || ('A' <= w@[j] && w@[j] <= 'Z' && u@[j] as int
                    == w@[j] as int + 32),
        decreases n - i,
    {
        let c = u.get_char(i);
        let d = w.get_char(i);
        if !(c == d || ('A' <= d && d <= 'Z' && c as u32 == d as u32 + 32)) {
            return false;
        }
        i = i + 1;
    }
    true
}

fn factor_of(u: &str) -> (r: Option<u64>)
    ensures
        match unit_factor(u@) {
            Some(f) => r == Some(f as u64),
            None => r is None,
        },
{
    proof {
        reveal_strlit("B");
        reveal_strlit("K");
        reveal_strlit("KB");
        reveal_strlit("M");
        reveal_strlit("MB");
        reveal_strlit("G");
        reveal_strlit("GB");
        reveal_strlit("T");
        reveal_strlit("TB");
        reveal_strlit("KIB");
        reveal_strlit("MIB");
        reveal_strlit("GIB");
        reveal_strlit("TIB");
    }
    if u.unicode_len() == 0 || letters_match(u, "B") {
        Some(1)
    } else if letters_match(u, "K") || letters_match(u, "KB") {
        Some(1000)
    } else if letters_match(u, "M") || letters_match(u, "MB") {
        Some(1000000)
    } else if letters_match(u, "G") || letters_match(u, "GB") {
        Some(1000000000)
    } else if letters_match(u, "T") || letters_match(u, "TB") {
        Some(1000000000000)
    } else if letters_match(u, "KIB") {
        Some(1024)
    } else if letters_match(u, "MIB") {
        Some(1048576)
    } else if letters_match(u, "GIB") {
        Some(1073741824)
    } else if letters_match(u, "TIB") {
        Some(1099511627776)
    } else {
        None
    }
}

/// The byte count of a size expression such as `5GB`; see `size_of`.
pub fn parse_size(s: &str) -> (r: Result<u64, SizeError>)
    ensures
        r == size_of(s@),
{
    let n = s.unicode_len();
    let mut k: usize = 0;
    while k < n && '0' <= s.get_char(k) && s.get_char(k) <= '9'
        invariant
            n == s@.len(),
            k <= n,
            digits_end(s@, 0) == digits_end(s@, k as int),
            all_digits(s@.subrange(0, k as int)),
        decreases n - k,
    {
        assert(s@.subrange(0, k + 1) =~= s@.subrange(0, k as int).push(s@[k as int]));
        k = k + 1;
    }
    if k == 0 {
        return Err(SizeError::Malformed);
    }
    let f = match factor_of(s.substring_char(k, n)) {
        Some(f) => f,
        None => return Err(SizeError::UnknownUnit),
    };
    match digits_in(s, 0, k) {
        None => {
            assert(digits_value(s@.subrange(0, k as int)) * f >= digits_value(s@.subrange(0, k as int))) by (nonlinear_arith)
                requires f >= 1;
            Err(SizeError::TooLarge)
        },
        Some(v) => {
            assert(f <= 1099511627776u64);
            assert((v as u128) * (f as u128) <= 18446744073709551615u128 * 1099511627776u128) by (nonlinear_arith)
                requires v <= 18446744073709551615u64, f <= 1099511627776u64;
            let total: u128 = v as u128 * f as u128;
            if total == 0 {
                Err(SizeError::NotPositive)
            } else if total > u64::MAX as u128 {
                Err(SizeError::TooLarge)
            } else {
                Ok(total as u64)
            }
        },
    }
}

} // verus!
