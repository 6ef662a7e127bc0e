use vstd::prelude::*;

verus! {

/// The ten decimal digits, in order.
pub open spec fn digits() -> Seq<char> {
    seq!['0', '1', '2', '3', '4', '5', '6', '7', '8', '9']
}

/// The decimal notation of `n`, without leading zeros.
pub open spec fn dec(n: nat) -> Seq<char>
    decreases n,
{
    if n < 10 {
        seq![digits()[n as int]]
    } else {
        dec(n / 10).push(digits()[(n % 10) as int])
    }
}

/// The decimal notation of `n`, left-padded with zeros to at least `w`
/// characters.
pub open spec fn padded(n: nat, w: nat) -> Seq<char> {
    if dec(n).len() >= w {
        dec(n)
    } else {
        Seq::new((w - dec(n).len()) as nat, |_i: int| '0') + dec(n)
    }
}

/// The decimal notation of the integer `y`, its magnitude padded to `w`
/// digits, with a leading `-` when negative.
pub open spec fn signed_padded(y: int, w: nat) -> Seq<char> {
    if y < 0 {
        seq!['-'] + padded((-y) as nat, w)
    } else {
        padded(y as nat, w)
    }
}

fn digit_text(d: u128) -> (r: String)
    requires
        d < 10,
    ensures
        r@ == seq![digits()[d as int]],
{
    let all = "0123456789";
    proof {
        reveal_strlit("0123456789");
    }
    assert(all@ =~= digits());
    let s = all.substring_char(d as usize, (d + 1) as usize);
    assert(s@ =~= seq![digits()[d as int]]);
    String::from_str(s)
}

/// The decimal notation of `n`.
pub fn decimal(n: u128) -> (r: String)
    ensures
        r@ == dec(n as nat),
    decreases n,
{
    if n < 10 {
        digit_text(n)
    } else {
        let mut s = decimal(n / 10);
        let d = digit_text(n % 10);
        s.append(d.as_str());
        s
    }
}

/// The decimal notation of `n`, left-padded with zeros to `w` characters.
pub fn padded_decimal(n: u128, w: usize) -> (r: String)
    ensures
        r@ == padded(n as nat, w as nat),
{
    let d = decimal(n);
    let len = d.as_str().unicode_len();
    if len >= w {
        return d;
    }
    let mut s = String::new();
    let mut i: usize = len;
    while i < w
        invariant
            len <= i <= w,
            s@ == Seq::new((i - len) as nat, |_i: int| '0'),
        decreases w - i,
    {
        let z = "0";
        proof {
            reveal_strlit("0");
        }
        s.append(z);
        assert(s@ =~= Seq::new((i + 1 - len) as nat, |_i: int| '0'));
        i = i + 1;
    }
    s.append(d.as_str());
    s
}

/// The decimal notation of `y`, its magnitude padded to `w` digits, with a
/// leading `-` when negative.
pub fn signed_padded_decimal(y: i64, w: usize) -> (r: String)
    ensures
        r@ == signed_padded(y as int, w as nat),
{
    if y < 0 {
        let mag: u128 = (-(y as i128)) as u128;
        let mut s = String::from_str("-");
        proof {
            reveal_strlit("-");
        }
        let p = padded_decimal(mag, w);
        s.append(p.as_str());
        s
    } else {
        padded_decimal(y as u128, w)
    }
}

pub open spec fn is_digit(c: char) -> bool {
    '0' <= c && c <= '9'
}

pub open spec fn all_digits(s: Seq<char>) -> bool {
    forall|i: int| 0 <= i < s.len() ==> is_digit(#[trigger] s[i])
}

/// The value of a string of decimal digits.
pub open spec fn digits_value(s: Seq<char>) -> nat
    decreases s.len(),
{
    if s.len() == 0 {
        0
    } else {
        digits_value(s.drop_last()) * 10 + (s.last() as nat - '0' as nat) as nat
    }
}

/// What `str::parse::<u64>` gives: an optional `+`, then one or more
/// decimal digits whose value fits in 64 bits.
pub open spec fn unsigned_of(s: Seq<char>) -> Option<u64> {
    let body = if s.len() > 0 && s[0] == '+' {
        s.drop_first()
    } else {
        s
    };
    if body.len() > 0 && all_digits(body) && digits_value(body) <= u64::MAX {
        Some(digits_value(body) as u64)
    } else {
        None
    }
}

proof fn lemma_digits_value_grows(s: Seq<char>, i: int)
    requires
        0 <= i <= s.len(),
        all_digits(s),
    ensures
        digits_value(s.subrange(0, i)) <= digits_value(s),
    decreases s.len() - i,
{
    if i < s.len() {
        lemma_digits_value_grows(s, i + 1);
        assert(s.subrange(0, i + 1).drop_last() =~= s.subrange(0, i));
    } else {
        assert(s.subrange(0, i) =~= s);
    }
}

/// The value of the decimal digits `s[from..to]`, when they are all digits
/// and it fits in 64 bits.
pub fn digits_in(s: &str, from: usize, to: usize) -> (r: Option<u64>)
    requires
        from <= to <= s@.len(),
    ensures
        ({
            let d = s@.subrange(from as int, to as int);
            r == if all_digits(d) && digits_value(d) <= u64::MAX {
                Some(digits_value(d) as u64)
            } else {
                None::<u64>
            }
        }),
{
    let ghost d = s@.subrange(from as int, to as int);
    let mut acc: u128 = 0;
    let mut i: usize = from;
    while i < to
        invariant
            from <= i <= to <= s@.len(),
            d == s@.subrange(from as int, to as int),
            all_digits(s@.subrange(from as int, i as int)),
            acc == digits_value(s@.subrange(from as int, i as int)),
            acc <= u64::MAX,
        decreases to - i,
    {
        let c = s.get_char(i);
        assert(s@.subrange(from as int, i + 1).drop_last() =~= s@.subrange(from as int, i as int));
        if !('0' <= c && c <= '9') {
            assert(d[i - from] == c);
            return None;
        }
        acc = acc * 10 + (c as u32 - '0' as u32) as u128;
        if acc > u64::MAX as u128 {
            proof {
                assert(all_digits(s@.subrange(from as int, i + 1)));
                assert(s@.subrange(from as int, i + 1) =~= d.subrange(0, i + 1 - from));
                if all_digits(d) {
                    lemma_digits_value_grows(d, i + 1 - from);
                }
            }
            return None;
        }
        i = i + 1;
    }
    assert(s@.subrange(from as int, i as int) =~= d);
    Some(acc as u64)
}

/// `s` read as `str::parse::<u64>` reads it.
pub fn parse_unsigned(s: &str) -> (r: Option<u64>)
    ensures
        r == unsigned_of(s@),
{
    let n = s.unicode_len();
    let from: usize = if n > 0 && s.get_char(0) == '+' { 1 } else { 0 };
    if from == n {
        return None;
    }
    let r = digits_in(s, from, n);
    assert(s@.subrange(from as int, n as int) =~= if from == 1 { s@.drop_first() } else { s@ });
    r
}

} // verus!
