use vstd::prelude::*;
use sha2::{Digest, Sha256};

verus! {

/// The SHA-256 digest of `data`.
pub uninterp spec fn sha256_of(data: Seq<u8>) -> Seq<u8>;

/// Relies on sha2's `Sha256::digest`: the digest depends on the bytes alone
/// and is 32 bytes long.
#[verifier::external_body]
fn sha256(data: &[u8]) -> (r: Vec<u8>)
    ensures
        r@ == sha256_of(data@),
        r@.len() == 32,
{
    Sha256::digest(data).to_vec()
}

/// The sixteen lower-case hexadecimal digits, in order.
pub open spec fn hex_digits() -> Seq<char> {
    seq!['0', '1', '2', '3', '4', '5', '6', '7', '8', '9', 'a', 'b', 'c', 'd', 'e', 'f']
}

/// Lower-case hexadecimal, two digits per byte, high digit first.
pub open spec fn hex_of(b: Seq<u8>) -> Seq<char>
    decreases b.len(),
{
    if b.len() == 0 {
        Seq::empty()
    } else {
        hex_of(b.drop_last()) + seq![
            hex_digits()[(b.last() / 16) as int],
            hex_digits()[(b.last() % 16) as int],
        ]
    }
}

fn hex_digit(n: u8) -> (r: &'static str)
    requires
        n < 16,
    ensures
        r@ == seq![hex_digits()[n as int]],
{
    let all = "0123456789abcdef";
    proof {
        reveal_strlit("0123456789abcdef");
    }
    assert(all@ =~= hex_digits());
    let s = all.substring_char(n as usize, (n + 1) as usize);
    assert(s@ =~= seq![hex_digits()[n as int]]);
    s
}

/// `bytes` in lower-case hexadecimal.
pub fn hex_encode(bytes: &[u8]) -> (r: String)
    ensures
        r@ == hex_of(bytes@),
{
    let mut s = String::new();
    let mut i: usize = 0;
    while i < bytes.len()
        invariant
            i <= bytes@.len(),
            s@ == hex_of(bytes@.subrange(0, i as int)),
        decreases bytes@.len() - i,
    {
        let b = bytes[i];
        s.append(hex_digit(b / 16));
        s.append(hex_digit(b % 16));
        assert(bytes@.subrange(0, i + 1).drop_last() =~= bytes@.subrange(0, i as int));
        i = i + 1;
    }
    assert(bytes@.subrange(0, bytes@.len() as int) =~= bytes@);
    s
}

/// The content fingerprint of a file whose bytes are `data`: its SHA-256
/// digest in lower-case hexadecimal.
pub fn content_fingerprint(data: &[u8]) -> (r: String)
    ensures
        r@ == hex_of(sha256_of(data@)),
{
    let digest = sha256(data);
    hex_encode(digest.as_slice())
}

} // verus!
