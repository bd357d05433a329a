//! Variable-length integers, the length prefix of a frame.
//!
//! A number is written seven bits at a time, lowest bits first. Every byte but
//! the last has its high bit set. The bytes themselves are produced and read
//! by the `integer_encoding` crate; this module says what those bytes are and
//! proves what the frame codec needs to know about them.

use integer_encoding::VarInt;
use vstd::prelude::*;

verus! {

/// The most bytes the encoding of a 64-bit number takes.
pub const MAX_VARINT_LEN: usize = 10;

/// The encoding of `n`.
pub open spec fn varint(n: nat) -> Seq<u8>
    decreases n,
{
    if n < 128 {
        seq![n as u8]
    } else {
        seq![(n % 128 + 128) as u8] + varint(n / 128)
    }
}

/// How many bytes the number at the start of `s` takes: all up to and
/// including the first byte below `0x80`. `None` if `s` has no such byte.
pub open spec fn varint_len(s: Seq<u8>) -> Option<nat>
    decreases s.len(),
{
    if s.len() == 0 {
        None
    } else if s[0] < 128 {
        Some(1nat)
    } else {
        match varint_len(s.drop_first()) {
            Some(k) => Some(k + 1),
            None => None,
        }
    }
}

/// The number that the bytes of `s` spell: the low seven bits of each byte,
/// lowest group first.
pub open spec fn varint_value(s: Seq<u8>) -> nat
    decreases s.len(),
{
    if s.len() == 0 {
        0
    } else {
        (s[0] % 128) as nat + 128 * varint_value(s.drop_first())
    }
}

/// What reading a 64-bit number from the start of `s` gives: the number and
/// how many bytes it took. Nothing is read if `s` ends before the number
/// does, if the number runs past ten bytes, or if its tenth byte holds more
/// than the one bit that is left of 64.
pub open spec fn decoded(s: Seq<u8>) -> Option<(u64, usize)> {
    match varint_len(s) {
        Some(len) => {
            if len <= 9 || (len == 10 && s[9] < 2) {
                Some((varint_value(s.take(len as int)) as u64, len as usize))
            } else {
                None
            }
        },
        None => None,
    }
}

/// `128` to the power `k`.
pub open spec fn pow128(k: nat) -> nat
    decreases k,
{
    if k == 0 {
        1
    } else {
        128 * pow128((k - 1) as nat)
    }
}

/// `u64::decode_var` of `integer_encoding`, on the bytes of `src`.
///
/// Trusted: the call returns [`decoded`] of the bytes. In the crate's source
/// the loop ends at the first byte without the high bit, or at the tenth
/// byte, which is accepted only if it is `0` or `1`; the low seven bits of
/// the bytes read are or-ed together, each group seven bits above the last.
#[verifier::external_body]
pub(crate) fn decode_var(src: &[u8]) -> (r: Option<(u64, usize)>)
    ensures
        r == decoded(src@),
{
    u64::decode_var(src)
}

/// `u64::encode_var` of `integer_encoding`, which writes the encoding of `n`
/// to the front of `dst` and returns its length.
///
/// Trusted: the bytes written are [`varint`] of `n`, and the bytes behind
/// them are left alone. In the crate's source each round writes the low seven
/// bits with the high bit set and shifts them out, until less than `0x80` is
/// left, which is written as the last byte. No encoding is longer than `dst`,
/// as [`lemma_decoded_of_varint`] shows.
#[verifier::external_body]
pub(crate) fn encode_var(n: u64, dst: &mut [u8; 10]) -> (len: usize)
    ensures
        len == varint(n as nat).len(),
        final(dst)@.take(len as int) == varint(n as nat),
        final(dst)@.skip(len as int) == old(dst)@.skip(len as int),
{
    n.encode_var(dst)
}

/// The length of a number at the start of `s` is at least one and within `s`.
pub proof fn lemma_varint_len_in_bounds(s: Seq<u8>)
    ensures
        varint_len(s) matches Some(k) ==> 1 <= k <= s.len(),
    decreases s.len(),
{
    if s.len() > 0 && s[0] >= 128 {
        lemma_varint_len_in_bounds(s.drop_first());
    }
}

/// A number that ends within `a` is the same number when more bytes follow.
pub proof fn lemma_varint_len_extends(a: Seq<u8>, b: Seq<u8>)
    requires
        varint_len(a) is Some,
    ensures
        varint_len(a + b) == varint_len(a),
    decreases a.len(),
{
    if a[0] >= 128 {
        assert((a + b).drop_first() =~= a.drop_first() + b);
        lemma_varint_len_extends(a.drop_first(), b);
    }
}

/// What can be read from `a` is read from `a` followed by anything.
pub proof fn lemma_decoded_extends(a: Seq<u8>, b: Seq<u8>)
    requires
        decoded(a) is Some,
    ensures
        decoded(a + b) == decoded(a),
{
    lemma_varint_len_extends(a, b);
    lemma_varint_len_in_bounds(a);
    let len = varint_len(a)->0;
    assert((a + b).take(len as int) =~= a.take(len as int));
}

/// The encoding of a number is one number long, and a strict prefix of it
/// holds no complete number.
pub proof fn lemma_varint_len_of_varint(n: nat, cut: int)
    requires
        0 <= cut < varint(n).len(),
    ensures
        varint_len(varint(n)) == Some(varint(n).len()),
        varint_len(varint(n).take(cut)) is None,
    decreases n,
{
    if n >= 128 {
        assert(varint(n).drop_first() =~= varint(n / 128));
        if cut > 0 {
            lemma_varint_len_of_varint(n / 128, cut - 1);
            assert(varint(n).take(cut).drop_first() =~= varint(n / 128).take(cut - 1));
        } else {
            lemma_varint_len_of_varint(n / 128, 0);
        }
    }
}

/// The bytes of the encoding of `n` spell `n`.
pub proof fn lemma_value_of_varint(n: nat)
    ensures
        varint_value(varint(n)) == n,
    decreases n,
{
    let bytes = varint(n);
    if n < 128 {
        assert(varint_value(bytes.drop_first()) == 0);
    } else {
        assert(bytes.drop_first() =~= varint(n / 128));
        lemma_value_of_varint(n / 128);
    }
}

/// A number below `2 * 128^k` takes at most `k + 1` bytes, and if it takes
/// that many, the last of them is `0` or `1`.
pub proof fn lemma_varint_size(n: nat, k: nat)
    requires
        n < 2 * pow128(k),
    ensures
        1 <= varint(n).len() <= k + 1,
        varint(n).len() == k + 1 ==> varint(n)[k as int] < 2,
    decreases k,
{
    if n >= 128 && k > 0 {
        lemma_varint_size(n / 128, (k - 1) as nat);
    }
}

/// `s` spells a number below `128` to the power of its length.
pub proof fn lemma_value_below_pow(s: Seq<u8>)
    ensures
        varint_value(s) < pow128(s.len()),
    decreases s.len(),
{
    if s.len() > 0 {
        lemma_value_below_pow(s.drop_first());
    }
}

/// `2 * 128^9` is `2^64`.
pub proof fn lemma_pow128_of_nine()
    ensures
        pow128(9) == 0x8000_0000_0000_0000,
{
    reveal_with_fuel(pow128, 10);
}

/// Whatever is read as a number fits in 64 bits: the value that [`decoded`]
/// gives is the number that the bytes spell.
pub proof fn lemma_decoded_value(s: Seq<u8>)
    ensures
        decoded(s) matches Some((value, len)) ==> {
            &&& 1 <= len <= s.len()
            &&& len <= MAX_VARINT_LEN
            &&& varint_len(s) == Some(len as nat)
            &&& value == varint_value(s.take(len as int))
        },
{
    if decoded(s) is Some {
        lemma_varint_len_in_bounds(s);
        let len = varint_len(s)->0;
        let head = s.take(len as int);
        lemma_pow128_of_nine();
        if len <= 9 {
            lemma_value_below_pow(head);
            lemma_pow128_grows(len, 9);
        } else {
            lemma_value_split_last(head);
            lemma_value_below_pow(head.drop_last());
        }
    }
}

/// `128^j` is no more than `128^k` when `j` is no more than `k`.
pub proof fn lemma_pow128_grows(j: nat, k: nat)
    requires
        j <= k,
    ensures
        pow128(j) <= pow128(k),
        pow128(j) >= 1,
    decreases k,
{
    if j < k {
        lemma_pow128_grows(j, (k - 1) as nat);
    } else if k > 0 {
        lemma_pow128_grows((j - 1) as nat, (k - 1) as nat);
    }
}

/// The last byte of `s` counts `128` to the power of its index.
pub proof fn lemma_value_split_last(s: Seq<u8>)
    requires
        s.len() > 0,
    ensures
        varint_value(s) == varint_value(s.drop_last()) + (s.last() % 128) * pow128(
            (s.len() - 1) as nat,
        ),
    decreases s.len(),
{
    if s.len() == 1 {
        assert(s.drop_first() =~= Seq::<u8>::empty());
        assert(varint_value(Seq::<u8>::empty()) == 0);
        assert((s.last() % 128) * 1 == (s[0] % 128) as int);
    } else {
        let tail = s.drop_first();
        let front = s.drop_last();
        lemma_value_split_last(tail);
        assert(tail.drop_last() =~= front.drop_first());
        let p = pow128((s.len() - 2) as nat);
        let last = (s.last() % 128) as int;
        assert(128 * (last * p) == last * (128 * p)) by (nonlinear_arith);
    }
}

/// Reading the encoding of a 64-bit number gives the number back, whatever
/// follows the encoding.
pub proof fn lemma_decoded_of_varint(n: nat, rest: Seq<u8>)
    requires
        n <= u64::MAX,
    ensures
        decoded(varint(n) + rest) == Some((n as u64, varint(n).len() as usize)),
        varint(n).len() <= MAX_VARINT_LEN,
{
    let bytes = varint(n);
    lemma_pow128_of_nine();
    lemma_varint_size(n, 9);
    lemma_varint_len_of_varint(n, 0);
    lemma_varint_len_extends(bytes, rest);
    lemma_value_of_varint(n);
    assert((bytes + rest).take(bytes.len() as int) =~= bytes);
}

/// Nothing is read from a strict prefix of an encoding.
pub proof fn lemma_decoded_of_cut_varint(n: nat, cut: int)
    requires
        0 <= cut < varint(n).len(),
    ensures
        decoded(varint(n).take(cut)) is None,
{
    lemma_varint_len_of_varint(n, cut);
}

} // verus!
