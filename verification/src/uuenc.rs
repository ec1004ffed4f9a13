//! Six bits to a byte: the armour in which scripts carry fonts and pictures.
//!
//! The bytes are laid out as bits, lowest bit of each byte first, and cut
//! into groups of six; the last group may be shorter. Each group is read
//! as a number and moved up by 33 into printable range. How a group that
//! lies across two words of storage is read depends on the machine, so
//! what is known of a group's number is its range and no more.

use vstd::prelude::*;
use vstd::arithmetic::power2::{lemma2_to64, pow2};
use bitvec::field::BitField;
use bitvec::order::Lsb0;
use bitvec::vec::BitVec;
use bitvec::view::AsBits;
use bytes::Bytes;

verus! {

/// `bytes::Bytes`, a buffer of bytes.
#[verifier::external_type_specification]
#[verifier::external_body]
pub struct ExBytes(Bytes);

/// A growable row of bits: a `bitvec::vec::BitVec` over words of storage,
/// each word's bits counted from the lowest.
#[verifier::external_body]
pub struct Bits {
    inner: BitVec<usize, Lsb0>,
}

/// The bytes that a buffer holds.
pub uninterp spec fn bytes_held(b: Bytes) -> Seq<u8>;

/// The bits that a row of bits holds, in order.
pub uninterp spec fn bits_held(v: Bits) -> Seq<bool>;

/// Bit `k` of `bytes`, counted through the bytes in order and in each
/// byte from the lowest bit up.
pub open spec fn bit_at(bytes: Seq<u8>, k: int) -> bool {
    (bytes[k / 8] >> ((k % 8) as u8)) & 1u8 == 1u8
}

/// The bits of `bytes`, lowest bit of each byte first.
pub open spec fn bits_of(bytes: Seq<u8>) -> Seq<bool> {
    Seq::new(8 * bytes.len(), |k: int| bit_at(bytes, k))
}

/// The most bits that one row can hold: an eighth of the largest index.
pub open spec fn most_bits() -> int {
    usize::MAX as int / 8
}

/// The most bytes whose bits one row can hold.
pub open spec fn most_bytes() -> int {
    usize::MAX as int / 64
}

/// Calls `Bytes::len`: the number of bytes in the buffer.
#[verifier::external_body]
fn bytes_len(b: &Bytes) -> (n: usize)
    ensures
        n == bytes_held(*b).len(),
{
    b.len()
}

/// Calls `BitVec::new`: a row without bits.
#[verifier::external_body]
fn bits_new() -> (v: Bits)
    ensures
        bits_held(v) == Seq::<bool>::empty(),
{
    Bits { inner: BitVec::new() }
}

/// Calls `BitVec::extend_from_bitslice` on the bits of a buffer, which
/// `AsBits::as_bits` views in the order `Lsb0`: the row grows by the bits
/// of the buffer's bytes, lowest bit of each byte first. Both calls give
/// up on more bits than a row can hold, so the caller keeps below that.
#[verifier::external_body]
fn bits_extend(v: &mut Bits, b: &Bytes)
    requires
        bits_held(*old(v)).len() + 8 * bytes_held(*b).len() <= most_bits(),
    ensures
        bits_held(*final(v)) == bits_held(*old(v)) + bits_of(bytes_held(*b)),
{
    v.inner.extend_from_bitslice(b.as_bits::<Lsb0>())
}

/// Calls `BitVec::len`: the number of bits in the row.
#[verifier::external_body]
fn bits_len(v: &Bits) -> (n: usize)
    ensures
        n == bits_held(*v).len(),
{
    v.inner.len()
}

/// Calls `BitField::load` on the bits from index `from` up to, not
/// including, index `to`: those bits read as a number, the bits above
/// them zero. Which of them counts most where they lie across two words
/// of storage is the machine's choice, so only the range is stated. The
/// call gives up on no bits and on more than eight.
#[verifier::external_body]
fn bits_load(v: &Bits, from: usize, to: usize) -> (n: u8)
    requires
        from < to <= bits_held(*v).len(),
        to - from <= 8,
    ensures
        (n as int) < pow2((to - from) as nat),
{
    v.inner[from..to].load::<u8>()
}

/// The input has more bytes than one row of bits can hold.
#[derive(Clone, Copy, Debug, PartialEq, Eq, Structural)]
pub struct TooLong;

/// The printable byte for a group of six bits: the group's number moved
/// up by 33. A number that six bits cannot write has none.
pub fn armor(group: u8) -> (r: Option<u8>)
    ensures
        r == if group < 64 {
            Some((group + 33) as u8)
        } else {
            None::<u8>
        },
{
    if group < 64 {
        Some(group + 33)
    } else {
        None
    }
}

/// The number of groups of six that `bits` bits make, the last one
/// perhaps short.
pub open spec fn groups(bits: int) -> int {
    (bits + 5) / 6
}

/// Armours the bytes of `b`: one printable byte, from `!` to `` ` ``, for
/// every six bits, and one for what is left over at the end.
///
/// A buffer of more bytes than a row of bits can hold is `TooLong`.
pub fn uuencode(b: Bytes) -> (r: Result<Vec<u8>, TooLong>)
    ensures
        r is Ok <==> bytes_held(b).len() <= most_bytes(),
        r matches Ok(out) ==> out@.len() == groups(8 * bytes_held(b).len() as int) && forall|k: int|
            0 <= k < out@.len() ==> 33 <= #[trigger] out@[k] <= 96,
{
    let n = bytes_len(&b);
    if n > usize::MAX / 64 {
        return Err(TooLong);
    }
    let mut bits = bits_new();
    bits_extend(&mut bits, &b);
    let total = bits_len(&bits);
    assert(total == 8 * n);
    let mut out: Vec<u8> = Vec::new();
    let mut at: usize = 0;
    while at < total
        invariant
            total == bits_held(bits).len(),
            total == 8 * n,
            at <= total + 5,
            at % 6 == 0,
            out@.len() == at / 6,
            at >= total ==> at == 6 * groups(total as int),
            forall|k: int| 0 <= k < out@.len() ==> 33 <= #[trigger] out@[k] <= 96,
        decreases total + 6 - at,
    {
        let to = if total - at < 6 {
            total
        } else {
            at + 6
        };
        let group = bits_load(&bits, at, to);
        proof {
            lemma2_to64();
            vstd::arithmetic::power2::lemma_pow2_strictly_increases((to - at) as nat, 7);
        }
        match armor(group) {
            Some(c) => {
                out.push(c);
            },
            None => {},
        }
        at = at + 6;
    }
    Ok(out)
}

} // verus!
