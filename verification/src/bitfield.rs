//! The bitfield represents the piece availability of a peer.

use vstd::prelude::*;

verus! {

/// A compact vector of booleans, one for each piece of a torrent.
///
/// It is laid out from the most significant to the least significant bit of
/// each byte: the highest bit of the first byte represents the first piece, the
/// second highest bit the second piece, and so on (e.g. `0b1100_0001` would mean
/// that we have pieces 0, 1, and 7). A bit that is set means that the peer has
/// the piece.
///
/// The bits are kept by the `bitvec` crate. Verus does not look inside that
/// type; [`bits`] names what it holds.
#[verifier::external_body]
#[derive(Debug, PartialEq)]
pub struct Bitfield {
    bits: bitvec::vec::BitVec<bitvec::order::Msb0, u8>,
}

/// The bits that a bitfield holds, in the order of the pieces.
pub uninterp spec fn bits(bitfield: Bitfield) -> Seq<bool>;

/// The bit at the index in a sequence of bytes, counted from the most
/// significant bit of the first byte.
pub open spec fn bit_at(bytes: Seq<u8>, i: int) -> bool {
    (bytes[i / 8] >> ((7 - i % 8) as u8)) & 1u8 == 1u8
}

/// All bits of a sequence of bytes.
pub open spec fn bits_of(bytes: Seq<u8>) -> Seq<bool> {
    Seq::new(8 * bytes.len(), |i: int| bit_at(bytes, i))
}

/// Whether the bytes are a storage of the bits: as many bytes as the bits need,
/// with the bits in front. The spare bits of the last byte may have any value.
pub open spec fn stores_bits(bytes: Seq<u8>, bits: Seq<bool>) -> bool {
    &&& bytes.len() == (bits.len() + 7) / 8
    &&& forall|i: int| 0 <= i < bits.len() ==> #[trigger] bits[i] == bit_at(bytes, i)
}

/// The number of bits that are not set.
pub open spec fn count_unset(bits: Seq<bool>) -> nat
    decreases bits.len(),
{
    if bits.len() == 0 {
        0
    } else {
        count_unset(bits.drop_last()) + (if bits.last() {
            0nat
        } else {
            1nat
        })
    }
}

/// The bits after a change of the length: cut off at the end, or filled up with
/// the value.
pub open spec fn resized(bits: Seq<bool>, len: nat, value: bool) -> Seq<bool> {
    Seq::new(
        len,
        |i: int|
            if i < bits.len() {
                bits[i]
            } else {
                value
            },
    )
}

/// The most bits that a bitfield can hold.
pub open spec fn max_bits() -> nat {
    (usize::MAX / 8) as nat
}

/// The `bitvec` function `BitVec::repeat` gives a vector of `len` bits, each of
/// them equal to `bit`. It panics above its greatest length.
#[verifier::external_body]
fn bitvec_repeat(bit: bool, len: usize) -> (r: Bitfield)
    requires
        len <= max_bits(),
    ensures
        bits(r) == Seq::new(len as nat, |i: int| bit),
{
    Bitfield { bits: bitvec::vec::BitVec::repeat(bit, len) }
}

/// The `bitvec` function `BitVec::from_vec` gives a vector of all the bits of the
/// bytes. With the order `Msb0` the first bit is the most significant one of the
/// first byte. It panics above the greatest length of a bit vector.
#[verifier::external_body]
fn bitvec_from_vec(bytes: Vec<u8>) -> (r: Bitfield)
    requires
        8 * bytes@.len() <= max_bits(),
    ensures
        bits(r) == bits_of(bytes@),
{
    Bitfield { bits: bitvec::vec::BitVec::from_vec(bytes) }
}

/// The `bitvec` function `BitVec::as_slice` gives the bytes in which the bits are
/// stored. The values of the spare bits of the last byte are not known.
#[verifier::external_body]
fn bitvec_as_slice(bitfield: &Bitfield) -> (r: &[u8])
    ensures
        stores_bits(r@, bits(*bitfield)),
{
    bitfield.bits.as_slice()
}

/// The `bitvec` function `BitSlice::len` gives the number of bits. A bit vector
/// never grows beyond its greatest length.
#[verifier::external_body]
fn bitvec_len(bitfield: &Bitfield) -> (r: usize)
    ensures
        r == bits(*bitfield).len(),
        r <= max_bits(),
{
    bitfield.bits.len()
}

/// The `bitvec` function `BitSlice::get`, called with an index, gives the bit at
/// that index, or nothing if there is none.
#[verifier::external_body]
fn bitvec_get(bitfield: &Bitfield, index: usize) -> (r: Option<bool>)
    ensures
        r == (if index < bits(*bitfield).len() {
            Some(bits(*bitfield)[index as int])
        } else {
            None
        }),
{
    bitfield.bits.get(index).copied()
}

/// The `bitvec` function `BitSlice::set` sets the bit at the index to the value.
/// It panics if there is no such bit.
#[verifier::external_body]
fn bitvec_set(bitfield: &mut Bitfield, index: usize, value: bool)
    requires
        index < bits(*old(bitfield)).len(),
    ensures
        bits(*final(bitfield)) == bits(*old(bitfield)).update(index as int, value),
{
    bitfield.bits.set(index, value)
}

/// The `bitvec` function `BitSlice::any` tells whether some bit is set.
#[verifier::external_body]
fn bitvec_any(bitfield: &Bitfield) -> (r: bool)
    ensures
        r == bits(*bitfield).contains(true),
{
    bitfield.bits.any()
}

/// The `bitvec` function `BitSlice::all` tells whether every bit is set.
#[verifier::external_body]
fn bitvec_all(bitfield: &Bitfield) -> (r: bool)
    ensures
        r == !bits(*bitfield).contains(false),
{
    bitfield.bits.all()
}

/// The `bitvec` function `BitSlice::count_zeros` gives the number of bits that
/// are not set.
#[verifier::external_body]
fn bitvec_count_zeros(bitfield: &Bitfield) -> (r: usize)
    ensures
        r == count_unset(bits(*bitfield)),
{
    bitfield.bits.count_zeros()
}

/// The `bitvec` function `BitVec::resize` changes the number of bits: it drops
/// the last ones, or adds bits that are equal to the value. It panics above the
/// greatest length.
#[verifier::external_body]
fn bitvec_resize(bitfield: &mut Bitfield, len: usize, value: bool)
    requires
        len <= max_bits(),
    ensures
        bits(*final(bitfield)) == resized(bits(*old(bitfield)), len as nat, value),
{
    bitfield.bits.resize(len, value)
}

impl Clone for Bitfield {
    /// The `Clone` implementation of `bitvec`'s `BitVec` copies the bits.
    #[verifier::external_body]
    fn clone(&self) -> (r: Bitfield)
        ensures
            bits(r) == bits(*self),
    {
        Bitfield { bits: self.bits.clone() }
    }
}

impl View for Bitfield {
    type V = Seq<bool>;

    open spec fn view(&self) -> Seq<bool> {
        bits(*self)
    }
}

impl Bitfield {
    /// Creates a bitfield of the given number of bits, all of them equal.
    pub fn repeat(bit: bool, len: usize) -> (r: Bitfield)
        requires
            len <= max_bits(),
        ensures
            r@ == Seq::new(len as nat, |i: int| bit),
    {
        bitvec_repeat(bit, len)
    }

    /// Creates a bitfield of all bits of the bytes.
    pub fn from_vec(bytes: Vec<u8>) -> (r: Bitfield)
        requires
            8 * bytes@.len() <= max_bits(),
        ensures
            r@ == bits_of(bytes@),
    {
        bitvec_from_vec(bytes)
    }

    /// Returns the bytes that store the bits.
    pub fn as_slice(&self) -> (r: &[u8])
        ensures
            stores_bits(r@, self@),
    {
        bitvec_as_slice(self)
    }

    /// Returns the number of bits.
    pub fn len(&self) -> (r: usize)
        ensures
            r == self@.len(),
            r <= max_bits(),
    {
        bitvec_len(self)
    }

    /// Returns the bit at the index, if there is one.
    pub fn get(&self, index: usize) -> (r: Option<bool>)
        ensures
            r == (if index < self@.len() {
                Some(self@[index as int])
            } else {
                None
            }),
    {
        bitvec_get(self, index)
    }

    /// Sets the bit at the index.
    pub fn set(&mut self, index: usize, value: bool)
        requires
            index < old(self)@.len(),
        ensures
            final(self)@ == old(self)@.update(index as int, value),
    {
        bitvec_set(self, index, value)
    }

    /// Tells whether some bit is set.
    pub fn any(&self) -> (r: bool)
        ensures
            r == self@.contains(true),
    {
        bitvec_any(self)
    }

    /// Tells whether every bit is set.
    pub fn all(&self) -> (r: bool)
        ensures
            r == !self@.contains(false),
    {
        bitvec_all(self)
    }

    /// Returns the number of bits that are not set.
    pub fn count_zeros(&self) -> (r: usize)
        ensures
            r == count_unset(self@),
    {
        bitvec_count_zeros(self)
    }

    /// Changes the number of bits, filling up with the value where bits are
    /// added.
    pub fn resize(&mut self, len: usize, value: bool)
        requires
            len <= max_bits(),
        ensures
            final(self)@ == resized(old(self)@, len as nat, value),
    {
        bitvec_resize(self, len, value)
    }
}

/// What a bitfield stores can be read back: the bits of its bytes begin with its
/// own bits.
pub proof fn law_stored_bits_read_back(bytes: Seq<u8>, bits: Seq<bool>)
    requires
        stores_bits(bytes, bits),
    ensures
        bits.len() <= bits_of(bytes).len() < bits.len() + 8,
        bits_of(bytes).take(bits.len() as int) == bits,
{
    assert(bits_of(bytes).take(bits.len() as int) =~= bits);
}

/// Each bit that is not set counts once.
pub proof fn law_unset_bits_are_counted(bits: Seq<bool>, bit: bool)
    ensures
        count_unset(Seq::empty()) == 0,
        count_unset(bits.push(bit)) == count_unset(bits) + if bit {
            0nat
        } else {
            1nat
        },
{
    assert(bits.push(bit).drop_last() =~= bits);
}

/// No bit is left unset exactly if all of them are set.
pub proof fn law_nothing_is_unset_when_all_are_set(bits: Seq<bool>)
    ensures
        count_unset(bits) == 0 <==> forall|i: int| 0 <= i < bits.len() ==> #[trigger] bits[i],
        count_unset(bits) <= bits.len(),
    decreases bits.len(),
{
    if bits.len() > 0 {
        let front = bits.drop_last();
        law_nothing_is_unset_when_all_are_set(front);
        if forall|i: int| 0 <= i < bits.len() ==> #[trigger] bits[i] {
            assert forall|i: int| 0 <= i < front.len() implies #[trigger] front[i] by {
                assert(bits[i]);
            }
        }
        if count_unset(bits) == 0 {
            assert forall|i: int| 0 <= i < bits.len() implies #[trigger] bits[i] by {
                if i < front.len() {
                    assert(front[i]);
                }
            }
        }
    }
}

/// A change of the length keeps the bits that are left, and fills up with the value.
pub proof fn law_resizing_keeps_the_front(bits: Seq<bool>, len: nat, value: bool, i: int)
    requires
        0 <= i < len,
    ensures
        resized(bits, len, value).len() == len,
        i < bits.len() ==> resized(bits, len, value)[i] == bits[i],
        i >= bits.len() ==> resized(bits, len, value)[i] == value,
        len == bits.len() ==> resized(bits, len, value) == bits,
{
    assert(len == bits.len() ==> resized(bits, len, value) =~= bits);
}

/// The bits of a byte are those of its binary digits, the highest first.
pub proof fn law_bits_are_binary_digits(bytes: Seq<u8>, k: int)
    requires
        0 <= k < bytes.len(),
    ensures
        bits_of(bytes).len() == 8 * bytes.len(),
        bytes[k] == (if bits_of(bytes)[8 * k] {
            128int
        } else {
            0
        }) + (if bits_of(bytes)[8 * k + 1] {
            64int
        } else {
            0
        }) + (if bits_of(bytes)[8 * k + 2] {
            32int
        } else {
            0
        }) + (if bits_of(bytes)[8 * k + 3] {
            16int
        } else {
            0
        }) + (if bits_of(bytes)[8 * k + 4] {
            8int
        } else {
            0
        }) + (if bits_of(bytes)[8 * k + 5] {
            4int
        } else {
            0
        }) + (if bits_of(bytes)[8 * k + 6] {
            2int
        } else {
            0
        }) + (if bits_of(bytes)[8 * k + 7] {
            1int
        } else {
            0
        }),
{
    let b = bytes[k];
    assert(b == ((b >> 7u8) & 1u8) * 128 + ((b >> 6u8) & 1u8) * 64 + ((b >> 5u8) & 1u8) * 32 + ((b
        >> 4u8) & 1u8) * 16 + ((b >> 3u8) & 1u8) * 8 + ((b >> 2u8) & 1u8) * 4 + ((b >> 1u8) & 1u8)
        * 2 + ((b >> 0u8) & 1u8)) by (bit_vector);
    assert(((b >> 7u8) & 1u8) <= 1 && ((b >> 6u8) & 1u8) <= 1 && ((b >> 5u8) & 1u8) <= 1 && ((b
        >> 4u8) & 1u8) <= 1 && ((b >> 3u8) & 1u8) <= 1 && ((b >> 2u8) & 1u8) <= 1 && ((b >> 1u8)
        & 1u8) <= 1 && ((b >> 0u8) & 1u8) <= 1) by (bit_vector);
    assert forall|j: int| 0 <= j < 8 implies #[trigger] bits_of(bytes)[8 * k + j] == ((b >> ((7
        - j) as u8)) & 1u8 == 1u8) by {
        assert((8 * k + j) / 8 == k);
        assert((8 * k + j) % 8 == j);
    }
    assert(bits_of(bytes)[8 * k + 0] == ((b >> 7u8) & 1u8 == 1u8));
}

} // verus!
