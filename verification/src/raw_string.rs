//! The two-word handle and the primitives that build, read and replace it.
//!
//! A handle reads as sixteen bytes in one of two ways. A string of at most
//! [`INLINE_CAPACITY`] bytes lives in the first fifteen, the storage, and the
//! sixteenth is the tag `(length << 1) | 1`. A longer string lives in a
//! buffer on the heap, and the handle holds the pointer that owns it, which
//! is even because of its alignment. The second word of the handle, read as
//! one big-endian value, is the discriminant: it is odd exactly when the
//! string is inline, and every read decodes it first.
//!
//! The two readings are the variants of one enum. The tag has sixteen values
//! only, so the compiler tells the variants apart by the tag's byte and needs
//! no room of its own: a handle, and an optional handle, take two words.

use crate::codec::{decode_discriminant, encode_discriminant, slot_bytes, slot_value};
use crate::codec::{lemma_decode_encode, lemma_low_byte, WORD_BYTES};
use vstd::prelude::*;

verus! {

/// Largest number of bytes that a handle holds without a heap buffer.
pub const INLINE_CAPACITY: usize = 15;

/// The last byte of an inline handle that holds `length` bytes.
pub open spec fn inline_tag(length: nat) -> u8
    recommends
        length <= INLINE_CAPACITY,
{
    (2 * length + 1) as u8
}

/// `count` bytes of value zero.
pub open spec fn zeros(count: int) -> Seq<u8> {
    Seq::new(count as nat, |i: int| 0u8)
}

/// The bytes of `parts`, one part after the other.
pub open spec fn concat(parts: Seq<&[u8]>) -> Seq<u8>
    decreases parts.len(),
{
    if parts.len() == 0 {
        Seq::empty()
    } else {
        concat(parts.drop_last()) + parts.last()@
    }
}

/// The last byte of an inline handle. It has sixteen values, one for each
/// length, which leaves the other bit patterns of that byte to tell a heap
/// handle, and an absent handle, from an inline one.
#[derive(Clone, Copy)]
enum Tag {
    Len0,
    Len1,
    Len2,
    Len3,
    Len4,
    Len5,
    Len6,
    Len7,
    Len8,
    Len9,
    Len10,
    Len11,
    Len12,
    Len13,
    Len14,
    Len15,
}

impl Tag {
    spec fn length(self) -> nat {
        match self {
            Tag::Len0 => 0,
            Tag::Len1 => 1,
            Tag::Len2 => 2,
            Tag::Len3 => 3,
            Tag::Len4 => 4,
            Tag::Len5 => 5,
            Tag::Len6 => 6,
            Tag::Len7 => 7,
            Tag::Len8 => 8,
            Tag::Len9 => 9,
            Tag::Len10 => 10,
            Tag::Len11 => 11,
            Tag::Len12 => 12,
            Tag::Len13 => 13,
            Tag::Len14 => 14,
            Tag::Len15 => 15,
        }
    }

    /// The byte that this tag stands for.
    fn byte(self) -> (b: u8)
        ensures
            b == inline_tag(self.length()),
    {
        match self {
            Tag::Len0 => 1,
            Tag::Len1 => 3,
            Tag::Len2 => 5,
            Tag::Len3 => 7,
            Tag::Len4 => 9,
            Tag::Len5 => 11,
            Tag::Len6 => 13,
            Tag::Len7 => 15,
            Tag::Len8 => 17,
            Tag::Len9 => 19,
            Tag::Len10 => 21,
            Tag::Len11 => 23,
            Tag::Len12 => 25,
            Tag::Len13 => 27,
            Tag::Len14 => 29,
            Tag::Len15 => 31,
        }
    }

    /// The tag that stands for `b`.
    fn from_byte(b: u8) -> (tag: Tag)
        requires
            b % 2 == 1,
            b <= 31,
        ensures
            inline_tag(tag.length()) == b,
    {
        match b {
            1 => Tag::Len0,
            3 => Tag::Len1,
            5 => Tag::Len2,
            7 => Tag::Len3,
            9 => Tag::Len4,
            11 => Tag::Len5,
            13 => Tag::Len6,
            15 => Tag::Len7,
            17 => Tag::Len8,
            19 => Tag::Len9,
            21 => Tag::Len10,
            23 => Tag::Len11,
            25 => Tag::Len12,
            27 => Tag::Len13,
            29 => Tag::Len14,
            _ => Tag::Len15,
        }
    }
}

/// The two overlaid readings of a handle's sixteen bytes.
enum Slots {
    /// Fifteen bytes of storage, then the tag.
    Inline { storage: [u8; 15], tag: Tag },
    /// The owner of the heap buffer.
    Heap(Box<Vec<u8>>),
}

/// What a handle's discriminant says of it.
#[derive(Clone, Copy, Debug, PartialEq, Eq)]
pub enum Mode {
    /// The string has `length` bytes and lives in the handle.
    Inline { length: usize },
    /// The string has `length` bytes and lives in the buffer at `pointer`.
    Heap { pointer: u64, length: usize },
}

/// A string handle of two machine words. Its content never changes in place:
/// to change it is to build a new handle.
pub struct RawJavaString {
    slots: Slots,
}

impl View for RawJavaString {
    type V = Seq<u8>;

    /// The bytes of the string.
    closed spec fn view(&self) -> Seq<u8> {
        match self.slots {
            Slots::Inline { storage, tag } => storage@.take(tag.length() as int),
            Slots::Heap(buffer) => buffer@,
        }
    }
}

/// The address of the heap cell that `cell` owns, which is what a heap handle
/// holds in its second word.
///
/// Trusted: `std::ptr::from_ref` and `addr` give the address of the box's
/// referent. A box is never null and is aligned for what it holds, and a
/// `Vec` is aligned to a machine word, so the address is even and not zero.
/// Nothing else is claimed of it.
#[verifier::external_body]
fn heap_address(cell: &Box<Vec<u8>>) -> (address: u64)
    ensures
        address != 0,
        address % 2 == 0,
{
    std::ptr::from_ref::<Vec<u8>>(cell).addr() as u64
}

/// The discriminant of a short inline string, one of at most eight bytes, is
/// its tag alone: the stored form of `(length << 1) | 1`.
pub proof fn lemma_tag_slot(length: nat)
    requires
        length <= INLINE_CAPACITY,
    ensures
        zeros(7).push(inline_tag(length)) == slot_bytes((2 * length + 1) as u64),
{
    let logical = (2 * length + 1) as u64;
    assert((logical >> 56) & 0xff == 0 && (logical >> 48) & 0xff == 0 && (logical >> 40) & 0xff == 0
        && (logical >> 32) & 0xff == 0 && (logical >> 24) & 0xff == 0 && (logical >> 16) & 0xff
        == 0 && (logical >> 8) & 0xff == 0 && logical & 0xff == logical) by (bit_vector)
        requires
            logical <= 31,
    ;
    assert(zeros(7).push(inline_tag(length)) =~= slot_bytes(logical));
}

/// A prefix of `parts` gives a prefix of their concatenation, and one part
/// more appends that part.
pub proof fn lemma_concat_prefix(parts: Seq<&[u8]>, k: int)
    requires
        0 <= k <= parts.len(),
    ensures
        concat(parts.take(k)).len() <= concat(parts).len(),
        k < parts.len() ==> concat(parts.take(k + 1)) == concat(parts.take(k)) + parts[k]@,
    decreases parts.len() - k,
{
    if k < parts.len() {
        assert(parts.take(k + 1).drop_last() =~= parts.take(k));
        lemma_concat_prefix(parts, k + 1);
    } else {
        assert(parts.take(k) =~= parts);
    }
}

/// The number of bytes in all of `bytes_list`.
fn total_len(bytes_list: &[&[u8]]) -> (total: usize)
    requires
        concat(bytes_list@).len() <= usize::MAX,
    ensures
        total == concat(bytes_list@).len(),
{
    let mut total: usize = 0;
    let mut k: usize = 0;
    while k < bytes_list.len()
        invariant
            k <= bytes_list@.len(),
            total == concat(bytes_list@.take(k as int)).len(),
            concat(bytes_list@).len() <= usize::MAX,
        decreases bytes_list@.len() - k,
    {
        proof {
            lemma_concat_prefix(bytes_list@, k as int);
            lemma_concat_prefix(bytes_list@, k + 1);
        }
        total = total + bytes_list[k].len();
        k = k + 1;
    }
    proof {
        assert(bytes_list@.take(k as int) =~= bytes_list@);
    }
    total
}

/// Copies each part of `bytes_list`, in order, to the front of `destination`.
fn copy_parts(bytes_list: &[&[u8]], destination: &mut [u8])
    requires
        concat(bytes_list@).len() <= old(destination)@.len(),
    ensures
        final(destination)@.len() == old(destination)@.len(),
        final(destination)@.take(concat(bytes_list@).len() as int) == concat(bytes_list@),
        final(destination)@.skip(concat(bytes_list@).len() as int) == old(destination)@.skip(
            concat(bytes_list@).len() as int,
        ),
{
    let ghost whole = concat(bytes_list@);
    let ghost before = destination@;
    let mut at: usize = 0;
    let mut k: usize = 0;
    while k < bytes_list.len()
        invariant
            k <= bytes_list@.len(),
            whole == concat(bytes_list@),
            whole.len() <= destination@.len(),
            destination@.len() == before.len(),
            at == concat(bytes_list@.take(k as int)).len(),
            destination@.take(at as int) == concat(bytes_list@.take(k as int)),
            destination@.skip(whole.len() as int) == before.skip(whole.len() as int),
        decreases bytes_list@.len() - k,
    {
        let part = bytes_list[k];
        let ghost done = concat(bytes_list@.take(k as int));
        proof {
            lemma_concat_prefix(bytes_list@, k as int);
            lemma_concat_prefix(bytes_list@, k + 1);
        }
        let mut j: usize = 0;
        while j < part.len()
            invariant
                j <= part@.len(),
                done.len() + part@.len() <= whole.len(),
                whole.len() <= destination@.len(),
                destination@.len() == before.len(),
                at == done.len() + j,
                destination@.take(at as int) == done + part@.take(j as int),
                destination@.skip(whole.len() as int) == before.skip(whole.len() as int),
            decreases part@.len() - j,
        {
            let ghost earlier = destination@;
            destination[at] = part[j];
            proof {
                assert(destination@.take(at + 1) =~= earlier.take(at as int).push(part@[j as int]));
                assert(part@.take(j + 1) =~= part@.take(j as int).push(part@[j as int]));
                assert(destination@.skip(whole.len() as int) =~= earlier.skip(whole.len() as int));
            }
            at = at + 1;
            j = j + 1;
        }
        proof {
            assert(part@.take(j as int) =~= part@);
        }
        k = k + 1;
    }
    proof {
        assert(bytes_list@.take(k as int) =~= bytes_list@);
    }
}

impl RawJavaString {
    #[verifier::type_invariant]
    spec fn well_formed(self) -> bool {
        match self.slots {
            Slots::Inline { storage, tag } => true,
            Slots::Heap(buffer) => buffer@.len() > INLINE_CAPACITY,
        }
    }

    /// True when the string lives in the handle itself.
    pub closed spec fn is_inline(&self) -> bool {
        self.slots is Inline
    }

    /// The fifteen bytes before the tag of an inline handle.
    pub closed spec fn storage(&self) -> Seq<u8> {
        match self.slots {
            Slots::Inline { storage, tag } => storage@,
            Slots::Heap(buffer) => zeros(15),
        }
    }

    /// The stored second word of an inline handle: the last seven bytes of
    /// its storage and the tag.
    pub open spec fn inline_slot(&self) -> Seq<u8> {
        self.storage().subrange(8, 15).push(inline_tag(self@.len()))
    }

    /// An inline handle holds at most fifteen bytes, and they are the first
    /// of its storage.
    pub proof fn lemma_inline(&self)
        requires
            self.is_inline(),
        ensures
            self@.len() <= INLINE_CAPACITY,
            self.storage().len() == 15,
            self@ == self.storage().take(self@.len() as int),
    {
    }

    /// Returns the maximum length of an inline string.
    pub fn max_intern_len() -> (n: usize)
        ensures
            n == INLINE_CAPACITY,
    {
        2 * WORD_BYTES - 1
    }

    /// Creates a new, empty handle. It is inline.
    pub fn new() -> (handle: Self)
        ensures
            handle@ == Seq::<u8>::empty(),
            handle.is_inline(),
            handle.storage() == zeros(15),
            slot_value(handle.inline_slot()) == 1,
    {
        let handle = RawJavaString { slots: Slots::Inline { storage: [0u8;15], tag: Tag::Len0 } };
        proof {
            assert(handle@ =~= Seq::<u8>::empty());
            assert(handle.storage() =~= zeros(15));
            assert(handle.inline_slot() =~= slot_bytes(1)) by {
                lemma_tag_slot(0);
            }
            lemma_decode_encode(1);
        }
        handle
    }

    /// The stored second word of the handle, in big-endian order.
    fn discriminant_slot(&self) -> (raw: [u8; 8])
        ensures
            self.is_inline() ==> raw@ == self.inline_slot(),
            !self.is_inline() ==> slot_value(raw@) != 0 && slot_value(raw@) % 2 == 0,
    {
        match &self.slots {
            Slots::Inline { storage, tag } => {
                let raw: [u8; 8] = [
                    storage[8],
                    storage[9],
                    storage[10],
                    storage[11],
                    storage[12],
                    storage[13],
                    storage[14],
                    tag.byte(),
                ];
                assert(raw@ =~= self.inline_slot());
                raw
            },
            Slots::Heap(cell) => {
                let address = heap_address(cell);
                proof {
                    lemma_decode_encode(address);
                }
                encode_discriminant(address)
            },
        }
    }

    /// Returns the logical value of the discriminant: for a heap handle the
    /// address of its buffer's owner, for an inline handle the odd value that
    /// holds the length in its low byte.
    pub fn read_ptr(&self) -> (logical: u64)
        ensures
            self.is_inline() ==> logical == slot_value(self.inline_slot()),
            logical % 2 == 1 <==> self.is_inline(),
            logical != 0,
    {
        proof {
            lemma_low_byte(self.inline_slot());
        }
        let raw = self.discriminant_slot();
        decode_discriminant(&raw)
    }

    /// Returns whether or not this string is inline.
    pub fn is_interned(&self) -> (inline: bool)
        ensures
            inline == self.is_inline(),
            inline == (self@.len() <= INLINE_CAPACITY),
    {
        proof {
            use_type_invariant(self);
            lemma_low_byte(self.inline_slot());
        }
        self.read_ptr() % 2 == 1
    }

    /// Returns the length of this string in bytes.
    pub fn len(&self) -> (n: usize)
        ensures
            n == self@.len(),
    {
        let logical = self.read_ptr();
        if logical % 2 == 1 {
            proof {
                lemma_low_byte(self.inline_slot());
            }
            let low = (logical & 0xff) as u8;
            assert(low >> 1 == low / 2) by (bit_vector);
            (low >> 1) as usize
        } else {
            proof {
                lemma_low_byte(self.inline_slot());
            }
            match &self.slots {
                Slots::Heap(cell) => cell.len(),
                Slots::Inline { storage, tag } => 0,
            }
        }
    }

    /// Tells the mode, the length and, for a heap handle, the pointer, all
    /// from the discriminant.
    pub fn classify(&self) -> (mode: Mode)
        ensures
            self.is_inline() ==> mode == (Mode::Inline { length: self@.len() as usize }),
            !self.is_inline() ==> mode is Heap && mode->Heap_length == self@.len()
                && mode->pointer != 0 && mode->pointer % 2 == 0,
            mode is Inline <==> self@.len() <= INLINE_CAPACITY,
    {
        proof {
            use_type_invariant(self);
            if self.is_inline() {
                self.lemma_inline();
            }
        }
        let logical = self.read_ptr();
        let length = self.len();
        if logical % 2 == 1 {
            proof {
                lemma_low_byte(self.inline_slot());
            }
            Mode::Inline { length }
        } else {
            proof {
                lemma_low_byte(self.inline_slot());
            }
            Mode::Heap { pointer: logical, length }
        }
    }

    /// Returns the bytes of the string: the front of the handle's own storage
    /// for an inline handle, the heap buffer otherwise.
    pub fn get_bytes(&self) -> (bytes: &[u8])
        ensures
            bytes@ == self@,
    {
        let length = self.len();
        match &self.slots {
            Slots::Inline { storage, tag } => vstd::slice::slice_subrange(
                storage.as_slice(),
                0,
                length,
            ),
            Slots::Heap(cell) => cell.as_slice(),
        }
    }

    /// Builds a handle that holds the parts of `bytes_list`, one after the
    /// other. The total length is found first; the mode follows from it, and
    /// the parts are then copied once to where they stay.
    pub fn from_bytes_array(bytes_list: &[&[u8]]) -> (handle: Self)
        requires
            concat(bytes_list@).len() <= usize::MAX,
        ensures
            handle@ == concat(bytes_list@),
            handle.is_inline() <==> concat(bytes_list@).len() <= INLINE_CAPACITY,
            handle.is_inline() ==> handle.storage() == concat(bytes_list@) + zeros(
                15 - concat(bytes_list@).len(),
            ),
    {
        let length = total_len(bytes_list);
        if length <= Self::max_intern_len() {
            let word = length as u64;
            assert((word << 1) == 2 * word && ((2 * word + 1) as u64) & 0xff == 2 * word + 1)
                by (bit_vector)
                requires
                    word <= 15,
            ;
            let raw = encode_discriminant((word << 1) + 1);
            let mut storage = [0u8;15];
            copy_parts(bytes_list, &mut storage);
            proof {
                let whole = concat(bytes_list@);
                assert(storage@ =~= storage@.take(whole.len() as int) + storage@.skip(
                    whole.len() as int,
                ));
                assert(storage@.skip(whole.len() as int) =~= zeros(15 - whole.len()));
            }
            RawJavaString { slots: Slots::Inline { storage, tag: Tag::from_byte(raw[7]) } }
        } else {
            let mut buffer: Vec<u8> = vec![0u8; length];
            copy_parts(bytes_list, buffer.as_mut_slice());
            RawJavaString { slots: Slots::Heap(Box::new(buffer)) }
        }
    }

    /// Builds a handle that holds `bytes`.
    pub fn from_bytes(bytes: &[u8]) -> (handle: Self)
        ensures
            handle@ == bytes@,
            handle.is_inline() <==> bytes@.len() <= INLINE_CAPACITY,
            handle.is_inline() ==> handle.storage() == bytes@ + zeros(15 - bytes@.len()),
    {
        let bytes_list: [&[u8]; 1] = [bytes];
        proof {
            reveal_with_fuel(concat, 2);
            assert(bytes_list@.len() == 1);
            assert(bytes_list@[0] == bytes);
            assert(bytes_list@.drop_last() =~= Seq::<&[u8]>::empty());
            assert(concat(bytes_list@) =~= bytes@);
        }
        Self::from_bytes_array(bytes_list.as_slice())
    }

    /// Writes `ptr` into the discriminant of an inline handle. The value is
    /// stored in its encoded form, over the last seven bytes of the storage
    /// and the tag, so that `read_ptr` gives it back; the length becomes the
    /// one that its low byte holds.
    ///
    /// Only the discriminant of an inline string can be written: a handle
    /// cannot take over a buffer from a bare address.
    pub fn write_ptr(&mut self, ptr: u64)
        requires
            old(self).is_inline(),
            ptr % 2 == 1,
            (ptr & 0xff) >> 1 <= INLINE_CAPACITY,
        ensures
            final(self).is_inline(),
            final(self).storage() == old(self).storage().take(8) + slot_bytes(ptr).take(7),
            final(self)@.len() == (ptr & 0xff) >> 1,
            slot_value(final(self).inline_slot()) == ptr,
    {
        let raw = encode_discriminant(ptr);
        let mut storage: [u8; 15] = match &self.slots {
            Slots::Inline { storage, tag } => *storage,
            Slots::Heap(cell) => [0u8;15],
        };
        let ghost before = storage@;
        storage[8] = raw[0];
        storage[9] = raw[1];
        storage[10] = raw[2];
        storage[11] = raw[3];
        storage[12] = raw[4];
        storage[13] = raw[5];
        storage[14] = raw[6];
        let low = raw[7];
        let ghost wide = ptr & 0xff;
        assert(wide % 2 == 1 && wide <= 31 && wide / 2 == (ptr & 0xff) >> 1) by (bit_vector)
            requires
                wide == ptr & 0xff,
                ptr % 2 == 1,
                (ptr & 0xff) >> 1 <= 15,
        ;
        let tag = Tag::from_byte(low);
        self.slots = Slots::Inline { storage, tag };
        proof {
            assert(storage@ =~= before.take(8) + slot_bytes(ptr).take(7));
            assert(self.inline_slot() =~= slot_bytes(ptr));
            lemma_decode_encode(ptr);
        }
    }

    /// Replaces the content with `bytes`. What the handle held before is
    /// released.
    pub fn set_bytes(&mut self, bytes: &[u8])
        ensures
            final(self)@ == bytes@,
            final(self).is_inline() <==> bytes@.len() <= INLINE_CAPACITY,
            final(self).is_inline() ==> final(self).storage() == bytes@ + zeros(
                15 - bytes@.len(),
            ),
    {
        *self = Self::from_bytes(bytes);
    }

    /// Gives the bytes of the string away. A heap buffer is handed over as
    /// it is.
    pub fn into_bytes(self) -> (bytes: Vec<u8>)
        ensures
            bytes@ == self@,
    {
        let length = self.len();
        match self.slots {
            Slots::Inline { storage, tag } => vstd::slice::slice_to_vec(
                vstd::slice::slice_subrange(storage.as_slice(), 0, length),
            ),
            Slots::Heap(cell) => *cell,
        }
    }
}

impl Clone for RawJavaString {
    /// A clone is built from the bytes: it never shares a buffer with the
    /// handle it was made from.
    fn clone(&self) -> (copy: Self)
        ensures
            copy@ == self@,
            copy.is_inline() == self.is_inline(),
            copy.is_inline() ==> copy.storage() == self@ + zeros(15 - self@.len()),
    {
        proof {
            use_type_invariant(self);
        }
        Self::from_bytes(self.get_bytes())
    }
}

} // verus!
