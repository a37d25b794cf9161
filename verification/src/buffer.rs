//! The cursor-backed byte buffer and the wire primitives that read and write
//! through it.

use crate::decodable::{
    array_decoded_from, array_parse, decoded, header_parse, item_decoded_at, items_parse,
    lemma_items_parse_failure_stays, Decodable, Parsed,
};
use crate::encodable::{
    array_steps, lemma_run_concat, lemma_run_one_write, lemma_steps_of_all_concat, option_steps,
    run, steps_of_all, Encodable, Step,
};
use crate::error::{BufferfishError, IoFailure};
use crate::wire::{
    be_bytes, be_decode, be_encode, be_value, bit_weight_of, from_twos_complement,
    lemma_be_value_bound, lemma_pack_bools_bound, lemma_pow256_values, pack_bools,
    pack_bools_upto, pow256, twos_complement, unpack_bools,
};
use vstd::prelude::*;
use vstd::slice::{slice_subrange, slice_to_vec};
use vstd::utf8::{decode_utf8, encode_utf8, encode_utf8_decode_utf8, valid_utf8};

verus! {

/// The capacity ceiling of a buffer made by `Bufferfish::new`.
pub const DEFAULT_MAX_CAPACITY: usize = 1024;

/// What a `Bufferfish` is, as mathematics.
pub struct BufferView {
    /// Every byte written so far, oldest first.
    pub bytes: Seq<u8>,
    /// Where the next read starts: at the first byte after a write, else
    /// where the last read ended.
    pub cursor: nat,
    /// The ceiling on `bytes.len()` that writes enforce; 0 means none.
    pub max_capacity: nat,
}

impl BufferView {
    /// Whether a `write_all` of `n` bytes is let through: an empty chunk
    /// always is, and so is any chunk where there is no ceiling.
    pub open spec fn fits(self, n: nat) -> bool {
        n == 0 || self.max_capacity == 0 || self.bytes.len() + n <= self.max_capacity
    }

    /// The buffer after `chunk` has been written: the bytes stand at the end
    /// and the next read starts again at the first byte. An empty chunk
    /// changes nothing.
    pub open spec fn append(self, chunk: Seq<u8>) -> BufferView {
        if chunk.len() == 0 {
            self
        } else {
            BufferView { bytes: self.bytes + chunk, cursor: 0, ..self }
        }
    }

    /// The buffer and the result of writing `chunk` whole or not at all.
    pub open spec fn write_all(self, chunk: Seq<u8>) -> (BufferView, Result<(), BufferfishError>) {
        if self.fits(chunk.len()) {
            (self.append(chunk), Ok(()))
        } else {
            (
                self,
                Err(
                    BufferfishError::FailedWrite(
                        IoFailure::CapacityExceeded {
                            attempted: chunk.len() as usize,
                            max_capacity: self.max_capacity as usize,
                        },
                    ),
                ),
            )
        }
    }

    /// The bytes that the next reads will see, in order.
    pub open spec fn unread(self) -> Seq<u8> {
        if self.cursor <= self.bytes.len() {
            self.bytes.subrange(self.cursor as int, self.bytes.len() as int)
        } else {
            Seq::empty()
        }
    }

    /// The buffer after a read has taken `n` of the unread bytes.
    pub open spec fn consume(self, n: nat) -> BufferView {
        BufferView { cursor: self.cursor + n, ..self }
    }

    /// The buffer and the result of reading exactly `n` bytes. A read that
    /// asks for more than is left fails and leaves nothing unread.
    pub open spec fn read_exact(self, n: nat) -> (BufferView, Result<Seq<u8>, BufferfishError>) {
        if n <= self.unread().len() {
            (self.consume(n), Ok(self.unread().subrange(0, n as int)))
        } else {
            (
                self.consume(self.unread().len()),
                Err(BufferfishError::FailedWrite(IoFailure::UnexpectedEof)),
            )
        }
    }

    /// The buffer and the result of reading a big-endian number of `width`
    /// bytes.
    pub open spec fn read_number(self, width: nat) -> (BufferView, Result<nat, BufferfishError>) {
        match self.read_exact(width) {
            (after, Ok(bytes)) => (after, Ok(be_value(bytes))),
            (after, Err(e)) => (after, Err(e)),
        }
    }

    /// What is unread after `n` bytes were taken is what was unread before,
    /// without its first `n` bytes.
    pub proof fn lemma_unread_after_consume(self, n: nat)
        requires
            n <= self.unread().len(),
        ensures
            self.consume(n).unread() == self.unread().skip(n as int),
            forall|m: nat| #[trigger] self.consume(n).consume(m) == self.consume(n + m),
    {
        assert(self.consume(n).unread() =~= self.unread().skip(n as int));
    }

    /// A number read from `width` bytes is below `256^width`.
    pub proof fn lemma_read_number_bound(self, width: nat)
        ensures
            self.read_number(width).1 matches Ok(n) ==> n < pow256(width),
    {
        if self.read_exact(width).1 is Ok {
            lemma_be_value_bound(self.read_exact(width).1->Ok_0);
        }
    }

    /// The buffer and the result of reading `n` bytes as UTF-8 text.
    pub open spec fn read_text(self, n: nat) -> (BufferView, Result<Seq<char>, BufferfishError>) {
        match self.read_exact(n) {
            (after, Ok(payload)) => if valid_utf8(payload) {
                (after, Ok(decode_utf8(payload)))
            } else {
                (after, Err(BufferfishError::FailedWrite(IoFailure::InvalidUtf8)))
            },
            (after, Err(e)) => (after, Err(e)),
        }
    }

    /// The buffer and the result of writing a string: a two-byte length
    /// prefix, then the UTF-8 bytes. A string of more than 65535 bytes is
    /// refused before anything is written.
    pub open spec fn write_string(self, text: Seq<char>) -> (
        BufferView,
        Result<(), BufferfishError>,
    ) {
        let payload = encode_utf8(text);
        if payload.len() > 65535 {
            (self, Err(BufferfishError::FailedWrite(IoFailure::StringTooLong)))
        } else {
            match self.write_all(be_bytes(payload.len(), 2)) {
                (after, Ok(())) => after.write_all(payload),
                (after, Err(e)) => (after, Err(e)),
            }
        }
    }

    /// The buffer and the result of reading a string: a two-byte length
    /// prefix, then as many bytes of UTF-8.
    pub open spec fn read_string(self) -> (BufferView, Result<Seq<char>, BufferfishError>) {
        match self.read_number(2) {
            (after, Ok(n)) => after.read_text(n),
            (after, Err(e)) => (after, Err(e)),
        }
    }

    /// The buffer and the result of looking at the next `n` bytes without
    /// taking them.
    pub open spec fn peek_exact(self, n: nat) -> (BufferView, Result<Seq<u8>, BufferfishError>) {
        if n <= self.unread().len() {
            (self, Ok(self.unread().subrange(0, n as int)))
        } else {
            (
                self,
                Err(
                    BufferfishError::FailedWrite(
                        IoFailure::PeekOutOfBounds {
                            requested: n as usize,
                            max_capacity: self.max_capacity as usize,
                        },
                    ),
                ),
            )
        }
    }
}

/// A growable or bounded sequence of bytes with a read cursor, for encoding
/// and decoding binary data.
///
/// Writes always append: the written bytes stand after everything written
/// before, wherever the read cursor is. Reads go through their own cursor.
/// The first read after a write starts again at the first byte; the reads
/// that follow it advance in sequence. A buffer can therefore be written,
/// read and written again without losing or overwriting a byte.
///
/// The buffer remembers whether it is being read or written, and goes back
/// to the first byte only when the first read after a write arrives. Its
/// view shows the outcome of that: a cursor that says where the next read
/// starts, which is the first byte after every write.
#[derive(Debug)]
pub struct Bufferfish {
    /// Every byte written so far.
    bytes: Vec<u8>,
    /// Where the last read ended; it counts only while `reading` holds.
    cursor: usize,
    /// Whether a read has happened since the last write.
    reading: bool,
    /// The ceiling that writes enforce; 0 means none.
    max_capacity: usize,
}

impl View for Bufferfish {
    type V = BufferView;

    closed spec fn view(&self) -> BufferView {
        BufferView {
            bytes: self.bytes@,
            cursor: if !self.reading {
                0
            } else if self.cursor <= self.bytes@.len() {
                self.cursor as nat
            } else {
                self.bytes@.len()
            },
            max_capacity: self.max_capacity as nat,
        }
    }
}

impl Bufferfish {
    /// The cursor of a buffer never stands past its last byte.
    pub proof fn lemma_cursor_in_bounds(&self)
        ensures
            self@.cursor <= self@.bytes.len(),
    {
    }

    /// Creates a new `Bufferfish` with a default max capacity (1024 bytes).
    pub fn new() -> (bf: Self)
        ensures
            bf@ == (BufferView {
                bytes: Seq::empty(),
                cursor: 0,
                max_capacity: DEFAULT_MAX_CAPACITY as nat,
            }),
    {
        Bufferfish {
            bytes: Vec::new(),
            cursor: 0,
            reading: false,
            max_capacity: DEFAULT_MAX_CAPACITY,
        }
    }

    /// Creates a new `Bufferfish` with a max capacity (in bytes).
    /// A value of 0 will allow the buffer to grow indefinitely.
    pub fn with_capacity(capacity: usize) -> (bf: Self)
        ensures
            bf@ == (BufferView {
                bytes: Seq::empty(),
                cursor: 0,
                max_capacity: capacity as nat,
            }),
    {
        Bufferfish { bytes: Vec::new(), cursor: 0, reading: false, max_capacity: capacity }
    }

    /// The buffer that holds `bytes`, with their count as its max capacity.
    pub closed spec fn holding(bytes: Vec<u8>) -> Bufferfish {
        Bufferfish { bytes, cursor: 0, reading: false, max_capacity: bytes@.len() as usize }
    }

    /// Creates a `Bufferfish` that holds `bytes`. Its max capacity is the
    /// count of those bytes: nothing more can be written until it is raised.
    pub fn from_vec(bytes: Vec<u8>) -> (bf: Self)
        ensures
            bf == Self::holding(bytes),
            bf@ == (BufferView {
                bytes: bytes@,
                cursor: 0,
                max_capacity: bytes@.len(),
            }),
    {
        let max_capacity = bytes.len();
        Bufferfish { bytes, cursor: 0, reading: false, max_capacity }
    }

    /// Creates a `Bufferfish` that holds a copy of `bytes`. Its max capacity
    /// is the count of those bytes.
    pub fn from_slice(bytes: &[u8]) -> (bf: Self)
        ensures
            bf@ == (BufferView {
                bytes: bytes@,
                cursor: 0,
                max_capacity: bytes@.len(),
            }),
    {
        Self::from_vec(slice_to_vec(bytes))
    }

    /// Returns the current length (bytes) of the buffer.
    pub fn len(&self) -> (n: usize)
        ensures
            n == self@.bytes.len(),
    {
        self.bytes.len()
    }

    /// Returns true if the buffer is empty.
    pub fn is_empty(&self) -> (empty: bool)
        ensures
            empty == (self@.bytes.len() == 0),
    {
        self.bytes.len() == 0
    }

    /// The ceiling that writes enforce; 0 means that there is none.
    pub fn max_capacity(&self) -> (capacity: usize)
        ensures
            capacity == self@.max_capacity,
    {
        self.max_capacity
    }

    /// Where the next read starts, counted in bytes from the first.
    pub fn position(&self) -> (at: usize)
        ensures
            at == self@.cursor,
            at <= self@.bytes.len(),
    {
        if !self.reading {
            0
        } else if self.cursor <= self.bytes.len() {
            self.cursor
        } else {
            self.bytes.len()
        }
    }

    /// Resets the buffer cursor to the start position when reading after a
    /// write.
    fn start_reading(&mut self)
        ensures
            final(self)@ == old(self)@,
            final(self).reading,
    {
        if self.reading {
            return ;
        }
        self.cursor = 0;
        self.reading = true;
    }

    /// Clears the buffer and resets the cursor to the start position.
    pub fn reset(&mut self)
        ensures
            final(self)@ == (BufferView {
                bytes: Seq::empty(),
                cursor: 0,
                max_capacity: old(self)@.max_capacity,
            }),
    {
        self.cursor = 0;
        self.bytes.clear();
        self.reading = false;
    }

    /// Clears any existing data, resets the buffer state and makes `len` the
    /// new max capacity.
    pub fn truncate(&mut self, len: usize)
        ensures
            final(self)@ == (BufferView {
                bytes: Seq::empty(),
                cursor: 0,
                max_capacity: len as nat,
            }),
    {
        self.reset();
        self.max_capacity = len;
    }

    /// Returns a `Vec<u8>` of the internal byte buffer.
    pub fn into_vec(self) -> (bytes: Vec<u8>)
        ensures
            bytes@ == self@.bytes,
    {
        self.bytes
    }

    /// Returns a copy of the internal byte buffer.
    pub fn to_vec(&self) -> (bytes: Vec<u8>)
        ensures
            bytes@ == self@.bytes,
    {
        self.bytes.clone()
    }

    /// Returns an `&[u8]` of the internal byte buffer for cheaply cloning
    /// and sharing the buffer.
    pub fn as_bytes(&self) -> (bytes: &[u8])
        ensures
            bytes@ == self@.bytes,
    {
        self.bytes.as_slice()
    }

    /// Returns the bytes of the buffer for changing them in place: their
    /// count, the cursor and the ceiling stay as they are.
    pub fn as_bytes_mut(&mut self) -> (bytes: &mut [u8])
        ensures
            bytes@ == old(self)@.bytes,
            final(self)@.bytes == final(bytes)@,
            final(self)@.max_capacity == old(self)@.max_capacity,
            final(bytes)@.len() == bytes@.len() ==> final(self)@.cursor == old(self)@.cursor,
    {
        self.bytes.as_mut_slice()
    }

    /// Set the max capacity (in bytes) for the internal buffer.
    /// A value of 0 will allow the buffer to grow indefinitely.
    pub fn set_max_capacity(&mut self, capacity: usize)
        ensures
            final(self)@ == (BufferView { max_capacity: capacity as nat, ..old(self)@ }),
    {
        self.max_capacity = capacity;
    }

    /// Puts `chunk` at the end of the bytes, whatever the ceiling.
    fn push_all(&mut self, chunk: &[u8])
        ensures
            final(self)@ == (BufferView { bytes: old(self)@.bytes + chunk@, ..old(self)@ }),
    {
        self.cursor = self.position();
        let mut at: usize = 0;
        while at < chunk.len()
            invariant
                at <= chunk@.len(),
                self.bytes@ =~= old(self).bytes@ + chunk@.subrange(0, at as int),
                self.cursor == old(self)@.cursor,
                self.reading == old(self).reading,
                self.max_capacity == old(self).max_capacity,
            decreases chunk@.len() - at,
        {
            self.bytes.push(chunk[at]);
            at = at + 1;
        }
        assert(chunk@.subrange(0, at as int) =~= chunk@);
    }

    /// Writes `chunk` at the end of the buffer in one piece and puts the
    /// buffer in writing mode: the next read starts at the first byte.
    /// Fails, and changes nothing, if there is a ceiling and the buffer
    /// would grow past it. Returns the count of the bytes written.
    pub fn write(&mut self, chunk: &[u8]) -> (r: Result<usize, BufferfishError>)
        ensures
            old(self)@.max_capacity == 0 || old(self)@.bytes.len() + chunk@.len() <= old(
                self,
            )@.max_capacity ==> r == Ok::<usize, BufferfishError>(chunk@.len() as usize)
                && final(self)@ == (BufferView {
                bytes: old(self)@.bytes + chunk@,
                cursor: 0,
                ..old(self)@
            }),
            old(self)@.max_capacity > 0 && old(self)@.bytes.len() + chunk@.len() > old(
                self,
            )@.max_capacity ==> r == Err::<usize, BufferfishError>(
                BufferfishError::FailedWrite(
                    IoFailure::CapacityExceeded {
                        attempted: chunk@.len() as usize,
                        max_capacity: old(self)@.max_capacity as usize,
                    },
                ),
            ) && final(self)@ == old(self)@,
    {
        if self.max_capacity > 0 && (chunk.len() > self.max_capacity || self.bytes.len()
            > self.max_capacity - chunk.len()) {
            return Err(
                BufferfishError::FailedWrite(
                    IoFailure::CapacityExceeded {
                        attempted: chunk.len(),
                        max_capacity: self.max_capacity,
                    },
                ),
            );
        }
        self.reading = false;
        self.push_all(chunk);
        Ok(chunk.len())
    }

    /// Writes an array of raw bytes to the buffer. Useful for encoding
    /// distinct structs into byte arrays and appending them to a buffer later.
    pub fn write_raw_bytes(&mut self, bytes: &[u8]) -> (r: Result<(), BufferfishError>)
        ensures
            (final(self)@, r) == old(self)@.write_all(bytes@),
    {
        if bytes.len() == 0 {
            return Ok(());
        }
        match self.write(bytes) {
            Ok(_) => Ok(()),
            Err(e) => Err(e),
        }
    }

    /// Adds a `Bufferfish`, a `Vec<u8>` or a slice of bytes to the end of
    /// the buffer, whole or not at all. Fails if the buffer would grow past
    /// its max capacity.
    pub fn try_extend<T: Into<Bufferfish>>(&mut self, other: T) -> (r: Result<(), BufferfishError>)
        ensures
            exists|chunk: Bufferfish|
                #![trigger chunk@]
                call_ensures(T::into, (other,), chunk) && (final(self)@, r) == old(
                    self,
                )@.write_all(chunk@.bytes),
    {
        let chunk: Bufferfish = other.into();
        let r = self.write_raw_bytes(chunk.as_bytes());
        proof {
            assert((self@, r) == old(self)@.write_all(chunk@.bytes));
        }
        r
    }

    /// Adds a `Bufferfish`, a `Vec<u8>` or a slice of bytes to the end of
    /// the buffer. See `try_extend` for a version that returns a `Result`
    /// where the bytes may not fit.
    pub fn extend<T: Into<Bufferfish>>(&mut self, other: T)
        requires
            forall|chunk: Bufferfish|
                #![trigger chunk@]
                call_ensures(T::into, (other,), chunk) ==> old(self)@.fits(chunk@.bytes.len()),
        ensures
            exists|chunk: Bufferfish|
                #![trigger chunk@]
                call_ensures(T::into, (other,), chunk) && final(self)@ == old(self)@.append(
                    chunk@.bytes,
                ),
    {
        let chunk: Bufferfish = other.into();
        match self.write_raw_bytes(chunk.as_bytes()) {
            Ok(()) => {
                assert(self@ == old(self)@.append(chunk@.bytes));
            },
            Err(_) => {
                unreached()
            },
        }
    }

    /// Takes the next `n` bytes: says where in the buffer they start.
    fn take(&mut self, n: usize) -> (r: Result<usize, BufferfishError>)
        ensures
            final(self)@ == old(self)@.read_exact(n as nat).0,
            final(self).bytes@ == old(self).bytes@,
            match r {
                Ok(start) => {
                    &&& start + n <= final(self).bytes@.len()
                    &&& old(self)@.read_exact(n as nat).1 == Ok::<Seq<u8>, BufferfishError>(
                        final(self).bytes@.subrange(start as int, start + n),
                    )
                },
                Err(e) => old(self)@.read_exact(n as nat).1 == Err::<Seq<u8>, BufferfishError>(e),
            },
    {
        self.start_reading();
        let start = self.position();
        if n > self.bytes.len() - start {
            self.cursor = self.bytes.len();
            return Err(BufferfishError::FailedWrite(IoFailure::UnexpectedEof));
        }
        self.cursor = start + n;
        assert(old(self)@.unread().subrange(0, n as int) =~= self.bytes@.subrange(
            start as int,
            start + n,
        ));
        Ok(start)
    }

    /// Reads an unsigned big-endian number of `width` bytes.
    fn read_unsigned(&mut self, width: usize) -> (r: Result<u128, BufferfishError>)
        requires
            width <= 16,
        ensures
            match old(self)@.read_exact(width as nat) {
                (after, Ok(bytes)) => final(self)@ == after && r == Ok::<u128, BufferfishError>(
                    be_value(bytes) as u128,
                ),
                (after, Err(e)) => final(self)@ == after && r == Err::<u128, BufferfishError>(e),
            },
    {
        match self.take(width) {
            Ok(start) => {
                let total = self.bytes.len();
                assert(start + width <= total);
                let chunk = slice_subrange(self.bytes.as_slice(), start, start + width);
                Ok(be_decode(chunk))
            },
            Err(e) => Err(e),
        }
    }

    /// Writes a u8 to the buffer as 1 big-endian byte.
    pub fn write_u8(&mut self, value: u8) -> (r: Result<(), BufferfishError>)
        ensures
            (final(self)@, r) == old(self)@.write_all(be_bytes(value as nat, 1)),
    {
        let bytes = be_encode(value as u128, 1);
        self.write_raw_bytes(bytes.as_slice())
    }

    /// Writes a u16 to the buffer as 2 big-endian bytes.
    pub fn write_u16(&mut self, value: u16) -> (r: Result<(), BufferfishError>)
        ensures
            (final(self)@, r) == old(self)@.write_all(be_bytes(value as nat, 2)),
    {
        let bytes = be_encode(value as u128, 2);
        self.write_raw_bytes(bytes.as_slice())
    }

    /// Writes a u32 to the buffer as 4 big-endian bytes.
    pub fn write_u32(&mut self, value: u32) -> (r: Result<(), BufferfishError>)
        ensures
            (final(self)@, r) == old(self)@.write_all(be_bytes(value as nat, 4)),
    {
        let bytes = be_encode(value as u128, 4);
        self.write_raw_bytes(bytes.as_slice())
    }

    /// Writes a u64 to the buffer as 8 big-endian bytes.
    pub fn write_u64(&mut self, value: u64) -> (r: Result<(), BufferfishError>)
        ensures
            (final(self)@, r) == old(self)@.write_all(be_bytes(value as nat, 8)),
    {
        let bytes = be_encode(value as u128, 8);
        self.write_raw_bytes(bytes.as_slice())
    }

    /// Writes a u128 to the buffer as 16 big-endian bytes.
    pub fn write_u128(&mut self, value: u128) -> (r: Result<(), BufferfishError>)
        ensures
            (final(self)@, r) == old(self)@.write_all(be_bytes(value as nat, 16)),
    {
        let bytes = be_encode(value as u128, 16);
        self.write_raw_bytes(bytes.as_slice())
    }

    /// Writes an i8 to the buffer as 1 big-endian byte, in two's
    /// complement.
    pub fn write_i8(&mut self, value: i8) -> (r: Result<(), BufferfishError>)
        ensures
            (final(self)@, r) == old(self)@.write_all(
                be_bytes(twos_complement(value as int, 1), 1),
            ),
    {
        proof {
            lemma_pow256_values();
        }
        let pattern: u8 = if value >= 0 {
            value as u8
        } else {
            (value - i8::MIN) as u8 + 0x80
        };
        let bytes = be_encode(pattern as u128, 1);
        self.write_raw_bytes(bytes.as_slice())
    }

    /// Writes an i16 to the buffer as 2 big-endian bytes, in two's
    /// complement.
    pub fn write_i16(&mut self, value: i16) -> (r: Result<(), BufferfishError>)
        ensures
            (final(self)@, r) == old(self)@.write_all(
                be_bytes(twos_complement(value as int, 2), 2),
            ),
    {
        proof {
            lemma_pow256_values();
        }
        let pattern: u16 = if value >= 0 {
            value as u16
        } else {
            (value - i16::MIN) as u16 + 0x8000
        };
        let bytes = be_encode(pattern as u128, 2);
        self.write_raw_bytes(bytes.as_slice())
    }

    /// Writes an i32 to the buffer as 4 big-endian bytes, in two's
    /// complement.
    pub fn write_i32(&mut self, value: i32) -> (r: Result<(), BufferfishError>)
        ensures
            (final(self)@, r) == old(self)@.write_all(
                be_bytes(twos_complement(value as int, 4), 4),
            ),
    {
        proof {
            lemma_pow256_values();
        }
        let pattern: u32 = if value >= 0 {
            value as u32
        } else {
            (value - i32::MIN) as u32 + 0x8000_0000
        };
        let bytes = be_encode(pattern as u128, 4);
        self.write_raw_bytes(bytes.as_slice())
    }

    /// Writes an i64 to the buffer as 8 big-endian bytes, in two's
    /// complement.
    pub fn write_i64(&mut self, value: i64) -> (r: Result<(), BufferfishError>)
        ensures
            (final(self)@, r) == old(self)@.write_all(
                be_bytes(twos_complement(value as int, 8), 8),
            ),
    {
        proof {
            lemma_pow256_values();
        }
        let pattern: u64 = if value >= 0 {
            value as u64
        } else {
            (value - i64::MIN) as u64 + 0x8000_0000_0000_0000
        };
        let bytes = be_encode(pattern as u128, 8);
        self.write_raw_bytes(bytes.as_slice())
    }

    /// Writes an i128 to the buffer as 16 big-endian bytes, in two's
    /// complement.
    pub fn write_i128(&mut self, value: i128) -> (r: Result<(), BufferfishError>)
        ensures
            (final(self)@, r) == old(self)@.write_all(
                be_bytes(twos_complement(value as int, 16), 16),
            ),
    {
        proof {
            lemma_pow256_values();
        }
        let pattern: u128 = if value >= 0 {
            value as u128
        } else {
            (value - i128::MIN) as u128 + 0x8000_0000_0000_0000_0000_0000_0000_0000
        };
        let bytes = be_encode(pattern as u128, 16);
        self.write_raw_bytes(bytes.as_slice())
    }

    /// Reads a u8 from the buffer.
    pub fn read_u8(&mut self) -> (r: Result<u8, BufferfishError>)
        ensures
            match old(self)@.read_number(1) {
                (after, Ok(n)) => final(self)@ == after && r == Ok::<u8, BufferfishError>(n as u8),
                (after, Err(e)) => final(self)@ == after && r == Err::<u8, BufferfishError>(e),
            },
    {
        proof {
            lemma_pow256_values();
            if old(self)@.read_exact(1).1 is Ok {
                lemma_be_value_bound(old(self)@.read_exact(1).1->Ok_0);
            }
        }
        match self.read_unsigned(1) {
            Ok(n) => Ok(n as u8),
            Err(e) => Err(e),
        }
    }

    /// Reads a u16 from the buffer.
    pub fn read_u16(&mut self) -> (r: Result<u16, BufferfishError>)
        ensures
            match old(self)@.read_number(2) {
                (after, Ok(n)) => final(self)@ == after && r == Ok::<u16, BufferfishError>(n as u16),
                (after, Err(e)) => final(self)@ == after && r == Err::<u16, BufferfishError>(e),
            },
    {
        proof {
            lemma_pow256_values();
            if old(self)@.read_exact(2).1 is Ok {
                lemma_be_value_bound(old(self)@.read_exact(2).1->Ok_0);
            }
        }
        match self.read_unsigned(2) {
            Ok(n) => Ok(n as u16),
            Err(e) => Err(e),
        }
    }

    /// Reads a u32 from the buffer.
    pub fn read_u32(&mut self) -> (r: Result<u32, BufferfishError>)
        ensures
            match old(self)@.read_number(4) {
                (after, Ok(n)) => final(self)@ == after && r == Ok::<u32, BufferfishError>(n as u32),
                (after, Err(e)) => final(self)@ == after && r == Err::<u32, BufferfishError>(e),
            },
    {
        proof {
            lemma_pow256_values();
            if old(self)@.read_exact(4).1 is Ok {
                lemma_be_value_bound(old(self)@.read_exact(4).1->Ok_0);
            }
        }
        match self.read_unsigned(4) {
            Ok(n) => Ok(n as u32),
            Err(e) => Err(e),
        }
    }

    /// Reads a u64 from the buffer.
    pub fn read_u64(&mut self) -> (r: Result<u64, BufferfishError>)
        ensures
            match old(self)@.read_number(8) {
                (after, Ok(n)) => final(self)@ == after && r == Ok::<u64, BufferfishError>(n as u64),
                (after, Err(e)) => final(self)@ == after && r == Err::<u64, BufferfishError>(e),
            },
    {
        proof {
            lemma_pow256_values();
            if old(self)@.read_exact(8).1 is Ok {
                lemma_be_value_bound(old(self)@.read_exact(8).1->Ok_0);
            }
        }
        match self.read_unsigned(8) {
            Ok(n) => Ok(n as u64),
            Err(e) => Err(e),
        }
    }

    /// Reads a u128 from the buffer.
    pub fn read_u128(&mut self) -> (r: Result<u128, BufferfishError>)
        ensures
            match old(self)@.read_number(16) {
                (after, Ok(n)) => final(self)@ == after && r == Ok::<u128, BufferfishError>(n as u128),
                (after, Err(e)) => final(self)@ == after && r == Err::<u128, BufferfishError>(e),
            },
    {
        proof {
            lemma_pow256_values();
            if old(self)@.read_exact(16).1 is Ok {
                lemma_be_value_bound(old(self)@.read_exact(16).1->Ok_0);
            }
        }
        match self.read_unsigned(16) {
            Ok(n) => Ok(n as u128),
            Err(e) => Err(e),
        }
    }

    /// Reads an i8 from the buffer.
    pub fn read_i8(&mut self) -> (r: Result<i8, BufferfishError>)
        ensures
            match old(self)@.read_number(1) {
                (after, Ok(n)) => final(self)@ == after && r == Ok::<i8, BufferfishError>(
                    from_twos_complement(n, 1) as i8,
                ),
                (after, Err(e)) => final(self)@ == after && r == Err::<i8, BufferfishError>(e),
            },
    {
        proof {
            lemma_pow256_values();
            if old(self)@.read_exact(1).1 is Ok {
                lemma_be_value_bound(old(self)@.read_exact(1).1->Ok_0);
            }
        }
        match self.read_unsigned(1) {
            Ok(n) => {
                let pattern: u8 = n as u8;
                if pattern < 0x80 {
                    Ok(pattern as i8)
                } else {
                    Ok((pattern - 0x80) as i8 + i8::MIN)
                }
            },
            Err(e) => Err(e),
        }
    }

    /// Reads an i16 from the buffer.
    pub fn read_i16(&mut self) -> (r: Result<i16, BufferfishError>)
        ensures
            match old(self)@.read_number(2) {
                (after, Ok(n)) => final(self)@ == after && r == Ok::<i16, BufferfishError>(
                    from_twos_complement(n, 2) as i16,
                ),
                (after, Err(e)) => final(self)@ == after && r == Err::<i16, BufferfishError>(e),
            },
    {
        proof {
            lemma_pow256_values();
            if old(self)@.read_exact(2).1 is Ok {
                lemma_be_value_bound(old(self)@.read_exact(2).1->Ok_0);
            }
        }
        match self.read_unsigned(2) {
            Ok(n) => {
                let pattern: u16 = n as u16;
                if pattern < 0x8000 {
                    Ok(pattern as i16)
                } else {
                    Ok((pattern - 0x8000) as i16 + i16::MIN)
                }
            },
            Err(e) => Err(e),
        }
    }

    /// Reads an i32 from the buffer.
    pub fn read_i32(&mut self) -> (r: Result<i32, BufferfishError>)
        ensures
            match old(self)@.read_number(4) {
                (after, Ok(n)) => final(self)@ == after && r == Ok::<i32, BufferfishError>(
                    from_twos_complement(n, 4) as i32,
                ),
                (after, Err(e)) => final(self)@ == after && r == Err::<i32, BufferfishError>(e),
            },
    {
        proof {
            lemma_pow256_values();
            if old(self)@.read_exact(4).1 is Ok {
                lemma_be_value_bound(old(self)@.read_exact(4).1->Ok_0);
            }
        }
        match self.read_unsigned(4) {
            Ok(n) => {
                let pattern: u32 = n as u32;
                if pattern < 0x8000_0000 {
                    Ok(pattern as i32)
                } else {
                    Ok((pattern - 0x8000_0000) as i32 + i32::MIN)
                }
            },
            Err(e) => Err(e),
        }
    }

    /// Reads an i64 from the buffer.
    pub fn read_i64(&mut self) -> (r: Result<i64, BufferfishError>)
        ensures
            match old(self)@.read_number(8) {
                (after, Ok(n)) => final(self)@ == after && r == Ok::<i64, BufferfishError>(
                    from_twos_complement(n, 8) as i64,
                ),
                (after, Err(e)) => final(self)@ == after && r == Err::<i64, BufferfishError>(e),
            },
    {
        proof {
            lemma_pow256_values();
            if old(self)@.read_exact(8).1 is Ok {
                lemma_be_value_bound(old(self)@.read_exact(8).1->Ok_0);
            }
        }
        match self.read_unsigned(8) {
            Ok(n) => {
                let pattern: u64 = n as u64;
                if pattern < 0x8000_0000_0000_0000 {
                    Ok(pattern as i64)
                } else {
                    Ok((pattern - 0x8000_0000_0000_0000) as i64 + i64::MIN)
                }
            },
            Err(e) => Err(e),
        }
    }

    /// Reads an i128 from the buffer.
    pub fn read_i128(&mut self) -> (r: Result<i128, BufferfishError>)
        ensures
            match old(self)@.read_number(16) {
                (after, Ok(n)) => final(self)@ == after && r == Ok::<i128, BufferfishError>(
                    from_twos_complement(n, 16) as i128,
                ),
                (after, Err(e)) => final(self)@ == after && r == Err::<i128, BufferfishError>(e),
            },
    {
        proof {
            lemma_pow256_values();
            if old(self)@.read_exact(16).1 is Ok {
                lemma_be_value_bound(old(self)@.read_exact(16).1->Ok_0);
            }
        }
        match self.read_unsigned(16) {
            Ok(n) => {
                let pattern: u128 = n as u128;
                if pattern < 0x8000_0000_0000_0000_0000_0000_0000_0000 {
                    Ok(pattern as i128)
                } else {
                    Ok((pattern - 0x8000_0000_0000_0000_0000_0000_0000_0000) as i128 + i128::MIN)
                }
            },
            Err(e) => Err(e),
        }
    }

    /// Writes a bool to the buffer as one byte: 1 for true, 0 for false.
    pub fn write_bool(&mut self, value: bool) -> (r: Result<(), BufferfishError>)
        ensures
            (final(self)@, r) == old(self)@.write_all(
                seq![if value {
                    1u8
                } else {
                    0u8
                }],
            ),
    {
        let byte: u8 = if value {
            1
        } else {
            0
        };
        proof {
            reveal_with_fuel(be_bytes, 2);
            assert(be_bytes(byte as nat, 1) =~= seq![byte]);
        }
        self.write_u8(byte)
    }

    /// Writes a packed array of booleans to the buffer as a single byte.
    /// Can pack up to 8 booleans into a single byte, the first of them in
    /// the most significant bit.
    pub fn write_packed_bools(&mut self, values: &[bool]) -> (r: Result<(), BufferfishError>)
        ensures
            values@.len() > 8 ==> final(self)@ == old(self)@ && r == Err::<(), BufferfishError>(
                BufferfishError::FailedWrite(IoFailure::TooManyBools),
            ),
            values@.len() <= 8 ==> (final(self)@, r) == old(self)@.write_all(
                seq![pack_bools(values@) as u8],
            ),
    {
        if values.len() > 8 {
            return Err(BufferfishError::FailedWrite(IoFailure::TooManyBools));
        }
        let mut packed: u8 = 0;
        let mut at: usize = 0;
        while at < values.len()
            invariant
                at <= values@.len() <= 8,
                packed as nat == pack_bools_upto(values@, at as nat),
            decreases values@.len() - at,
        {
            proof {
                lemma_pack_bools_bound(values@, (at + 1) as nat);
            }
            if values[at] {
                packed = packed + bit_weight_of(at);
            }
            at = at + 1;
        }
        proof {
            reveal_with_fuel(be_bytes, 2);
            assert(be_bytes(packed as nat, 1) =~= seq![packed]);
        }
        self.write_u8(packed)
    }

    /// Writes a variable length string to the buffer. It will be prefixed with
    /// its length in bytes as a u16 (two bytes).
    pub fn write_string(&mut self, value: &str) -> (r: Result<(), BufferfishError>)
        ensures
            (final(self)@, r) == old(self)@.write_string(value@),
    {
        let payload = value.as_bytes();
        if payload.len() > 65535 {
            return Err(BufferfishError::FailedWrite(IoFailure::StringTooLong));
        }
        match self.write_u16(payload.len() as u16) {
            Ok(()) => self.write_raw_bytes(payload),
            Err(e) => Err(e),
        }
    }

    /// Writes a string to the buffer without a length prefix.
    pub fn write_sized_string(&mut self, value: &str) -> (r: Result<(), BufferfishError>)
        ensures
            (final(self)@, r) == old(self)@.write_all(encode_utf8(value@)),
    {
        self.write_raw_bytes(value.as_bytes())
    }

    /// Reads a bool from the buffer: any byte but 0 is true.
    pub fn read_bool(&mut self) -> (r: Result<bool, BufferfishError>)
        ensures
            match old(self)@.read_number(1) {
                (after, Ok(n)) => final(self)@ == after && r == Ok::<bool, BufferfishError>(n != 0),
                (after, Err(e)) => final(self)@ == after && r == Err::<bool, BufferfishError>(e),
            },
    {
        proof {
            old(self)@.lemma_read_number_bound(1);
            lemma_pow256_values();
        }
        match self.read_u8() {
            Ok(byte) => Ok(byte != 0),
            Err(e) => Err(e),
        }
    }

    /// Attempts to read a packed array of booleans from the buffer.
    /// You must specify the number of booleans to read.
    pub fn read_packed_bools(&mut self, count: u8) -> (r: Result<Vec<bool>, BufferfishError>)
        ensures
            count > 8 ==> final(self)@ == old(self)@ && r is Err && r->Err_0
                == BufferfishError::FailedWrite(IoFailure::TooManyBools),
            count <= 8 ==> match old(self)@.read_number(1) {
                (after, Ok(n)) => final(self)@ == after && r is Ok && r->Ok_0@ == unpack_bools(
                    n as u8,
                    count as nat,
                ),
                (after, Err(e)) => final(self)@ == after && r is Err && r->Err_0 == e,
            },
    {
        if count > 8 {
            return Err(BufferfishError::FailedWrite(IoFailure::TooManyBools));
        }
        proof {
            old(self)@.lemma_read_number_bound(1);
            lemma_pow256_values();
        }
        let packed = match self.read_u8() {
            Ok(byte) => byte,
            Err(e) => {
                return Err(e);
            },
        };
        let mut bools: Vec<bool> = Vec::new();
        let mut at: usize = 0;
        while at < count as usize
            invariant
                at <= count <= 8,
                bools@ =~= unpack_bools(packed, at as nat),
            decreases count - at,
        {
            bools.push((packed / bit_weight_of(at)) % 2 == 1);
            at = at + 1;
        }
        Ok(bools)
    }

    /// Writes an array to the buffer, where the items implement the Encodable
    /// trait. The array will be prefixed with its length as a u16 (two bytes);
    /// the items follow as their field data, without message identifiers.
    pub fn write_array<T: Encodable>(&mut self, vec: &[T]) -> (r: Result<(), BufferfishError>)
        ensures
            (final(self)@, r) == run(old(self)@, array_steps(vec@)),
    {
        let ghost before = self@;
        let ghost header = seq![Step::Write(be_bytes(vec@.len() % 65536, 2))];
        proof {
            lemma_run_one_write(before, be_bytes(vec@.len() % 65536, 2));
            lemma_run_concat(before, header, steps_of_all(vec@));
        }
        match self.write_u16((vec.len() % 65536) as u16) {
            Ok(()) => {},
            Err(e) => {
                return Err(e);
            },
        }
        let ghost start = self@;
        let mut at: usize = 0;
        while at < vec.len()
            invariant
                at <= vec@.len(),
                run(old(self)@, array_steps(vec@)) == run(start, steps_of_all(vec@)),
                run(start, steps_of_all(vec@.subrange(0, at as int))).0 == self@,
                run(start, steps_of_all(vec@.subrange(0, at as int))).1 is Ok,
            decreases vec@.len() - at,
        {
            let ghost done = vec@.subrange(0, at as int);
            let ghost next = vec@.subrange(0, at + 1);
            let ghost rest = vec@.subrange(at + 1, vec@.len() as int);
            proof {
                assert(next.drop_last() =~= done);
                assert(next.last() == vec@[at as int]);
                assert(next + rest =~= vec@);
                lemma_run_concat(start, steps_of_all(done), vec@[at as int].steps());
                lemma_steps_of_all_concat(next, rest);
                lemma_run_concat(start, steps_of_all(next), steps_of_all(rest));
            }
            match vec[at].encode_value(self) {
                Ok(()) => {},
                Err(e) => {
                    return Err(e);
                },
            }
            at = at + 1;
        }
        proof {
            assert(vec@.subrange(0, at as int) =~= vec@);
            assert(run(start, steps_of_all(vec@)).1->Ok_0 == ());
        }
        Ok(())
    }

    /// Writes an optional value to the buffer: a presence byte, 1 or 0,
    /// then the field data of the value if there is one.
    pub fn write_option<T: Encodable>(&mut self, value: &Option<T>) -> (r: Result<
        (),
        BufferfishError,
    >)
        ensures
            (final(self)@, r) == run(old(self)@, option_steps(*value)),
    {
        proof {
            reveal_with_fuel(be_bytes, 2);
            assert(be_bytes(1, 1) =~= seq![1u8]);
            assert(be_bytes(0, 1) =~= seq![0u8]);
        }
        match value {
            Some(inner) => {
                proof {
                    lemma_run_one_write(self@, seq![1u8]);
                    lemma_run_concat(self@, seq![Step::Write(seq![1u8])], inner.steps());
                }
                match self.write_u8(1) {
                    Ok(()) => inner.encode_value(self),
                    Err(e) => Err(e),
                }
            },
            None => {
                proof {
                    lemma_run_one_write(self@, seq![0u8]);
                }
                self.write_u8(0)
            },
        }
    }

    /// Reads an array from the buffer, where the items implement the Decodable
    /// trait: the count of the items in two bytes, then the field data of
    /// each item, without message identifiers.
    pub fn read_array<T: Decodable>(&mut self) -> (r: Result<Vec<T>, BufferfishError>)
        ensures
            decoded(
                old(self)@,
                final(self)@,
                array_parse::<T>(old(self)@.unread()),
                match r {
                    Ok(items) => Ok(array_decoded_from(items@, old(self)@.unread())),
                    Err(e) => Err(e),
                },
            ),
    {
        let ghost before = self@;
        let ghost input = before.unread();
        proof {
            before.lemma_read_number_bound(2);
            lemma_pow256_values();
        }
        let count = match self.read_u16() {
            Ok(count) => count as usize,
            Err(e) => {
                return Err(e);
            },
        };
        let ghost body = input.skip(2);
        let ghost start = self@;
        proof {
            before.lemma_unread_after_consume(2);
        }
        let mut items: Vec<T> = Vec::new();
        let ghost mut taken: nat = 0;
        let mut at: usize = 0;
        while at < count
            invariant
                at <= count,
                before == old(self)@,
                input == before.unread(),
                input.len() >= 2,
                count == be_value(input.subrange(0, 2)),
                body == input.skip(2),
                start == before.consume(2),
                start.unread() == body,
                items@.len() == at,
                items_parse::<T>(body, at as nat) == (Parsed { taken, failure: None }),
                taken <= body.len(),
                self@ == start.consume(taken),
                forall|i: int| 0 <= i < at ==> #[trigger] item_decoded_at(items@, body, i),
            decreases count - at,
        {
            let ghost here = self@;
            let ghost parsed = T::parse(body.skip(taken as int));
            proof {
                start.lemma_unread_after_consume(taken);
                assert(here.consume(parsed.taken) == start.consume(taken + parsed.taken));
                assert(start.consume(taken + parsed.taken) == before.consume(
                    2 + taken + parsed.taken,
                ));
            }
            match T::decode_value(self) {
                Ok(item) => {
                    assert(item.decoded_from(body.skip(taken as int)));
                    let ghost earlier = items@;
                    items.push(item);
                    proof {
                        assert forall|i: int| 0 <= i < at + 1 implies #[trigger] item_decoded_at(
                            items@,
                            body,
                            i,
                        ) by {
                            if i < at {
                                assert(item_decoded_at(earlier, body, i));
                            }
                        }
                        taken = taken + parsed.taken;
                    }
                },
                Err(e) => {
                    proof {
                        lemma_items_parse_failure_stays::<T>(body, (at + 1) as nat, count as nat);
                    }
                    return Err(e);
                },
            }
            at = at + 1;
        }
        proof {
            assert(start.consume(taken) == before.consume(2 + taken));
            assert(array_decoded_from(items@, input));
        }
        Ok(items)
    }

    /// Writes the identifier of a message as two big-endian bytes.
    pub fn write_message_id(&mut self, id: u16) -> (r: Result<(), BufferfishError>)
        ensures
            (final(self)@, r) == old(self)@.write_all(be_bytes(id as nat, 2)),
    {
        self.write_u16(id)
    }

    /// Reads the identifier of a message and holds it against the expected
    /// one. An identifier that differs is refused; the cursor then stands
    /// behind the identifier, before the first field.
    pub fn read_message_id(&mut self, expected: u16) -> (r: Result<(), BufferfishError>)
        ensures
            final(self)@ == old(self)@.consume(
                header_parse(Some(expected), old(self)@.unread()).taken,
            ),
            r == match header_parse(Some(expected), old(self)@.unread()).failure {
                None => Ok::<(), BufferfishError>(()),
                Some(e) => Err::<(), BufferfishError>(e),
            },
    {
        proof {
            old(self)@.lemma_read_number_bound(2);
            lemma_pow256_values();
        }
        match self.read_u16() {
            Ok(found) => {
                if found == expected {
                    Ok(())
                } else {
                    Err(BufferfishError::InvalidMessageId)
                }
            },
            Err(e) => Err(e),
        }
    }

    /// Writes the discriminant of an enum: the zero-based index of the
    /// selected variant in one byte. An index that one byte cannot hold is
    /// refused, and nothing is written.
    pub fn write_variant_index(&mut self, index: usize) -> (r: Result<(), BufferfishError>)
        ensures
            index > 255 ==> final(self)@ == old(self)@ && r == Err::<(), BufferfishError>(
                BufferfishError::InvalidEnumVariant,
            ),
            index <= 255 ==> (final(self)@, r) == old(self)@.write_all(seq![index as u8]),
    {
        if index > 255 {
            return Err(BufferfishError::InvalidEnumVariant);
        }
        proof {
            reveal_with_fuel(be_bytes, 2);
            assert(be_bytes(index as nat, 1) =~= seq![index as u8]);
        }
        self.write_u8(index as u8)
    }

    /// Reads the discriminant of an enum with `variant_count` variants. A
    /// byte that is no index of a variant is refused.
    pub fn read_variant_index(&mut self, variant_count: usize) -> (r: Result<u8, BufferfishError>)
        ensures
            match old(self)@.read_number(1) {
                (after, Ok(n)) => final(self)@ == after && r == (if n < variant_count {
                    Ok::<u8, BufferfishError>(n as u8)
                } else {
                    Err::<u8, BufferfishError>(BufferfishError::InvalidEnumVariant)
                }),
                (after, Err(e)) => final(self)@ == after && r == Err::<u8, BufferfishError>(e),
            },
    {
        proof {
            old(self)@.lemma_read_number_bound(1);
            lemma_pow256_values();
        }
        match self.read_u8() {
            Ok(index) => {
                if (index as usize) < variant_count {
                    Ok(index)
                } else {
                    Err(BufferfishError::InvalidEnumVariant)
                }
            },
            Err(e) => Err(e),
        }
    }

    /// Reads `n` bytes and makes a string of them.
    fn read_text(&mut self, n: usize) -> (r: Result<String, BufferfishError>)
        ensures
            final(self)@ == old(self)@.read_text(n as nat).0,
            same_text(r, old(self)@.read_text(n as nat).1),
    {
        let start = match self.take(n) {
            Ok(start) => start,
            Err(e) => {
                return Err(e);
            },
        };
        let total = self.bytes.len();
        assert(start + n <= total);
        let payload = slice_to_vec(slice_subrange(self.bytes.as_slice(), start, start + n));
        match string_from_utf8(payload) {
            Some(text) => {
                proof {
                    encode_utf8_decode_utf8(text@);
                }
                Ok(text)
            },
            None => Err(BufferfishError::FailedWrite(IoFailure::InvalidUtf8)),
        }
    }

    /// Reads a variable length string from the buffer.
    pub fn read_string(&mut self) -> (r: Result<String, BufferfishError>)
        ensures
            final(self)@ == old(self)@.read_string().0,
            same_text(r, old(self)@.read_string().1),
    {
        proof {
            old(self)@.lemma_read_number_bound(2);
            lemma_pow256_values();
        }
        let n = match self.read_u16() {
            Ok(n) => n,
            Err(e) => {
                return Err(e);
            },
        };
        self.read_text(n as usize)
    }

    /// Reads a sized string from the buffer. You must pass the length of the
    /// string in bytes.
    pub fn read_sized_string(&mut self, size: usize) -> (r: Result<String, BufferfishError>)
        ensures
            final(self)@ == old(self)@.read_text(size as nat).0,
            same_text(r, old(self)@.read_text(size as nat).1),
    {
        self.read_text(size)
    }

    /// Reads a string from the buffer's current position until the end of
    /// the buffer, so this function should not be used unless you know that
    /// the string is the last value in the buffer.
    pub fn read_string_remaining(&mut self) -> (r: Result<String, BufferfishError>)
        ensures
            final(self)@ == old(self)@.read_text(old(self)@.unread().len()).0,
            same_text(r, old(self)@.read_text(old(self)@.unread().len()).1),
    {
        self.start_reading();
        let left = self.bytes.len() - self.position();
        self.read_text(left)
    }

    /// Returns the next byte in the buffer without advancing the cursor.
    /// Fails if the cursor is at the end of the buffer.
    pub fn peek(&mut self) -> (r: Result<u8, BufferfishError>)
        ensures
            match old(self)@.peek_exact(1) {
                (after, Ok(bytes)) => final(self)@ == after && r == Ok::<u8, BufferfishError>(
                    bytes[0],
                ),
                (after, Err(e)) => final(self)@ == after && r == Err::<u8, BufferfishError>(e),
            },
    {
        self.start_reading();
        let at = self.position();
        if at < self.bytes.len() {
            Ok(self.bytes[at])
        } else {
            Err(
                BufferfishError::FailedWrite(
                    IoFailure::PeekOutOfBounds { requested: 1, max_capacity: self.max_capacity },
                ),
            )
        }
    }

    /// Returns the next n-bytes in the buffer without advancing the cursor.
    /// Fails if fewer than n bytes are left after the cursor.
    pub fn peek_n(&mut self, n: usize) -> (r: Result<Vec<u8>, BufferfishError>)
        ensures
            match old(self)@.peek_exact(n as nat) {
                (after, Ok(bytes)) => final(self)@ == after && r is Ok && r->Ok_0@ == bytes,
                (after, Err(e)) => final(self)@ == after && r is Err && r->Err_0 == e,
            },
    {
        self.start_reading();
        let at = self.position();
        if n <= self.bytes.len() - at {
            Ok(slice_to_vec(slice_subrange(self.bytes.as_slice(), at, at + n)))
        } else {
            Err(
                BufferfishError::FailedWrite(
                    IoFailure::PeekOutOfBounds { requested: n, max_capacity: self.max_capacity },
                ),
            )
        }
    }
}

/// Whether a result holds the text, or the error, that `model` says.
pub open spec fn same_text(
    r: Result<String, BufferfishError>,
    model: Result<Seq<char>, BufferfishError>,
) -> bool {
    match (r, model) {
        (Ok(text), Ok(chars)) => text@ == chars,
        (Err(e), Err(expected)) => e == expected,
        _ => false,
    }
}

/// `String::from_utf8`: a string is returned if and only if the bytes are
/// well-formed UTF-8, and its UTF-8 encoding is then those bytes.
#[verifier::external_body]
fn string_from_utf8(bytes: Vec<u8>) -> (r: Option<String>)
    ensures
        r is Some <==> valid_utf8(bytes@),
        r matches Some(text) ==> encode_utf8(text@) == bytes@,
{
    String::from_utf8(bytes).ok()
}

} // verus!
