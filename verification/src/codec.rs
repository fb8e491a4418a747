//! The primitive codec: fixed-width integers in either byte order, read from
//! a slice of bytes and written to a growing buffer, and the patching of
//! integers that were written earlier.
use vstd::prelude::*;
use crate::format::ByteOrder;

verus! {

/// Whether `n` bytes lie in `bytes` from position `pos` on.
pub open spec fn in_bounds(bytes: Seq<u8>, pos: int, n: int) -> bool {
    0 <= pos && 0 <= n && pos + n <= bytes.len()
}

/// The 16-bit integer whose low byte is `b0`.
pub open spec fn u16_of(b0: u8, b1: u8) -> u16 {
    (b0 as int + 0x100 * (b1 as int)) as u16
}

/// The 32-bit integer whose bytes are `b0` to `b3`, lowest first.
pub open spec fn u32_of(b0: u8, b1: u8, b2: u8, b3: u8) -> u32 {
    (b0 as int + 0x100 * (b1 as int) + 0x1_0000 * (b2 as int) + 0x100_0000 * (b3 as int)) as u32
}

/// The 64-bit integer whose halves are `lo` and `hi`.
pub open spec fn u64_of(lo: u32, hi: u32) -> u64 {
    (lo as int + 0x1_0000_0000 * (hi as int)) as u64
}

/// The 16-bit integer stored at `pos` in the given byte order.
pub open spec fn u16_at(bytes: Seq<u8>, pos: int, order: ByteOrder) -> u16 {
    match order {
        ByteOrder::LittleEndian => u16_of(bytes[pos], bytes[pos + 1]),
        ByteOrder::BigEndian => u16_of(bytes[pos + 1], bytes[pos]),
    }
}

/// The 32-bit integer stored at `pos` in the given byte order.
pub open spec fn u32_at(bytes: Seq<u8>, pos: int, order: ByteOrder) -> u32 {
    match order {
        ByteOrder::LittleEndian => u32_of(
            bytes[pos],
            bytes[pos + 1],
            bytes[pos + 2],
            bytes[pos + 3],
        ),
        ByteOrder::BigEndian => u32_of(
            bytes[pos + 3],
            bytes[pos + 2],
            bytes[pos + 1],
            bytes[pos],
        ),
    }
}

/// The 64-bit integer stored at `pos` in the given byte order.
pub open spec fn u64_at(bytes: Seq<u8>, pos: int, order: ByteOrder) -> u64 {
    match order {
        ByteOrder::LittleEndian => u64_of(
            u32_at(bytes, pos, order),
            u32_at(bytes, pos + 4, order),
        ),
        ByteOrder::BigEndian => u64_of(u32_at(bytes, pos + 4, order), u32_at(bytes, pos, order)),
    }
}

/// The signed integer that a 32-bit pattern stands for in two's complement.
pub open spec fn i32_of(bits: u32) -> i32 {
    if bits < 0x8000_0000 {
        bits as i32
    } else {
        (bits - 0x1_0000_0000) as i32
    }
}

/// The 32-bit pattern of a signed integer in two's complement.
pub open spec fn bits_of(value: i32) -> u32 {
    if value >= 0 {
        value as u32
    } else {
        (value + 0x1_0000_0000) as u32
    }
}

/// The two bytes of a 16-bit integer in the given byte order.
#[verifier::opaque]
pub open spec fn u16_bytes(v: u16, order: ByteOrder) -> Seq<u8> {
    match order {
        ByteOrder::LittleEndian => seq![(v % 0x100) as u8, (v / 0x100) as u8],
        ByteOrder::BigEndian => seq![(v / 0x100) as u8, (v % 0x100) as u8],
    }
}

/// The four bytes of a 32-bit integer in the given byte order.
#[verifier::opaque]
pub open spec fn u32_bytes(v: u32, order: ByteOrder) -> Seq<u8> {
    match order {
        ByteOrder::LittleEndian => seq![
            (v % 0x100) as u8,
            (v / 0x100 % 0x100) as u8,
            (v / 0x1_0000 % 0x100) as u8,
            (v / 0x100_0000) as u8,
        ],
        ByteOrder::BigEndian => seq![
            (v / 0x100_0000) as u8,
            (v / 0x1_0000 % 0x100) as u8,
            (v / 0x100 % 0x100) as u8,
            (v % 0x100) as u8,
        ],
    }
}

/// The eight bytes of a 64-bit integer in the given byte order.
#[verifier::opaque]
pub open spec fn u64_bytes(v: u64, order: ByteOrder) -> Seq<u8> {
    match order {
        ByteOrder::LittleEndian => u32_bytes((v % 0x1_0000_0000) as u32, order) + u32_bytes(
            (v / 0x1_0000_0000) as u32,
            order,
        ),
        ByteOrder::BigEndian => u32_bytes((v / 0x1_0000_0000) as u32, order) + u32_bytes(
            (v % 0x1_0000_0000) as u32,
            order,
        ),
    }
}

/// `s` with the bytes from `pos` on replaced by `patch`.
pub open spec fn splice(s: Seq<u8>, pos: int, patch: Seq<u8>) -> Seq<u8> {
    s.subrange(0, pos) + patch + s.subrange(pos + patch.len(), s.len() as int)
}

/// `n` zero bytes.
pub open spec fn zeros(n: int) -> Seq<u8> {
    Seq::new(
        if n > 0 {
            n as nat
        } else {
            0
        },
        |i: int| 0u8,
    )
}

/// An integer of 16, 32 or 64 bits takes 2, 4 or 8 bytes.
pub proof fn lemma_bytes_len()
    ensures
        forall|v: u16, order: ByteOrder| (#[trigger] u16_bytes(v, order)).len() == 2,
        forall|v: u32, order: ByteOrder| (#[trigger] u32_bytes(v, order)).len() == 4,
        forall|v: u64, order: ByteOrder| (#[trigger] u64_bytes(v, order)).len() == 8,
{
    reveal(u16_bytes);
    reveal(u32_bytes);
    reveal(u64_bytes);
}

/// A 16-bit integer is read back from its bytes, wherever they lie.
pub proof fn lemma_u16_round_trip(bytes: Seq<u8>, pos: int, v: u16, order: ByteOrder)
    requires
        in_bounds(bytes, pos, 2),
        bytes.subrange(pos, pos + 2) == u16_bytes(v, order),
    ensures
        u16_at(bytes, pos, order) == v,
{
    reveal(u16_bytes);
    let b = u16_bytes(v, order);
    assert(bytes[pos] == bytes.subrange(pos, pos + 2)[0]);
    assert(bytes[pos + 1] == bytes.subrange(pos, pos + 2)[1]);
}

/// A 32-bit integer is read back from its bytes, wherever they lie.
pub proof fn lemma_u32_round_trip(bytes: Seq<u8>, pos: int, v: u32, order: ByteOrder)
    requires
        in_bounds(bytes, pos, 4),
        bytes.subrange(pos, pos + 4) == u32_bytes(v, order),
    ensures
        u32_at(bytes, pos, order) == v,
{
    reveal(u32_bytes);
    let b = bytes.subrange(pos, pos + 4);
    assert(bytes[pos] == b[0]);
    assert(bytes[pos + 1] == b[1]);
    assert(bytes[pos + 2] == b[2]);
    assert(bytes[pos + 3] == b[3]);
}

/// A 64-bit integer is read back from its bytes, wherever they lie.
pub proof fn lemma_u64_round_trip(bytes: Seq<u8>, pos: int, v: u64, order: ByteOrder)
    requires
        in_bounds(bytes, pos, 8),
        bytes.subrange(pos, pos + 8) == u64_bytes(v, order),
    ensures
        u64_at(bytes, pos, order) == v,
{
    reveal(u64_bytes);
    lemma_bytes_len();
    let b = bytes.subrange(pos, pos + 8);
    let lo = (v % 0x1_0000_0000) as u32;
    let hi = (v / 0x1_0000_0000) as u32;
    match order {
        ByteOrder::LittleEndian => {
            assert(bytes.subrange(pos, pos + 4) =~= b.subrange(0, 4));
            assert(bytes.subrange(pos + 4, pos + 8) =~= b.subrange(4, 8));
            assert(b.subrange(0, 4) =~= u32_bytes(lo, order));
            assert(b.subrange(4, 8) =~= u32_bytes(hi, order));
            lemma_u32_round_trip(bytes, pos, lo, order);
            lemma_u32_round_trip(bytes, pos + 4, hi, order);
        },
        ByteOrder::BigEndian => {
            assert(bytes.subrange(pos, pos + 4) =~= b.subrange(0, 4));
            assert(bytes.subrange(pos + 4, pos + 8) =~= b.subrange(4, 8));
            assert(b.subrange(0, 4) =~= u32_bytes(hi, order));
            assert(b.subrange(4, 8) =~= u32_bytes(lo, order));
            lemma_u32_round_trip(bytes, pos, hi, order);
            lemma_u32_round_trip(bytes, pos + 4, lo, order);
        },
    }
}

/// A signed integer is found again from its two's-complement pattern.
pub proof fn lemma_i32_round_trip(value: i32)
    ensures
        i32_of(bits_of(value)) == value,
{
}

/// The 16-bit integer at `pos`.
pub fn read_u16(bytes: &[u8], pos: usize, order: ByteOrder) -> (r: u16)
    requires
        in_bounds(bytes@, pos as int, 2),
    ensures
        r == u16_at(bytes@, pos as int, order),
{
    let b0: u16 = bytes[pos] as u16;
    let b1: u16 = bytes[pos + 1] as u16;
    match order {
        ByteOrder::LittleEndian => b0 + 0x100 * b1,
        ByteOrder::BigEndian => b1 + 0x100 * b0,
    }
}

/// The 32-bit integer at `pos`.
pub fn read_u32(bytes: &[u8], pos: usize, order: ByteOrder) -> (r: u32)
    requires
        in_bounds(bytes@, pos as int, 4),
    ensures
        r == u32_at(bytes@, pos as int, order),
{
    let b0: u32 = bytes[pos] as u32;
    let b1: u32 = bytes[pos + 1] as u32;
    let b2: u32 = bytes[pos + 2] as u32;
    let b3: u32 = bytes[pos + 3] as u32;
    match order {
        ByteOrder::LittleEndian => b0 + 0x100 * b1 + 0x1_0000 * b2 + 0x100_0000 * b3,
        ByteOrder::BigEndian => b3 + 0x100 * b2 + 0x1_0000 * b1 + 0x100_0000 * b0,
    }
}

/// The 64-bit integer at `pos`.
pub fn read_u64(bytes: &[u8], pos: usize, order: ByteOrder) -> (r: u64)
    requires
        in_bounds(bytes@, pos as int, 8),
    ensures
        r == u64_at(bytes@, pos as int, order),
{
    let len: usize = bytes.len();
    let first: u64 = read_u32(bytes, pos, order) as u64;
    let second: u64 = read_u32(bytes, pos + 4, order) as u64;
    match order {
        ByteOrder::LittleEndian => first + 0x1_0000_0000 * second,
        ByteOrder::BigEndian => second + 0x1_0000_0000 * first,
    }
}

/// The signed integer of a 32-bit pattern.
pub fn i32_from_bits(bits: u32) -> (r: i32)
    ensures
        r == i32_of(bits),
{
    if bits < 0x8000_0000 {
        bits as i32
    } else {
        (bits as i64 - 0x1_0000_0000) as i32
    }
}

/// The 32-bit pattern of a signed integer.
pub fn i32_to_bits(value: i32) -> (r: u32)
    ensures
        r == bits_of(value),
{
    if value >= 0 {
        value as u32
    } else {
        (value as i64 + 0x1_0000_0000) as u32
    }
}

/// A growing buffer of bytes with a byte order. What is written goes to its
/// end; what was written can be overwritten in place.
pub struct Writer {
    pub buf: Vec<u8>,
    pub order: ByteOrder,
}

impl View for Writer {
    type V = Seq<u8>;

    open spec fn view(&self) -> Seq<u8> {
        self.buf@
    }
}

impl Writer {
    /// An empty buffer that writes in the given byte order.
    pub fn new(order: ByteOrder) -> (w: Writer)
        ensures
            w@ == Seq::<u8>::empty(),
            w.order == order,
    {
        Writer { buf: Vec::new(), order }
    }

    /// The position at which the next byte is written.
    pub fn position(&self) -> (p: usize)
        ensures
            p == self@.len(),
    {
        self.buf.len()
    }

    /// Writes a byte and returns where it lies.
    pub fn put_u8(&mut self, v: u8) -> (at: usize)
        ensures
            final(self)@ == old(self)@.push(v),
            final(self).order == old(self).order,
            at == old(self)@.len(),
    {
        let at: usize = self.buf.len();
        self.buf.push(v);
        at
    }

    /// Writes a 16-bit integer and returns where it lies.
    pub fn put_u16(&mut self, v: u16) -> (at: usize)
        ensures
            final(self)@ == old(self)@ + u16_bytes(v, old(self).order),
            final(self).order == old(self).order,
            at == old(self)@.len(),
    {
        let at: usize = self.buf.len();
        let lo: u8 = (v % 0x100) as u8;
        let hi: u8 = (v / 0x100) as u8;
        match self.order {
            ByteOrder::LittleEndian => {
                self.buf.push(lo);
                self.buf.push(hi);
            },
            ByteOrder::BigEndian => {
                self.buf.push(hi);
                self.buf.push(lo);
            },
        }
        proof {
            reveal(u16_bytes);
        }
        assert(self.buf@ =~= old(self)@ + u16_bytes(v, old(self).order));
        at
    }

    /// Writes a 32-bit integer and returns where it lies.
    pub fn put_u32(&mut self, v: u32) -> (at: usize)
        ensures
            final(self)@ == old(self)@ + u32_bytes(v, old(self).order),
            final(self).order == old(self).order,
            at == old(self)@.len(),
    {
        let at: usize = self.buf.len();
        let b0: u8 = (v % 0x100) as u8;
        let b1: u8 = (v / 0x100 % 0x100) as u8;
        let b2: u8 = (v / 0x1_0000 % 0x100) as u8;
        let b3: u8 = (v / 0x100_0000) as u8;
        match self.order {
            ByteOrder::LittleEndian => {
                self.buf.push(b0);
                self.buf.push(b1);
                self.buf.push(b2);
                self.buf.push(b3);
            },
            ByteOrder::BigEndian => {
                self.buf.push(b3);
                self.buf.push(b2);
                self.buf.push(b1);
                self.buf.push(b0);
            },
        }
        proof {
            reveal(u32_bytes);
        }
        assert(self.buf@ =~= old(self)@ + u32_bytes(v, old(self).order));
        at
    }

    /// Writes a 64-bit integer and returns where it lies.
    pub fn put_u64(&mut self, v: u64) -> (at: usize)
        ensures
            final(self)@ == old(self)@ + u64_bytes(v, old(self).order),
            final(self).order == old(self).order,
            at == old(self)@.len(),
    {
        let at: usize = self.buf.len();
        let lo: u32 = (v % 0x1_0000_0000) as u32;
        let hi: u32 = (v / 0x1_0000_0000) as u32;
        match self.order {
            ByteOrder::LittleEndian => {
                self.put_u32(lo);
                self.put_u32(hi);
            },
            ByteOrder::BigEndian => {
                self.put_u32(hi);
                self.put_u32(lo);
            },
        }
        proof {
            reveal(u64_bytes);
        }
        assert(self.buf@ =~= old(self)@ + u64_bytes(v, old(self).order));
        at
    }

    /// Writes bytes as they are and returns where they lie.
    pub fn put_bytes(&mut self, bytes: &[u8]) -> (at: usize)
        ensures
            final(self)@ == old(self)@ + bytes@,
            final(self).order == old(self).order,
            at == old(self)@.len(),
    {
        let at: usize = self.buf.len();
        let mut i: usize = 0;
        while i < bytes.len()
            invariant
                i <= bytes@.len(),
                self.order == old(self).order,
                self.buf@ == old(self)@ + bytes@.subrange(0, i as int),
            decreases bytes@.len() - i,
        {
            self.buf.push(bytes[i]);
            assert(bytes@.subrange(0, i as int).push(bytes@[i as int]) =~= bytes@.subrange(
                0,
                i + 1,
            ));
            assert(self.buf@ =~= old(self)@ + bytes@.subrange(0, i + 1));
            i = i + 1;
        }
        assert(bytes@.subrange(0, i as int) =~= bytes@);
        at
    }

    /// Writes zero bytes until the buffer is `target` bytes long. A buffer
    /// that is longer already is left as it is.
    pub fn pad_to(&mut self, target: usize)
        ensures
            final(self)@ == old(self)@ + zeros(target - old(self)@.len()),
            final(self).order == old(self).order,
    {
        assert(self.buf@ =~= old(self)@ + zeros(0));
        while self.buf.len() < target
            invariant
                self.order == old(self).order,
                old(self)@.len() <= self.buf@.len(),
                self.buf@.len() <= target || self.buf@.len() == old(self)@.len(),
                self.buf@ == old(self)@ + zeros(self.buf@.len() - old(self)@.len()),
            decreases target - self.buf@.len(),
        {
            let ghost before = self.buf@;
            self.buf.push(0);
            assert(self.buf@ =~= old(self)@ + zeros(self.buf@.len() - old(self)@.len()));
        }
        assert(self.buf@ =~= old(self)@ + zeros(target - old(self)@.len()));
    }

    /// Overwrites the 16-bit integer at `at`.
    pub fn patch_u16(&mut self, at: usize, v: u16)
        requires
            in_bounds(old(self)@, at as int, 2),
        ensures
            final(self)@ == splice(old(self)@, at as int, u16_bytes(v, old(self).order)),
            final(self)@.len() == old(self)@.len(),
            final(self).order == old(self).order,
    {
        let len: usize = self.buf.len();
        let lo: u8 = (v % 0x100) as u8;
        let hi: u8 = (v / 0x100) as u8;
        match self.order {
            ByteOrder::LittleEndian => {
                self.buf.set(at, lo);
                self.buf.set(at + 1, hi);
            },
            ByteOrder::BigEndian => {
                self.buf.set(at, hi);
                self.buf.set(at + 1, lo);
            },
        }
        proof {
            reveal(u16_bytes);
        }
        assert(self.buf@ =~= splice(old(self)@, at as int, u16_bytes(v, old(self).order)));
    }

    /// Overwrites the 32-bit integer at `at`.
    pub fn patch_u32(&mut self, at: usize, v: u32)
        requires
            in_bounds(old(self)@, at as int, 4),
        ensures
            final(self)@ == splice(old(self)@, at as int, u32_bytes(v, old(self).order)),
            final(self)@.len() == old(self)@.len(),
            final(self).order == old(self).order,
    {
        let b0: u8 = (v % 0x100) as u8;
        let b1: u8 = (v / 0x100 % 0x100) as u8;
        let b2: u8 = (v / 0x1_0000 % 0x100) as u8;
        let b3: u8 = (v / 0x100_0000) as u8;
        let len: usize = self.buf.len();
        match self.order {
            ByteOrder::LittleEndian => {
                self.buf.set(at, b0);
                self.buf.set(at + 1, b1);
                self.buf.set(at + 2, b2);
                self.buf.set(at + 3, b3);
            },
            ByteOrder::BigEndian => {
                self.buf.set(at, b3);
                self.buf.set(at + 1, b2);
                self.buf.set(at + 2, b1);
                self.buf.set(at + 3, b0);
            },
        }
        proof {
            reveal(u32_bytes);
        }
        assert(self.buf@ =~= splice(old(self)@, at as int, u32_bytes(v, old(self).order)));
    }

    /// Overwrites the 64-bit integer at `at`.
    pub fn patch_u64(&mut self, at: usize, v: u64)
        requires
            in_bounds(old(self)@, at as int, 8),
        ensures
            final(self)@ == splice(old(self)@, at as int, u64_bytes(v, old(self).order)),
            final(self)@.len() == old(self)@.len(),
            final(self).order == old(self).order,
    {
        let lo: u32 = (v % 0x1_0000_0000) as u32;
        let hi: u32 = (v / 0x1_0000_0000) as u32;
        let len: usize = self.buf.len();
        match self.order {
            ByteOrder::LittleEndian => {
                self.patch_u32(at, lo);
                self.patch_u32(at + 4, hi);
            },
            ByteOrder::BigEndian => {
                self.patch_u32(at, hi);
                self.patch_u32(at + 4, lo);
            },
        }
        proof {
            reveal(u64_bytes);
            lemma_bytes_len();
        }
        assert(self.buf@ =~= splice(old(self)@, at as int, u64_bytes(v, old(self).order)));
    }
}

} // verus!
