//! Memory-mapped I/O.
//!
//! [`IoRaw`] describes an I/O region by its base address and size; [`MMIo`] is such a
//! region that is known to be mapped. The traits [`IoAccess`], [`IoAccess64`],
//! [`IoAccessRelaxed`] and [`IoAccess64Relaxed`] give bounds-checked accessors on top of
//! the unchecked ones that a bus implementation provides.
use vstd::prelude::*;

use crate::error::Error;
use crate::fmt::decimal;
use crate::fmt::push_decimal;
use crate::error::Error::EINVAL;

verus! {

/// Whether an access of `type_size` bytes at `offset` stays inside a region of `size`
/// bytes and is aligned to its own width.
pub open spec fn offset_valid_spec(offset: int, type_size: int, size: int) -> bool {
    &&& offset + type_size <= size
    &&& offset % type_size == 0
}

/// Checks that an access of type `U` at `offset` fits in a region of `size` bytes and
/// is naturally aligned.
pub fn offset_valid<U>(offset: usize, size: usize) -> (r: bool)
    requires
        vstd::layout::size_of::<U>() > 0,
    ensures
        r == offset_valid_spec(offset as int, vstd::layout::size_of::<U>() as int, size as int),
        r == (offset + vstd::layout::size_of::<U>() <= size
            && (offset as int) % (vstd::layout::size_of::<U>() as int) == 0),
{
    let type_size = core::mem::size_of::<U>();
    if let Some(end) = offset.checked_add(type_size) {
        end <= size && offset % type_size == 0
    } else {
        false
    }
}

/// The offsets valid for an access of `type_size` bytes in a region of `size` bytes are
/// exactly the multiples `k * type_size` whose access ends inside the region.
pub proof fn lemma_offset_valid_multiples(offset: int, type_size: int, size: int)
    requires
        0 <= offset,
        0 < type_size,
    ensures
        offset_valid_spec(offset, type_size, size) <==> exists|k: int|
            0 <= k && #[trigger] (k * type_size) == offset && (k + 1) * type_size <= size,
{
    if offset_valid_spec(offset, type_size, size) {
        let k = offset / type_size;
        vstd::arithmetic::div_mod::lemma_fundamental_div_mod(offset, type_size);
        assert(k * type_size == type_size * k) by (nonlinear_arith);
        assert(k * type_size == offset);
        assert((k + 1) * type_size == k * type_size + type_size) by (nonlinear_arith);
        assert(0 <= k) by (nonlinear_arith)
            requires
                0 <= offset,
                0 < type_size,
                k == offset / type_size,
        ;
    }
    if exists|k: int| 0 <= k && #[trigger] (k * type_size) == offset && (k + 1) * type_size <= size {
        let k = choose|k: int| 0 <= k && #[trigger] (k * type_size) == offset && (k + 1) * type_size <= size;
        vstd::arithmetic::div_mod::lemma_mod_multiples_basic(k, type_size);
        assert((k + 1) * type_size == k * type_size + type_size) by (nonlinear_arith);
    }
}

/// Two different valid offsets for accesses of `type_size` bytes are at least
/// `type_size` apart: valid accesses never overlap.
pub proof fn lemma_valid_offsets_apart(a: int, b: int, type_size: int, size: int)
    requires
        0 <= a < b,
        0 < type_size,
        offset_valid_spec(a, type_size, size),
        offset_valid_spec(b, type_size, size),
    ensures
        a + type_size <= b,
{
    lemma_offset_valid_multiples(a, type_size, size);
    lemma_offset_valid_multiples(b, type_size, size);
    let i = choose|k: int| 0 <= k && #[trigger] (k * type_size) == a && (k + 1) * type_size <= size;
    let j = choose|k: int| 0 <= k && #[trigger] (k * type_size) == b && (k + 1) * type_size <= size;
    assert(i < j) by (nonlinear_arith)
        requires
            i * type_size < j * type_size,
            0 < type_size,
    ;
    assert((i + 1) * type_size <= j * type_size) by (nonlinear_arith)
        requires
            i + 1 <= j,
            0 < type_size,
    ;
    assert((i + 1) * type_size == i * type_size + type_size) by (nonlinear_arith);
}

/// The first and last byte of a valid access lie inside the region.
pub proof fn lemma_offset_valid_in_region(offset: int, type_size: int, size: int)
    requires
        0 <= offset,
        0 < type_size,
        offset_valid_spec(offset, type_size, size),
    ensures
        offset < size,
        offset + type_size - 1 < size,
        type_size <= size,
{
}

/// If `offset` is valid for a region of `size` bytes, it is valid for any larger region.
pub proof fn lemma_offset_valid_grows(offset: int, type_size: int, size: int, bigger: int)
    requires
        offset_valid_spec(offset, type_size, size),
        size <= bigger,
    ensures
        offset_valid_spec(offset, type_size, bigger),
{
}

/// Raw representation of an MMIO region: a base address and a size.
///
/// By itself a value of this type gives no guarantee that the region exists or is
/// mapped; a bus turns it into an [`MMIo`] to access it.
///
/// The derived `Debug` prints `IoRaw { addr: .., maxsize: .. }`, without `SIZE`;
/// [`IoRaw::debug_string`] gives the text with `SIZE`.
#[derive(Clone, Copy, Debug, PartialEq, Eq)]
pub struct IoRaw<const SIZE: usize> {
    addr: usize,
    maxsize: usize,
}

impl<const SIZE: usize> IoRaw<SIZE> {
    /// The region's base address.
    pub closed spec fn spec_addr(&self) -> usize {
        self.addr
    }

    /// The region's size in bytes.
    pub closed spec fn spec_maxsize(&self) -> usize {
        self.maxsize
    }

    /// Every region is at least `SIZE` bytes large.
    #[verifier::type_invariant]
    closed spec fn inv(self) -> bool {
        SIZE <= self.maxsize
    }

    /// Returns a new `IoRaw` for the region of `maxsize` bytes at `addr`, or `EINVAL`
    /// when `maxsize` is smaller than `SIZE`.
    pub fn new(addr: usize, maxsize: usize) -> (r: Result<Self, Error>)
        ensures
            r is Err <==> maxsize < SIZE,
            r is Err ==> r == Err::<Self, Error>(EINVAL),
            r matches Ok(raw) ==> raw.spec_addr() == addr && raw.spec_maxsize() == maxsize,
    {
        if maxsize < SIZE {
            return Err(EINVAL);
        }
        Ok(Self { addr, maxsize })
    }

    /// The debug text of the region: `IoRaw { SIZE: .., addr: .., maxsize: .. }`, with
    /// the numbers in decimal.
    pub open spec fn debug_text(&self) -> Seq<char> {
        "IoRaw { SIZE: "@ + decimal(SIZE as nat) + ", addr: "@ + decimal(self.spec_addr() as nat)
            + ", maxsize: "@ + decimal(self.spec_maxsize() as nat) + " }"@
    }

    /// Returns the debug text of the region, `SIZE` included.
    pub fn debug_string(&self) -> (r: String)
        ensures
            r@ == self.debug_text(),
    {
        let mut s = String::from_str("IoRaw { SIZE: ");
        push_decimal(&mut s, SIZE);
        s.append(", addr: ");
        push_decimal(&mut s, self.addr);
        s.append(", maxsize: ");
        push_decimal(&mut s, self.maxsize);
        s.append(" }");
        s
    }

    /// A region is determined by its base address and size.
    pub proof fn lemma_fields_determine(a: Self, b: Self)
        requires
            a.spec_addr() == b.spec_addr(),
            a.spec_maxsize() == b.spec_maxsize(),
        ensures
            a == b,
    {
    }

    /// Returns the base address of the MMIO region.
    pub fn addr(&self) -> (r: usize)
        ensures
            r == self.spec_addr(),
    {
        self.addr
    }

    /// Returns the maximum size of the MMIO region; it is never smaller than `SIZE`.
    pub fn maxsize(&self) -> (r: usize)
        ensures
            r == self.spec_maxsize(),
            SIZE <= r,
    {
        proof {
            use_type_invariant(self);
        }
        self.maxsize
    }
}

/// I/O-mapped memory, starting at the base address [`addr`](MMIo::addr) and spanning
/// [`maxsize`](MMIo::maxsize) bytes.
///
/// The creator (usually a bus such as PCI) is responsible for creating the mapping.
///
/// The derived `Debug` prints the region without `SIZE`; [`MMIo::debug_string`] gives
/// the text with it.
#[derive(Debug)]
pub struct MMIo<const SIZE: usize>(IoRaw<SIZE>);

impl<const SIZE: usize> MMIo<SIZE> {
    /// The raw region this mapping stands for.
    pub closed spec fn raw(&self) -> IoRaw<SIZE> {
        self.0
    }

    /// Converts an [`IoRaw`] into an [`MMIo`]. The caller vouches that `raw` describes
    /// a valid I/O-mapped memory region.
    pub fn from_raw(raw: IoRaw<SIZE>) -> (r: Self)
        ensures
            r.raw() == raw,
    {
        Self(raw)
    }

    /// Converts a reference to an [`IoRaw`] into an [`MMIo`] for the same region. The
    /// caller vouches that `raw` describes a valid I/O-mapped memory region.
    ///
    /// The result is a copy of `*raw`, not a view of the same memory: reinterpreting the
    /// reference in place would take an unchecked pointer cast.
    pub fn from_raw_ref(raw: &IoRaw<SIZE>) -> (r: Self)
        ensures
            r.raw() == *raw,
    {
        Self(*raw)
    }

    /// Returns the debug text of the mapping: `MMIo(` and the region's debug text, then `)`.
    pub fn debug_string(&self) -> (r: String)
        ensures
            r@ == "MMIo("@ + self.raw().debug_text() + ")"@,
    {
        let mut s = String::from_str("MMIo(");
        let inner = self.0.debug_string();
        s.append(inner.as_str());
        s.append(")");
        s
    }

    /// Returns the maximum size of the accessed I/O area; it is never smaller than `SIZE`.
    pub fn maxsize(&self) -> (r: usize)
        ensures
            r == self.raw().spec_maxsize(),
            SIZE <= r,
    {
        self.0.maxsize()
    }

    /// Returns the base address of the accessed I/O area.
    pub fn addr(&self) -> (r: usize)
        ensures
            r == self.raw().spec_addr(),
    {
        self.0.addr()
    }
}

/// Bounds-checked I/O accessors.
///
/// An implementation provides the region's base address and size and the unchecked
/// accessors; the checked ones are provided here. `SIZE` is the region's minimum size,
/// known when the code is built: offsets checked against it need no run-time check.
///
/// An implementation must keep `SIZE <= maxsize()`, and the region of `maxsize()`
/// bytes from `addr()` must be valid to access. `io_maxsize` and `io_addr` are the
/// values that `maxsize` and `addr` return, and `lemma_size_within_maxsize` states
/// that `SIZE <= io_maxsize()`.
pub trait IoAccess<const SIZE: usize> {
    /// The size of the accessed region, as `maxsize` returns it.
    spec fn io_maxsize(&self) -> usize;

    /// The base address of the accessed region, as `addr` returns it.
    spec fn io_addr(&self) -> usize;

    /// The region is never smaller than `SIZE`.
    proof fn lemma_size_within_maxsize(&self)
        ensures
            SIZE <= self.io_maxsize(),
    ;

    /// Returns the maximum size of the accessed I/O area.
    fn maxsize(&self) -> (r: usize)
        ensures
            r == self.io_maxsize(),
    ;

    /// Returns the base address of the accessed I/O area.
    fn addr(&self) -> (r: usize)
        ensures
            r == self.io_addr(),
    ;

    /// Reads a `u8` at `offset`, without bounds checks. The offset is relative to the
    /// base address of `self`; it must be valid for `self`.
    fn read8_unchecked(&self, offset: usize) -> u8
        requires
            offset_valid_spec(offset as int, 1, self.io_maxsize() as int),
    ;

    /// Reads a `u8` at an `offset` that is valid for the region's minimum size `SIZE`.
    fn read8(&self, offset: usize) -> (r: u8)
        requires
            offset_valid_spec(offset as int, 1, SIZE as int),
        ensures
            call_ensures(Self::read8_unchecked, (self, offset), r),
    {
        proof {
            self.lemma_size_within_maxsize();
            lemma_offset_valid_grows(offset as int, 1, SIZE as int, self.io_maxsize() as int);
        }
        self.read8_unchecked(offset)
    }

    /// Reads a `u8` at `offset`, failing with `EINVAL` when the access does not fit
    /// in the region or is misaligned.
    fn try_read8(&self, offset: usize) -> (r: Result<u8, Error>)
        ensures
            r is Err <==> !offset_valid_spec(offset as int, 1, self.io_maxsize() as int),
            r is Err ==> r == Err::<u8, Error>(EINVAL),
            r matches Ok(v) ==> call_ensures(Self::read8_unchecked, (self, offset), v),
    {
        if !offset_valid::<u8>(offset, self.maxsize()) {
            return Err(EINVAL);
        }
        Ok(self.read8_unchecked(offset))
    }

    /// Reads a `u16` at `offset`, without bounds checks. The offset is relative to the
    /// base address of `self`; it must be valid for `self`.
    fn read16_unchecked(&self, offset: usize) -> u16
        requires
            offset_valid_spec(offset as int, 2, self.io_maxsize() as int),
    ;

    /// Reads a `u16` at an `offset` that is valid for the region's minimum size `SIZE`.
    fn read16(&self, offset: usize) -> (r: u16)
        requires
            offset_valid_spec(offset as int, 2, SIZE as int),
        ensures
            call_ensures(Self::read16_unchecked, (self, offset), r),
    {
        proof {
            self.lemma_size_within_maxsize();
            lemma_offset_valid_grows(offset as int, 2, SIZE as int, self.io_maxsize() as int);
        }
        self.read16_unchecked(offset)
    }

    /// Reads a `u16` at `offset`, failing with `EINVAL` when the access does not fit
    /// in the region or is misaligned.
    fn try_read16(&self, offset: usize) -> (r: Result<u16, Error>)
        ensures
            r is Err <==> !offset_valid_spec(offset as int, 2, self.io_maxsize() as int),
            r is Err ==> r == Err::<u16, Error>(EINVAL),
            r matches Ok(v) ==> call_ensures(Self::read16_unchecked, (self, offset), v),
    {
        if !offset_valid::<u16>(offset, self.maxsize()) {
            return Err(EINVAL);
        }
        Ok(self.read16_unchecked(offset))
    }

    /// Reads a `u32` at `offset`, without bounds checks. The offset is relative to the
    /// base address of `self`; it must be valid for `self`.
    fn read32_unchecked(&self, offset: usize) -> u32
        requires
            offset_valid_spec(offset as int, 4, self.io_maxsize() as int),
    ;

    /// Reads a `u32` at an `offset` that is valid for the region's minimum size `SIZE`.
    fn read32(&self, offset: usize) -> (r: u32)
        requires
            offset_valid_spec(offset as int, 4, SIZE as int),
        ensures
            call_ensures(Self::read32_unchecked, (self, offset), r),
    {
        proof {
            self.lemma_size_within_maxsize();
            lemma_offset_valid_grows(offset as int, 4, SIZE as int, self.io_maxsize() as int);
        }
        self.read32_unchecked(offset)
    }

    /// Reads a `u32` at `offset`, failing with `EINVAL` when the access does not fit
    /// in the region or is misaligned.
    fn try_read32(&self, offset: usize) -> (r: Result<u32, Error>)
        ensures
            r is Err <==> !offset_valid_spec(offset as int, 4, self.io_maxsize() as int),
            r is Err ==> r == Err::<u32, Error>(EINVAL),
            r matches Ok(v) ==> call_ensures(Self::read32_unchecked, (self, offset), v),
    {
        if !offset_valid::<u32>(offset, self.maxsize()) {
            return Err(EINVAL);
        }
        Ok(self.read32_unchecked(offset))
    }

    /// Writes a `u8` at `offset`, without bounds checks. The offset is relative to the
    /// base address of `self`; it must be valid for `self`.
    fn write8_unchecked(&self, value: u8, offset: usize)
        requires
            offset_valid_spec(offset as int, 1, self.io_maxsize() as int),
    ;

    /// Writes a `u8` at an `offset` that is valid for the region's minimum size `SIZE`.
    fn write8(&self, value: u8, offset: usize)
        requires
            offset_valid_spec(offset as int, 1, SIZE as int),
        ensures
            call_ensures(Self::write8_unchecked, (self, value, offset), ()),
    {
        proof {
            self.lemma_size_within_maxsize();
            lemma_offset_valid_grows(offset as int, 1, SIZE as int, self.io_maxsize() as int);
        }
        self.write8_unchecked(value, offset)
    }

    /// Writes a `u8` at `offset`, failing with `EINVAL` when the access does not
    /// fit in the region or is misaligned; on success the value has been handed to the
    /// unchecked write at `offset`.
    fn try_write8(&self, value: u8, offset: usize) -> (r: Result<(), Error>)
        ensures
            r is Err <==> !offset_valid_spec(offset as int, 1, self.io_maxsize() as int),
            r is Err ==> r == Err::<(), Error>(EINVAL),
            r is Ok ==> call_ensures(Self::write8_unchecked, (self, value, offset), ()),
    {
        if !offset_valid::<u8>(offset, self.maxsize()) {
            return Err(EINVAL);
        }
        self.write8_unchecked(value, offset);
        Ok(())
    }

    /// Writes a `u16` at `offset`, without bounds checks. The offset is relative to the
    /// base address of `self`; it must be valid for `self`.
    fn write16_unchecked(&self, value: u16, offset: usize)
        requires
            offset_valid_spec(offset as int, 2, self.io_maxsize() as int),
    ;

    /// Writes a `u16` at an `offset` that is valid for the region's minimum size `SIZE`.
    fn write16(&self, value: u16, offset: usize)
        requires
            offset_valid_spec(offset as int, 2, SIZE as int),
        ensures
            call_ensures(Self::write16_unchecked, (self, value, offset), ()),
    {
        proof {
            self.lemma_size_within_maxsize();
            lemma_offset_valid_grows(offset as int, 2, SIZE as int, self.io_maxsize() as int);
        }
        self.write16_unchecked(value, offset)
    }

    /// Writes a `u16` at `offset`, failing with `EINVAL` when the access does not
    /// fit in the region or is misaligned; on success the value has been handed to the
    /// unchecked write at `offset`.
    fn try_write16(&self, value: u16, offset: usize) -> (r: Result<(), Error>)
        ensures
            r is Err <==> !offset_valid_spec(offset as int, 2, self.io_maxsize() as int),
            r is Err ==> r == Err::<(), Error>(EINVAL),
            r is Ok ==> call_ensures(Self::write16_unchecked, (self, value, offset), ()),
    {
        if !offset_valid::<u16>(offset, self.maxsize()) {
            return Err(EINVAL);
        }
        self.write16_unchecked(value, offset);
        Ok(())
    }

    /// Writes a `u32` at `offset`, without bounds checks. The offset is relative to the
    /// base address of `self`; it must be valid for `self`.
    fn write32_unchecked(&self, value: u32, offset: usize)
        requires
            offset_valid_spec(offset as int, 4, self.io_maxsize() as int),
    ;

    /// Writes a `u32` at an `offset` that is valid for the region's minimum size `SIZE`.
    fn write32(&self, value: u32, offset: usize)
        requires
            offset_valid_spec(offset as int, 4, SIZE as int),
        ensures
            call_ensures(Self::write32_unchecked, (self, value, offset), ()),
    {
        proof {
            self.lemma_size_within_maxsize();
            lemma_offset_valid_grows(offset as int, 4, SIZE as int, self.io_maxsize() as int);
        }
        self.write32_unchecked(value, offset)
    }

    /// Writes a `u32` at `offset`, failing with `EINVAL` when the access does not
    /// fit in the region or is misaligned; on success the value has been handed to the
    /// unchecked write at `offset`.
    fn try_write32(&self, value: u32, offset: usize) -> (r: Result<(), Error>)
        ensures
            r is Err <==> !offset_valid_spec(offset as int, 4, self.io_maxsize() as int),
            r is Err ==> r == Err::<(), Error>(EINVAL),
            r is Ok ==> call_ensures(Self::write32_unchecked, (self, value, offset), ()),
    {
        if !offset_valid::<u32>(offset, self.maxsize()) {
            return Err(EINVAL);
        }
        self.write32_unchecked(value, offset);
        Ok(())
    }
}

/// The 64-bit accessors of [`IoAccess`].
pub trait IoAccess64<const SIZE: usize>: IoAccess<SIZE> {
    /// Reads a `u64` at `offset`, without bounds checks. The offset is relative to the
    /// base address of `self`; it must be valid for `self`.
    fn read64_unchecked(&self, offset: usize) -> u64
        requires
            offset_valid_spec(offset as int, 8, self.io_maxsize() as int),
    ;

    /// Reads a `u64` at an `offset` that is valid for the region's minimum size `SIZE`.
    fn read64(&self, offset: usize) -> (r: u64)
        requires
            offset_valid_spec(offset as int, 8, SIZE as int),
        ensures
            call_ensures(Self::read64_unchecked, (self, offset), r),
    {
        proof {
            self.lemma_size_within_maxsize();
            lemma_offset_valid_grows(offset as int, 8, SIZE as int, self.io_maxsize() as int);
        }
        self.read64_unchecked(offset)
    }

    /// Reads a `u64` at `offset`, failing with `EINVAL` when the access does not fit
    /// in the region or is misaligned.
    fn try_read64(&self, offset: usize) -> (r: Result<u64, Error>)
        ensures
            r is Err <==> !offset_valid_spec(offset as int, 8, self.io_maxsize() as int),
            r is Err ==> r == Err::<u64, Error>(EINVAL),
            r matches Ok(v) ==> call_ensures(Self::read64_unchecked, (self, offset), v),
    {
        if !offset_valid::<u64>(offset, self.maxsize()) {
            return Err(EINVAL);
        }
        Ok(self.read64_unchecked(offset))
    }

    /// Writes a `u64` at `offset`, without bounds checks. The offset is relative to the
    /// base address of `self`; it must be valid for `self`.
    fn write64_unchecked(&self, value: u64, offset: usize)
        requires
            offset_valid_spec(offset as int, 8, self.io_maxsize() as int),
    ;

    /// Writes a `u64` at an `offset` that is valid for the region's minimum size `SIZE`.
    fn write64(&self, value: u64, offset: usize)
        requires
            offset_valid_spec(offset as int, 8, SIZE as int),
        ensures
            call_ensures(Self::write64_unchecked, (self, value, offset), ()),
    {
        proof {
            self.lemma_size_within_maxsize();
            lemma_offset_valid_grows(offset as int, 8, SIZE as int, self.io_maxsize() as int);
        }
        self.write64_unchecked(value, offset)
    }

    /// Writes a `u64` at `offset`, failing with `EINVAL` when the access does not
    /// fit in the region or is misaligned; on success the value has been handed to the
    /// unchecked write at `offset`.
    fn try_write64(&self, value: u64, offset: usize) -> (r: Result<(), Error>)
        ensures
            r is Err <==> !offset_valid_spec(offset as int, 8, self.io_maxsize() as int),
            r is Err ==> r == Err::<(), Error>(EINVAL),
            r is Ok ==> call_ensures(Self::write64_unchecked, (self, value, offset), ()),
    {
        if !offset_valid::<u64>(offset, self.maxsize()) {
            return Err(EINVAL);
        }
        self.write64_unchecked(value, offset);
        Ok(())
    }
}

/// Accessors like those of [`IoAccess`] with relaxed memory ordering.
pub trait IoAccessRelaxed<const SIZE: usize>: IoAccess<SIZE> {
    /// Reads a `u8` at `offset`, without bounds checks. The offset is relative to the
    /// base address of `self`; it must be valid for `self`.
    fn read8_relaxed_unchecked(&self, offset: usize) -> u8
        requires
            offset_valid_spec(offset as int, 1, self.io_maxsize() as int),
    ;

    /// Reads a `u8` at an `offset` that is valid for the region's minimum size `SIZE`.
    fn read8_relaxed(&self, offset: usize) -> (r: u8)
        requires
            offset_valid_spec(offset as int, 1, SIZE as int),
        ensures
            call_ensures(Self::read8_relaxed_unchecked, (self, offset), r),
    {
        proof {
            self.lemma_size_within_maxsize();
            lemma_offset_valid_grows(offset as int, 1, SIZE as int, self.io_maxsize() as int);
        }
        self.read8_relaxed_unchecked(offset)
    }

    /// Reads a `u8` at `offset`, failing with `EINVAL` when the access does not fit
    /// in the region or is misaligned.
    fn try_read8_relaxed(&self, offset: usize) -> (r: Result<u8, Error>)
        ensures
            r is Err <==> !offset_valid_spec(offset as int, 1, self.io_maxsize() as int),
            r is Err ==> r == Err::<u8, Error>(EINVAL),
            r matches Ok(v) ==> call_ensures(Self::read8_relaxed_unchecked, (self, offset), v),
    {
        if !offset_valid::<u8>(offset, self.maxsize()) {
            return Err(EINVAL);
        }
        Ok(self.read8_relaxed_unchecked(offset))
    }

    /// Reads a `u16` at `offset`, without bounds checks. The offset is relative to the
    /// base address of `self`; it must be valid for `self`.
    fn read16_relaxed_unchecked(&self, offset: usize) -> u16
        requires
            offset_valid_spec(offset as int, 2, self.io_maxsize() as int),
    ;

    /// Reads a `u16` at an `offset` that is valid for the region's minimum size `SIZE`.
    fn read16_relaxed(&self, offset: usize) -> (r: u16)
        requires
            offset_valid_spec(offset as int, 2, SIZE as int),
        ensures
            call_ensures(Self::read16_relaxed_unchecked, (self, offset), r),
    {
        proof {
            self.lemma_size_within_maxsize();
            lemma_offset_valid_grows(offset as int, 2, SIZE as int, self.io_maxsize() as int);
        }
        self.read16_relaxed_unchecked(offset)
    }

    /// Reads a `u16` at `offset`, failing with `EINVAL` when the access does not fit
    /// in the region or is misaligned.
    fn try_read16_relaxed(&self, offset: usize) -> (r: Result<u16, Error>)
        ensures
            r is Err <==> !offset_valid_spec(offset as int, 2, self.io_maxsize() as int),
            r is Err ==> r == Err::<u16, Error>(EINVAL),
            r matches Ok(v) ==> call_ensures(Self::read16_relaxed_unchecked, (self, offset), v),
    {
        if !offset_valid::<u16>(offset, self.maxsize()) {
            return Err(EINVAL);
        }
        Ok(self.read16_relaxed_unchecked(offset))
    }

    /// Reads a `u32` at `offset`, without bounds checks. The offset is relative to the
    /// base address of `self`; it must be valid for `self`.
    fn read32_relaxed_unchecked(&self, offset: usize) -> u32
        requires
            offset_valid_spec(offset as int, 4, self.io_maxsize() as int),
    ;

    /// Reads a `u32` at an `offset` that is valid for the region's minimum size `SIZE`.
    fn read32_relaxed(&self, offset: usize) -> (r: u32)
        requires
            offset_valid_spec(offset as int, 4, SIZE as int),
        ensures
            call_ensures(Self::read32_relaxed_unchecked, (self, offset), r),
    {
        proof {
            self.lemma_size_within_maxsize();
            lemma_offset_valid_grows(offset as int, 4, SIZE as int, self.io_maxsize() as int);
        }
        self.read32_relaxed_unchecked(offset)
    }

    /// Reads a `u32` at `offset`, failing with `EINVAL` when the access does not fit
    /// in the region or is misaligned.
    fn try_read32_relaxed(&self, offset: usize) -> (r: Result<u32, Error>)
        ensures
            r is Err <==> !offset_valid_spec(offset as int, 4, self.io_maxsize() as int),
            r is Err ==> r == Err::<u32, Error>(EINVAL),
            r matches Ok(v) ==> call_ensures(Self::read32_relaxed_unchecked, (self, offset), v),
    {
        if !offset_valid::<u32>(offset, self.maxsize()) {
            return Err(EINVAL);
        }
        Ok(self.read32_relaxed_unchecked(offset))
    }

    /// Writes a `u8` at `offset`, without bounds checks. The offset is relative to the
    /// base address of `self`; it must be valid for `self`.
    fn write8_relaxed_unchecked(&self, value: u8, offset: usize)
        requires
            offset_valid_spec(offset as int, 1, self.io_maxsize() as int),
    ;

    /// Writes a `u8` at an `offset` that is valid for the region's minimum size `SIZE`.
    fn write8_relaxed(&self, value: u8, offset: usize)
        requires
            offset_valid_spec(offset as int, 1, SIZE as int),
        ensures
            call_ensures(Self::write8_relaxed_unchecked, (self, value, offset), ()),
    {
        proof {
            self.lemma_size_within_maxsize();
            lemma_offset_valid_grows(offset as int, 1, SIZE as int, self.io_maxsize() as int);
        }
        self.write8_relaxed_unchecked(value, offset)
    }

    /// Writes a `u8` at `offset`, failing with `EINVAL` when the access does not
    /// fit in the region or is misaligned; on success the value has been handed to the
    /// unchecked write at `offset`.
    fn try_write8_relaxed(&self, value: u8, offset: usize) -> (r: Result<(), Error>)
        ensures
            r is Err <==> !offset_valid_spec(offset as int, 1, self.io_maxsize() as int),
            r is Err ==> r == Err::<(), Error>(EINVAL),
            r is Ok ==> call_ensures(Self::write8_relaxed_unchecked, (self, value, offset), ()),
    {
        if !offset_valid::<u8>(offset, self.maxsize()) {
            return Err(EINVAL);
        }
        self.write8_relaxed_unchecked(value, offset);
        Ok(())
    }

    /// Writes a `u16` at `offset`, without bounds checks. The offset is relative to the
    /// base address of `self`; it must be valid for `self`.
    fn write16_relaxed_unchecked(&self, value: u16, offset: usize)
        requires
            offset_valid_spec(offset as int, 2, self.io_maxsize() as int),
    ;

    /// Writes a `u16` at an `offset` that is valid for the region's minimum size `SIZE`.
    fn write16_relaxed(&self, value: u16, offset: usize)
        requires
            offset_valid_spec(offset as int, 2, SIZE as int),
        ensures
            call_ensures(Self::write16_relaxed_unchecked, (self, value, offset), ()),
    {
        proof {
            self.lemma_size_within_maxsize();
            lemma_offset_valid_grows(offset as int, 2, SIZE as int, self.io_maxsize() as int);
        }
        self.write16_relaxed_unchecked(value, offset)
    }

    /// Writes a `u16` at `offset`, failing with `EINVAL` when the access does not
    /// fit in the region or is misaligned; on success the value has been handed to the
    /// unchecked write at `offset`.
    fn try_write16_relaxed(&self, value: u16, offset: usize) -> (r: Result<(), Error>)
        ensures
            r is Err <==> !offset_valid_spec(offset as int, 2, self.io_maxsize() as int),
            r is Err ==> r == Err::<(), Error>(EINVAL),
            r is Ok ==> call_ensures(Self::write16_relaxed_unchecked, (self, value, offset), ()),
    {
        if !offset_valid::<u16>(offset, self.maxsize()) {
            return Err(EINVAL);
        }
        self.write16_relaxed_unchecked(value, offset);
        Ok(())
    }

    /// Writes a `u32` at `offset`, without bounds checks. The offset is relative to the
    /// base address of `self`; it must be valid for `self`.
    fn write32_relaxed_unchecked(&self, value: u32, offset: usize)
        requires
            offset_valid_spec(offset as int, 4, self.io_maxsize() as int),
    ;

    /// Writes a `u32` at an `offset` that is valid for the region's minimum size `SIZE`.
    fn write32_relaxed(&self, value: u32, offset: usize)
        requires
            offset_valid_spec(offset as int, 4, SIZE as int),
        ensures
            call_ensures(Self::write32_relaxed_unchecked, (self, value, offset), ()),
    {
        proof {
            self.lemma_size_within_maxsize();
            lemma_offset_valid_grows(offset as int, 4, SIZE as int, self.io_maxsize() as int);
        }
        self.write32_relaxed_unchecked(value, offset)
    }

    /// Writes a `u32` at `offset`, failing with `EINVAL` when the access does not
    /// fit in the region or is misaligned; on success the value has been handed to the
    /// unchecked write at `offset`.
    fn try_write32_relaxed(&self, value: u32, offset: usize) -> (r: Result<(), Error>)
        ensures
            r is Err <==> !offset_valid_spec(offset as int, 4, self.io_maxsize() as int),
            r is Err ==> r == Err::<(), Error>(EINVAL),
            r is Ok ==> call_ensures(Self::write32_relaxed_unchecked, (self, value, offset), ()),
    {
        if !offset_valid::<u32>(offset, self.maxsize()) {
            return Err(EINVAL);
        }
        self.write32_relaxed_unchecked(value, offset);
        Ok(())
    }
}

/// The 64-bit accessors of [`IoAccessRelaxed`].
pub trait IoAccess64Relaxed<const SIZE: usize>: IoAccess<SIZE> {
    /// Reads a `u64` at `offset`, without bounds checks. The offset is relative to the
    /// base address of `self`; it must be valid for `self`.
    fn read64_relaxed_unchecked(&self, offset: usize) -> u64
        requires
            offset_valid_spec(offset as int, 8, self.io_maxsize() as int),
    ;

    /// Reads a `u64` at an `offset` that is valid for the region's minimum size `SIZE`.
    fn read64_relaxed(&self, offset: usize) -> (r: u64)
        requires
            offset_valid_spec(offset as int, 8, SIZE as int),
        ensures
            call_ensures(Self::read64_relaxed_unchecked, (self, offset), r),
    {
        proof {
            self.lemma_size_within_maxsize();
            lemma_offset_valid_grows(offset as int, 8, SIZE as int, self.io_maxsize() as int);
        }
        self.read64_relaxed_unchecked(offset)
    }

    /// Reads a `u64` at `offset`, failing with `EINVAL` when the access does not fit
    /// in the region or is misaligned.
    fn try_read64_relaxed(&self, offset: usize) -> (r: Result<u64, Error>)
        ensures
            r is Err <==> !offset_valid_spec(offset as int, 8, self.io_maxsize() as int),
            r is Err ==> r == Err::<u64, Error>(EINVAL),
            r matches Ok(v) ==> call_ensures(Self::read64_relaxed_unchecked, (self, offset), v),
    {
        if !offset_valid::<u64>(offset, self.maxsize()) {
            return Err(EINVAL);
        }
        Ok(self.read64_relaxed_unchecked(offset))
    }

    /// Writes a `u64` at `offset`, without bounds checks. The offset is relative to the
    /// base address of `self`; it must be valid for `self`.
    fn write64_relaxed_unchecked(&self, value: u64, offset: usize)
        requires
            offset_valid_spec(offset as int, 8, self.io_maxsize() as int),
    ;

    /// Writes a `u64` at an `offset` that is valid for the region's minimum size `SIZE`.
    fn write64_relaxed(&self, value: u64, offset: usize)
        requires
            offset_valid_spec(offset as int, 8, SIZE as int),
        ensures
            call_ensures(Self::write64_relaxed_unchecked, (self, value, offset), ()),
    {
        proof {
            self.lemma_size_within_maxsize();
            lemma_offset_valid_grows(offset as int, 8, SIZE as int, self.io_maxsize() as int);
        }
        self.write64_relaxed_unchecked(value, offset)
    }

    /// Writes a `u64` at `offset`, failing with `EINVAL` when the access does not
    /// fit in the region or is misaligned; on success the value has been handed to the
    /// unchecked write at `offset`.
    fn try_write64_relaxed(&self, value: u64, offset: usize) -> (r: Result<(), Error>)
        ensures
            r is Err <==> !offset_valid_spec(offset as int, 8, self.io_maxsize() as int),
            r is Err ==> r == Err::<(), Error>(EINVAL),
            r is Ok ==> call_ensures(Self::write64_relaxed_unchecked, (self, value, offset), ()),
    {
        if !offset_valid::<u64>(offset, self.maxsize()) {
            return Err(EINVAL);
        }
        self.write64_relaxed_unchecked(value, offset);
        Ok(())
    }
}

} // verus!
