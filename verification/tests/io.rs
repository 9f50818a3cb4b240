use std::cell::RefCell;

use kernel::error::Error;
use kernel::io::offset_valid;
use kernel::io::IoAccess;
use kernel::io::IoAccess64;
use kernel::io::IoAccess64Relaxed;
use kernel::io::IoAccessRelaxed;
use kernel::io::IoRaw;
use kernel::io::MMIo;

#[test]
fn raw_with_size_zero_keeps_address_and_size() {
    let raw: IoRaw<0> = IoRaw::new(0xDEADBEEFC0DE, 8).unwrap();
    assert_eq!(raw.addr(), 0xDEADBEEFC0DE);
    assert_eq!(raw.maxsize(), 8);
}

#[test]
fn raw_with_size_equal_to_maxsize() {
    let raw: IoRaw<8> = IoRaw::new(0xDEADBEEFC0DE, 8).unwrap();
    assert_eq!(raw.addr(), 0xDEADBEEFC0DE);
    assert_eq!(raw.maxsize(), 8);
}

#[test]
fn raw_with_size_above_maxsize_is_refused() {
    let err = IoRaw::<16>::new(0xDEADBEEFC0DE, 8).unwrap_err();
    assert_eq!(err, Error::EINVAL);
    assert_eq!(err.to_errno(), -22);
}

#[test]
fn raw_with_zero_maxsize() {
    let raw = IoRaw::<0>::new(0x1000, 0).unwrap();
    assert_eq!(raw.maxsize(), 0);
    assert!(IoRaw::<1>::new(0x1000, 0).is_err());
}

#[test]
fn mmio_from_raw_keeps_the_region() {
    let raw = IoRaw::<2>::new(0xDEADBEEFC0DE, 2).unwrap();
    let mmio: MMIo<2> = MMIo::from_raw(raw);
    assert_eq!(raw.addr(), mmio.addr());
    assert_eq!(raw.maxsize(), mmio.maxsize());
}

#[test]
fn mmio_from_raw_ref_keeps_the_region() {
    let raw = IoRaw::<2>::new(0xDEADBEEFC0DE, 2).unwrap();
    let mmio: MMIo<2> = MMIo::from_raw_ref(&raw);
    assert_eq!(raw.addr(), mmio.addr());
    assert_eq!(raw.maxsize(), mmio.maxsize());
}

#[test]
fn offset_valid_checks_bounds_and_alignment() {
    assert!(offset_valid::<u8>(7, 8));
    assert!(!offset_valid::<u8>(8, 8));
    assert!(offset_valid::<u16>(6, 8));
    assert!(!offset_valid::<u16>(1, 8));
    assert!(offset_valid::<u32>(4, 8));
    assert!(!offset_valid::<u32>(8, 8));
    assert!(!offset_valid::<u32>(6, 8));
    assert!(offset_valid::<u64>(0, 8));
    assert!(!offset_valid::<u64>(0, 7));
    assert!(!offset_valid::<u64>(8, 8));
}

#[test]
fn offset_valid_does_not_overflow() {
    assert!(!offset_valid::<u64>(usize::MAX - 7, usize::MAX));
    assert!(!offset_valid::<u8>(usize::MAX, usize::MAX));
    assert!(offset_valid::<u8>(usize::MAX - 1, usize::MAX));
}

/// A register file held in memory, standing in for a device.
struct FakeIo {
    regs: RefCell<Vec<u8>>,
}

impl FakeIo {
    fn new(len: usize) -> Self {
        FakeIo { regs: RefCell::new(vec![0u8; len]) }
    }
    fn load(&self, offset: usize, n: usize) -> u64 {
        let regs = self.regs.borrow();
        let mut v: u64 = 0;
        for i in (0..n).rev() {
            v = (v << 8) | regs[offset + i] as u64;
        }
        v
    }
    fn store(&self, offset: usize, n: usize, value: u64) {
        let mut regs = self.regs.borrow_mut();
        for i in 0..n {
            regs[offset + i] = (value >> (8 * i)) as u8;
        }
    }
}

impl IoAccess<4> for FakeIo {
    fn io_maxsize(&self) -> usize {
        self.regs.borrow().len()
    }
    fn io_addr(&self) -> usize {
        0x1000
    }
    fn lemma_size_within_maxsize(&self) {}
    fn maxsize(&self) -> usize {
        self.regs.borrow().len()
    }
    fn addr(&self) -> usize {
        0x1000
    }
    fn read8_unchecked(&self, offset: usize) -> u8 {
        self.load(offset, 1) as u8
    }
    fn read16_unchecked(&self, offset: usize) -> u16 {
        self.load(offset, 2) as u16
    }
    fn read32_unchecked(&self, offset: usize) -> u32 {
        self.load(offset, 4) as u32
    }
    fn write8_unchecked(&self, value: u8, offset: usize) {
        self.store(offset, 1, value as u64)
    }
    fn write16_unchecked(&self, value: u16, offset: usize) {
        self.store(offset, 2, value as u64)
    }
    fn write32_unchecked(&self, value: u32, offset: usize) {
        self.store(offset, 4, value as u64)
    }
}

impl IoAccess64<4> for FakeIo {
    fn read64_unchecked(&self, offset: usize) -> u64 {
        self.load(offset, 8)
    }
    fn write64_unchecked(&self, value: u64, offset: usize) {
        self.store(offset, 8, value)
    }
}

impl IoAccessRelaxed<4> for FakeIo {
    fn read8_relaxed_unchecked(&self, offset: usize) -> u8 {
        self.load(offset, 1) as u8
    }
    fn read16_relaxed_unchecked(&self, offset: usize) -> u16 {
        self.load(offset, 2) as u16
    }
    fn read32_relaxed_unchecked(&self, offset: usize) -> u32 {
        self.load(offset, 4) as u32
    }
    fn write8_relaxed_unchecked(&self, value: u8, offset: usize) {
        self.store(offset, 1, value as u64)
    }
    fn write16_relaxed_unchecked(&self, value: u16, offset: usize) {
        self.store(offset, 2, value as u64)
    }
    fn write32_relaxed_unchecked(&self, value: u32, offset: usize) {
        self.store(offset, 4, value as u64)
    }
}

impl IoAccess64Relaxed<4> for FakeIo {
    fn read64_relaxed_unchecked(&self, offset: usize) -> u64 {
        self.load(offset, 8)
    }
    fn write64_relaxed_unchecked(&self, value: u64, offset: usize) {
        self.store(offset, 8, value)
    }
}

#[test]
fn checked_accessors_within_the_minimum_size() {
    let io = FakeIo::new(16);
    io.write32(0xAABBCCDD, 0);
    assert_eq!(io.read32(0), 0xAABBCCDD);
    assert_eq!(io.read8(0), 0xDD);
    assert_eq!(io.read8(3), 0xAA);
    assert_eq!(io.read16(2), 0xAABB);
    io.write8(0x11, 1);
    io.write16(0x2233, 2);
    assert_eq!(io.read32(0), 0x223311DD);
}

#[test]
fn try_read_refuses_out_of_range_and_misaligned_offsets() {
    let io = FakeIo::new(16);
    io.store(12, 4, 0x01020304);
    assert_eq!(io.try_read32(12), Ok(0x01020304));
    assert_eq!(io.try_read32(13), Err(Error::EINVAL));
    assert_eq!(io.try_read32(16), Err(Error::EINVAL));
    assert_eq!(io.try_read16(15), Err(Error::EINVAL));
    assert_eq!(io.try_read16(14), Ok(0x0102));
    assert_eq!(io.try_read8(15), Ok(0x01));
    assert_eq!(io.try_read8(16), Err(Error::EINVAL));
    assert_eq!(io.try_read8(usize::MAX), Err(Error::EINVAL));
}

#[test]
fn try_write_refuses_out_of_range_and_writes_nothing() {
    let io = FakeIo::new(8);
    assert_eq!(io.try_write32(0xFFFF_FFFF, 6), Err(Error::EINVAL));
    assert_eq!(io.try_write32(0xFFFF_FFFF, 8), Err(Error::EINVAL));
    assert_eq!(io.try_write16(0xFFFF, 7), Err(Error::EINVAL));
    assert_eq!(io.try_write8(0xFF, 8), Err(Error::EINVAL));
    assert_eq!(io.load(0, 8), 0);
    assert_eq!(io.try_write32(0x12345678, 4), Ok(()));
    assert_eq!(io.try_write16(0x9ABC, 2), Ok(()));
    assert_eq!(io.try_write8(0xDE, 1), Ok(()));
    assert_eq!(io.load(0, 8), 0x12345678_9ABC_DE00);
}

#[test]
fn accessors_of_64_bits() {
    let io = FakeIo::new(16);
    assert_eq!(io.try_write64(0x0102030405060708, 8), Ok(()));
    assert_eq!(io.try_read64(8), Ok(0x0102030405060708));
    assert_eq!(io.try_read64(4), Err(Error::EINVAL));
    assert_eq!(io.try_write64(1, 16), Err(Error::EINVAL));
    assert_eq!(io.try_read32(8), Ok(0x05060708));
}

#[test]
fn relaxed_accessors() {
    let io = FakeIo::new(16);
    io.write32_relaxed(0xCAFEBABE, 0);
    assert_eq!(io.read32_relaxed(0), 0xCAFEBABE);
    assert_eq!(io.read16_relaxed(2), 0xCAFE);
    assert_eq!(io.read8_relaxed(1), 0xBA);
    io.write16_relaxed(0x1234, 0);
    io.write8_relaxed(0x56, 3);
    assert_eq!(io.try_read32_relaxed(0), Ok(0x56FE1234));
    assert_eq!(io.try_read32_relaxed(2), Err(Error::EINVAL));
    assert_eq!(io.try_write16_relaxed(1, 15), Err(Error::EINVAL));
    assert_eq!(io.try_write8_relaxed(7, 15), Ok(()));
    assert_eq!(io.try_read8_relaxed(15), Ok(7));
    assert_eq!(io.try_read16_relaxed(14), Ok(0x0700));
    assert_eq!(io.try_write32_relaxed(9, 12), Ok(()));
    assert_eq!(io.try_read32_relaxed(12), Ok(9));
}

#[test]
fn relaxed_accessors_of_64_bits() {
    let io = FakeIo::new(8);
    assert_eq!(io.try_write64_relaxed(u64::MAX, 0), Ok(()));
    assert_eq!(io.try_read64_relaxed(0), Ok(u64::MAX));
    assert_eq!(io.try_read64_relaxed(8), Err(Error::EINVAL));
    assert_eq!(io.try_write64_relaxed(0, 1), Err(Error::EINVAL));
    assert_eq!(io.try_read64_relaxed(0), Ok(u64::MAX));
}

#[test]
fn error_codes() {
    assert_eq!(Error::EINVAL.to_errno(), -22);
    assert_eq!(Error::EEXIST.to_errno(), -17);
}

#[test]
fn new_from_a_region_gives_the_same_region() {
    let raw = IoRaw::<4>::new(0xFEED_0000, 64).unwrap();
    assert_eq!(IoRaw::<4>::new(raw.addr(), raw.maxsize()), Ok(raw));
}

#[test]
fn debug_string_of_raw_includes_size() {
    let raw = IoRaw::<8>::new(0xDEADBEEFC0DE, 8).unwrap();
    assert_eq!(
        raw.debug_string(),
        "IoRaw { SIZE: 8, addr: 244837814091998, maxsize: 8 }"
    );
    let raw0 = IoRaw::<0>::new(0, 0).unwrap();
    assert_eq!(raw0.debug_string(), "IoRaw { SIZE: 0, addr: 0, maxsize: 0 }");
}

#[test]
fn debug_string_of_mmio_wraps_the_raw_text() {
    let raw = IoRaw::<2>::new(1000, 2).unwrap();
    let mmio: MMIo<2> = MMIo::from_raw(raw);
    assert_eq!(mmio.debug_string(), "MMIo(IoRaw { SIZE: 2, addr: 1000, maxsize: 2 })");
    let big = IoRaw::<0>::new(usize::MAX, usize::MAX).unwrap();
    assert_eq!(
        MMIo::from_raw(big).debug_string(),
        format!("MMIo(IoRaw {{ SIZE: 0, addr: {}, maxsize: {} }})", usize::MAX, usize::MAX)
    );
}
