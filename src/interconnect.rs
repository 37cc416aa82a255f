use crate::rom::{ConfigurationError, Rom, MAX_ROM_SIZE};
use vstd::prelude::*;

verus! {

/// Physical addresses are 27 bits wide; higher bits are discarded.
pub const ADDRESS_MASK: u32 = 0x07ff_ffff;

/// One past the last physical address.
pub const ADDRESS_SPACE_END: u32 = 0x0800_0000;

/// Where the program image is mapped (up to the end of the address space).
pub const ROM_START: u32 = 0x0700_0000;

/// A bus access that no region can serve. Each carries the failing address,
/// with the bits above bit 26 discarded.
#[derive(PartialEq, Eq, Structural, Clone, Copy, Debug)]
pub enum BusError {
    UnmappedRead(u32),
    UnmappedWrite(u32),
    ReadOnlyWrite(u32),
}

/// What a memory region is, as the bus sees it.
pub struct RegionModel {
    /// First address of the window the region answers for.
    pub start: u32,
    /// One past the last address of the window.
    pub end: u32,
    /// The backing store; the window mirrors it.
    pub data: Seq<u8>,
    pub writable: bool,
}

/// A window of the address space backed by a byte store whose size is a
/// power of two, so that the store repeats across the window.
pub struct MemoryRegion {
    start: u32,
    end: u32,
    data: Vec<u8>,
    writable: bool,
}

impl View for MemoryRegion {
    type V = RegionModel;

    closed spec fn view(&self) -> RegionModel {
        RegionModel { start: self.start, end: self.end, data: self.data@, writable: self.writable }
    }
}

pub open spec fn is_pow2(n: u32) -> bool {
    n > 0 && n & ((n - 1) as u32) == 0
}

pub open spec fn region_wf(r: RegionModel) -> bool {
    &&& r.start < r.end <= ADDRESS_SPACE_END
    &&& 0 < r.data.len() <= MAX_ROM_SIZE
    &&& is_pow2(r.data.len() as u32)
}

/// Where address `a` falls in the region's store: the store is mirrored by
/// masking with its size less one.
pub open spec fn offset_in(r: RegionModel, a: u32) -> int {
    (a & ((r.data.len() - 1) as u32)) as int
}

pub open spec fn in_window(r: RegionModel, a: u32) -> bool {
    r.start <= a < r.end
}

/// The first region at or after index `i` whose window holds `a`.
pub open spec fn first_region_from(regs: Seq<RegionModel>, a: u32, i: int) -> Option<int>
    decreases regs.len() - i,
{
    if i < 0 || i >= regs.len() {
        None
    } else if in_window(regs[i], a) {
        Some(i)
    } else {
        first_region_from(regs, a, i + 1)
    }
}

/// The region that serves address `a` (already reduced to 27 bits).
pub open spec fn resolve_spec(regs: Seq<RegionModel>, a: u32) -> Option<int> {
    first_region_from(regs, a, 0)
}

pub open spec fn read_byte_spec(regs: Seq<RegionModel>, addr: u32) -> Result<u8, BusError> {
    let a = addr & ADDRESS_MASK;
    match resolve_spec(regs, a) {
        None => Err(BusError::UnmappedRead(a)),
        Some(i) => Ok(regs[i].data[offset_in(regs[i], a)]),
    }
}

/// The halfword at `addr` with its low bit cleared, low byte first.
pub open spec fn read_halfword_spec(regs: Seq<RegionModel>, addr: u32) -> Result<u16, BusError> {
    let a = addr & 0x07ff_fffe;
    match read_byte_spec(regs, a) {
        Err(e) => Err(e),
        Ok(lo) => match read_byte_spec(regs, (a + 1) as u32) {
            Err(e) => Err(e),
            Ok(hi) => Ok((hi as int * 256 + lo as int) as u16),
        },
    }
}

pub open spec fn write_byte_spec(regs: Seq<RegionModel>, addr: u32, v: u8) -> Result<
    Seq<RegionModel>,
    BusError,
> {
    let a = addr & ADDRESS_MASK;
    match resolve_spec(regs, a) {
        None => Err(BusError::UnmappedWrite(a)),
        Some(i) => if !regs[i].writable {
            Err(BusError::ReadOnlyWrite(a))
        } else {
            Ok(
                regs.update(
                    i,
                    RegionModel { data: regs[i].data.update(offset_in(regs[i], a), v), ..regs[i] },
                ),
            )
        },
    }
}

/// Byte `k` (0 = least significant) of a word.
pub open spec fn byte_of(v: u32, k: nat) -> u8 {
    ((v as nat / pow256(k)) % 256) as u8
}

pub open spec fn pow256(k: nat) -> nat
    decreases k,
{
    if k == 0 {
        1
    } else {
        256 * pow256((k - 1) as nat)
    }
}

/// A word store: the word-aligned address is resolved, and the four bytes go
/// low byte first to the following addresses, mirrored within the region.
pub open spec fn write_word_spec(regs: Seq<RegionModel>, addr: u32, v: u32) -> Result<
    Seq<RegionModel>,
    BusError,
> {
    let a = addr & 0x07ff_fffc;
    match resolve_spec(regs, a) {
        None => Err(BusError::UnmappedWrite(a)),
        Some(i) => if !regs[i].writable {
            Err(BusError::ReadOnlyWrite(a))
        } else {
            let r = regs[i];
            let d = r.data.update(offset_in(r, a), byte_of(v, 0)).update(
                offset_in(r, (a + 1) as u32),
                byte_of(v, 1),
            ).update(offset_in(r, (a + 2) as u32), byte_of(v, 2)).update(
                offset_in(r, (a + 3) as u32),
                byte_of(v, 3),
            );
            Ok(regs.update(i, RegionModel { data: d, ..r }))
        },
    }
}

proof fn lemma_bytes_of(v: u32)
    ensures
        v as u8 == byte_of(v, 0),
        (v >> 8u32) as u8 == byte_of(v, 1),
        (v >> 16u32) as u8 == byte_of(v, 2),
        (v >> 24u32) as u8 == byte_of(v, 3),
{
    reveal_with_fuel(pow256, 4);
    assert(v as u8 == v % 256) by (bit_vector);
    assert(pow256(0) == 1);
    assert(v as nat / 1 == v as nat);
    assert((v >> 8u32) as u8 == (v / 256) % 256) by (bit_vector);
    assert((v >> 16u32) as u8 == (v / 65536) % 256) by (bit_vector);
    assert((v >> 24u32) as u8 == (v / 16777216) % 256) by (bit_vector);
}

proof fn lemma_offset_in_range(r: RegionModel, a: u32)
    requires
        region_wf(r),
    ensures
        0 <= offset_in(r, a) < r.data.len(),
{
    let m = (r.data.len() - 1) as u32;
    assert(a & m <= m) by (bit_vector);
}

impl MemoryRegion {
    /// A region answering for `start..end`, backed by `data`.
    pub fn new(start: u32, end: u32, data: Vec<u8>, writable: bool) -> (r: Result<
        MemoryRegion,
        ConfigurationError,
    >)
        ensures
            data@.len() == 0 ==> r == Err::<MemoryRegion, _>(ConfigurationError::EmptyRegion),
            0 < data@.len() > MAX_ROM_SIZE ==> r == Err::<MemoryRegion, _>(
                ConfigurationError::TooLarge(data@.len() as usize),
            ),
            0 < data@.len() <= MAX_ROM_SIZE && !is_pow2(data@.len() as u32) ==> r == Err::<
                MemoryRegion,
                _,
            >(ConfigurationError::SizeNotPowerOfTwo(data@.len() as usize)),
            0 < data@.len() <= MAX_ROM_SIZE && is_pow2(data@.len() as u32) && !(start < end
                <= ADDRESS_SPACE_END) ==> r == Err::<MemoryRegion, _>(
                ConfigurationError::BadWindow(start, end),
            ),
            r.is_ok() <==> region_wf(RegionModel { start, end, data: data@, writable }),
            r.is_ok() ==> r.unwrap()@ == (RegionModel { start, end, data: data@, writable }),
    {
        let n = data.len();
        if n == 0 {
            return Err(ConfigurationError::EmptyRegion);
        }
        if n > MAX_ROM_SIZE {
            return Err(ConfigurationError::TooLarge(n));
        }
        let n32 = n as u32;
        if n32 & (n32 - 1) != 0 {
            return Err(ConfigurationError::SizeNotPowerOfTwo(n));
        }
        if !(start < end && end <= ADDRESS_SPACE_END) {
            return Err(ConfigurationError::BadWindow(start, end));
        }
        Ok(MemoryRegion { start, end, data, writable })
    }
}

/// The address bus: an ordered list of regions, the first match serving.
pub struct Interconnect {
    regions: Vec<MemoryRegion>,
}

impl View for Interconnect {
    type V = Seq<RegionModel>;

    closed spec fn view(&self) -> Seq<RegionModel> {
        self.regions@.map_values(|r: MemoryRegion| r@)
    }
}

/// The region that maps a program image.
pub open spec fn rom_region(bytes: Seq<u8>) -> RegionModel {
    RegionModel { start: ROM_START, end: ADDRESS_SPACE_END, data: bytes, writable: false }
}

impl Interconnect {
    /// What `new` gives for an image: the single read-only region, or the
    /// reason the image cannot back one.
    pub open spec fn new_result(bytes: Seq<u8>) -> Result<Seq<RegionModel>, ConfigurationError> {
        if bytes.len() == 0 {
            Err(ConfigurationError::EmptyRegion)
        } else if bytes.len() > MAX_ROM_SIZE {
            Err(ConfigurationError::TooLarge(bytes.len() as usize))
        } else if !is_pow2(bytes.len() as u32) {
            Err(ConfigurationError::SizeNotPowerOfTwo(bytes.len() as usize))
        } else {
            Ok(seq![rom_region(bytes)])
        }
    }

    pub open spec fn wf(&self) -> bool {
        forall|i: int| 0 <= i < self@.len() ==> region_wf(#[trigger] self@[i])
    }

    /// A bus with the program image mapped read-only at `ROM_START` and
    /// mirrored up to the end of the address space. The image must be
    /// non-empty and its size a power of two.
    pub fn new(rom: Rom) -> (r: Result<Interconnect, ConfigurationError>)
        ensures
            match Self::new_result(rom@) {
                Err(e) => r == Err::<Interconnect, ConfigurationError>(e),
                Ok(regions) => r.is_ok() && r.unwrap().wf() && r.unwrap()@ == regions,
            },
    {
        let region = MemoryRegion::new(ROM_START, ADDRESS_SPACE_END, rom.into_bytes(), false);
        match region {
            Err(e) => Err(e),
            Ok(region) => {
                let mut regions: Vec<MemoryRegion> = Vec::new();
                regions.push(region);
                let bus = Interconnect { regions };
                assert(bus@ =~= seq![rom_region(rom@)]);
                Ok(bus)
            },
        }
    }

    /// Maps one more region; it serves only addresses that no earlier region holds.
    pub fn map_region(&mut self, region: MemoryRegion)
        requires
            old(self).wf(),
            region_wf(region@),
        ensures
            final(self).wf(),
            final(self)@ == old(self)@.push(region@),
    {
        self.regions.push(region);
        assert(self@ =~= old(self)@.push(region@));
    }

    /// The index of the region that serves `a`.
    fn resolve(&self, a: u32) -> (r: Option<usize>)
        ensures
            r.is_some() ==> r.unwrap() < self@.len() && r.unwrap() < self.regions@.len(),
            r.is_some() <==> resolve_spec(self@, a).is_some(),
            r.is_some() ==> resolve_spec(self@, a) == Some(r.unwrap() as int),
    {
        let n = self.regions.len();
        let mut i: usize = 0;
        while i < n
            invariant
                i <= n,
                n == self@.len(),
                resolve_spec(self@, a) == first_region_from(self@, a, i as int),
            decreases n - i,
        {
            let region = &self.regions[i];
            assert(self@.len() == self.regions@.len());
            assert(region@ == self@[i as int]);
            if region.start <= a && a < region.end {
                return Some(i);
            }
            i = i + 1;
        }
        None
    }

    pub fn read_byte(&self, addr: u32) -> (r: Result<u8, BusError>)
        requires
            self.wf(),
        ensures
            r == read_byte_spec(self@, addr),
    {
        let a = addr & ADDRESS_MASK;
        match self.resolve(a) {
            None => Err(BusError::UnmappedRead(a)),
            Some(i) => {
                let region = &self.regions[i];
                assert(region@ == self@[i as int]);
                assert(region_wf(self@[i as int]));
                proof {
                    lemma_offset_in_range(region@, a);
                }
                let mask = (region.data.len() - 1) as u32;
                let offset = a & mask;
                assert(region@.data == region.data@);
                assert(offset as int == offset_in(self@[i as int], a));
                Ok(region.data[offset as usize])
            },
        }
    }

    pub fn read_halfword(&self, addr: u32) -> (r: Result<u16, BusError>)
        requires
            self.wf(),
        ensures
            r == read_halfword_spec(self@, addr),
    {
        let a = addr & 0x07ff_fffe;
        assert(addr & 0x07ff_fffe <= 0x07ff_fffe) by (bit_vector);
        let low_byte = self.read_byte(a)?;
        let high_byte = self.read_byte(a + 1)?;
        let r = ((high_byte as u16) << 8u16) | (low_byte as u16);
        assert(((high_byte as u16) << 8u16) | (low_byte as u16) == high_byte as u16 * 256
            + low_byte as u16) by (bit_vector);
        Ok(r)
    }

    /// Replaces byte `offset` of region `i`'s store.
    fn set_region_byte(&mut self, i: usize, offset: u32, v: u8)
        requires
            old(self).wf(),
            i < old(self)@.len(),
            offset < old(self)@[i as int].data.len(),
        ensures
            final(self).wf(),
            final(self)@ == old(self)@.update(
                i as int,
                RegionModel {
                    data: old(self)@[i as int].data.update(offset as int, v),
                    ..old(self)@[i as int]
                },
            ),
    {
        assert(self@.len() == self.regions@.len());
        assert(self.regions@[i as int]@ == self@[i as int]);
        let mut region = self.regions.remove(i);
        region.data.set(offset as usize, v);
        self.regions.insert(i, region);
        let ghost target = RegionModel {
            data: old(self)@[i as int].data.update(offset as int, v),
            ..old(self)@[i as int]
        };
        assert(region@ == target);
        assert(self.regions@ =~= old(self).regions@.update(i as int, region));
        assert(self@ =~= old(self)@.update(i as int, target));
        assert forall|j: int| 0 <= j < self@.len() implies region_wf(#[trigger] self@[j]) by {
            if j != i {
                assert(self@[j] == old(self)@[j]);
            }
        }
    }

    /// Stores a byte; fails on an unmapped or read-only address and then
    /// changes nothing.
    pub fn write_byte(&mut self, addr: u32, value: u8) -> (r: Result<(), BusError>)
        requires
            old(self).wf(),
        ensures
            final(self).wf(),
            match write_byte_spec(old(self)@, addr, value) {
                Ok(regs) => r.is_ok() && final(self)@ == regs,
                Err(e) => r == Err::<(), BusError>(e) && final(self)@ == old(self)@,
            },
    {
        let a = addr & ADDRESS_MASK;
        match self.resolve(a) {
            None => Err(BusError::UnmappedWrite(a)),
            Some(i) => {
                let region = &self.regions[i];
                assert(region@ == self@[i as int]);
                assert(region_wf(self@[i as int]));
                if !region.writable {
                    return Err(BusError::ReadOnlyWrite(a));
                }
                proof {
                    lemma_offset_in_range(region@, a);
                }
                let mask = (region.data.len() - 1) as u32;
                let offset = a & mask;
                self.set_region_byte(i, offset, value);
                Ok(())
            },
        }
    }

    /// Stores a word at the word-aligned address, low byte first; fails on an
    /// unmapped or read-only address and then changes nothing.
    pub fn write_word(&mut self, addr: u32, value: u32) -> (r: Result<(), BusError>)
        requires
            old(self).wf(),
        ensures
            final(self).wf(),
            match write_word_spec(old(self)@, addr, value) {
                Ok(regs) => r.is_ok() && final(self)@ == regs,
                Err(e) => r == Err::<(), BusError>(e) && final(self)@ == old(self)@,
            },
    {
        let a = addr & 0x07ff_fffc;
        assert(addr & 0x07ff_fffc <= 0x07ff_fffc) by (bit_vector);
        match self.resolve(a) {
            None => Err(BusError::UnmappedWrite(a)),
            Some(i) => {
                let region = &self.regions[i];
                assert(region@ == self@[i as int]);
                assert(region_wf(self@[i as int]));
                if !region.writable {
                    return Err(BusError::ReadOnlyWrite(a));
                }
                let ghost r0 = self@[i as int];
                proof {
                    lemma_offset_in_range(r0, a);
                    lemma_offset_in_range(r0, (a + 1) as u32);
                    lemma_offset_in_range(r0, (a + 2) as u32);
                    lemma_offset_in_range(r0, (a + 3) as u32);
                    lemma_bytes_of(value);
                }
                let mask = (region.data.len() - 1) as u32;
                self.set_region_byte(i, a & mask, value as u8);
                self.set_region_byte(i, (a + 1) & mask, (value >> 8u32) as u8);
                self.set_region_byte(i, (a + 2) & mask, (value >> 16u32) as u8);
                self.set_region_byte(i, (a + 3) & mask, (value >> 24u32) as u8);
                assert(self@ =~= write_word_spec(old(self)@, addr, value).unwrap());
                Ok(())
            },
        }
    }
}

/// The program image repeats across its window: in a bus made from an image
/// whose size is a power of two, the bytes at `a` and `a + size` are the same
/// wherever both lie in the window.
pub proof fn lemma_rom_mirroring(bytes: Seq<u8>, a: u32)
    requires
        region_wf(rom_region(bytes)),
        ROM_START <= a,
        a + bytes.len() < ADDRESS_SPACE_END,
    ensures
        read_byte_spec(seq![rom_region(bytes)], a) == read_byte_spec(
            seq![rom_region(bytes)],
            (a + bytes.len()) as u32,
        ),
{
    let n = bytes.len() as u32;
    let b = (a + n) as u32;
    let m = (n - 1) as u32;
    assert(a < 0x0800_0000 ==> a & 0x07ff_ffff == a) by (bit_vector);
    assert(b < 0x0800_0000 ==> b & 0x07ff_ffff == b) by (bit_vector);
    assert(n > 0 && n & m == 0 && m == n - 1 && b == a + n && a + n < 0x0800_0000 ==> b & m == a & m)
        by (bit_vector);
    assert(resolve_spec(seq![rom_region(bytes)], a) == Some(0int));
    assert(resolve_spec(seq![rom_region(bytes)], b) == Some(0int));
}

} // verus!
