use crate::instruction::{
    cycles_spec,
    decode_spec,
    format_i,
    format_ii,
    format_spec,
    format_v,
    format_vi,
    has_second_spec,
    reg1_of,
    reg2_of,
    sign_extend16,
    sign_extend16_spec,
    sign_extend5_spec,
    sign_extend_imm5,
    opcode_bits_of,
    opcode_of_bits,
    DecodeError,
    Opcode,
};
use crate::interconnect::{
    read_halfword_spec,
    write_byte_spec,
    write_word_spec,
    BusError,
    Interconnect,
    RegionModel,
};
use vstd::prelude::*;

verus! {

/// The program counter after reset.
pub const RESET_VECTOR: u32 = 0xffff_fff0;

/// The program status word, flag by flag.
#[derive(PartialEq, Eq, Structural, Clone, Copy, Debug)]
pub struct StatusWord {
    pub zero: bool,
    pub sign: bool,
    pub overflow: bool,
    pub carry: bool,
    pub fp_precision_degradation: bool,
    pub fp_underflow: bool,
    pub fp_overflow: bool,
    pub fp_zero_division: bool,
    pub fp_invalid_operation: bool,
    pub fp_reserved_operand: bool,
    pub interrupt_disable: bool,
    pub address_trap_enable: bool,
    pub exception_pending: bool,
    pub nmi_pending: bool,
    /// Interrupt mask level; only its low four bits are kept in the packed word.
    pub interrupt_mask_level: u8,
}

/// The status word at power-on: only a non-maskable interrupt is pending.
pub open spec fn reset_status() -> StatusWord {
    StatusWord {
        zero: false,
        sign: false,
        overflow: false,
        carry: false,
        fp_precision_degradation: false,
        fp_underflow: false,
        fp_overflow: false,
        fp_zero_division: false,
        fp_invalid_operation: false,
        fp_reserved_operand: false,
        interrupt_disable: false,
        address_trap_enable: false,
        exception_pending: false,
        nmi_pending: true,
        interrupt_mask_level: 0,
    }
}

/// The weight `w` where flag `b` is set, else zero.
#[verifier::opaque]
pub open spec fn flag_bit(b: bool, w: int) -> int {
    if b {
        w
    } else {
        0
    }
}

/// The packed status word: flags at bits 0..9 and 12..15, mask level at 16..19.
pub open spec fn psw_bits(p: StatusWord) -> u32 {
    (flag_bit(p.zero, 0x1) + flag_bit(p.sign, 0x2) + flag_bit(p.overflow, 0x4) + flag_bit(
        p.carry,
        0x8,
    ) + flag_bit(p.fp_precision_degradation, 0x10) + flag_bit(p.fp_underflow, 0x20) + flag_bit(
        p.fp_overflow,
        0x40,
    ) + flag_bit(p.fp_zero_division, 0x80) + flag_bit(p.fp_invalid_operation, 0x100) + flag_bit(
        p.fp_reserved_operand,
        0x200,
    ) + flag_bit(p.interrupt_disable, 0x1000) + flag_bit(p.address_trap_enable, 0x2000)
        + flag_bit(p.exception_pending, 0x4000) + flag_bit(p.nmi_pending, 0x8000) + (
    p.interrupt_mask_level % 16) * 0x10000) as u32
}

fn flag_value(b: bool, w: u32) -> (r: u32)
    ensures
        r == flag_bit(b, w as int),
        r <= w,
{
    reveal(flag_bit);
    if b {
        w
    } else {
        0
    }
}

impl StatusWord {
    pub fn reset() -> (r: StatusWord)
        ensures
            r == reset_status(),
    {
        StatusWord {
            zero: false,
            sign: false,
            overflow: false,
            carry: false,
            fp_precision_degradation: false,
            fp_underflow: false,
            fp_overflow: false,
            fp_zero_division: false,
            fp_invalid_operation: false,
            fp_reserved_operand: false,
            interrupt_disable: false,
            address_trap_enable: false,
            exception_pending: false,
            nmi_pending: true,
            interrupt_mask_level: 0,
        }
    }

    /// Packs the flags into one 32-bit word.
    #[verifier::rlimit(50)]
    pub fn to_u32(&self) -> (r: u32)
        ensures
            r == psw_bits(*self),
    {
        let mut r: u32 = 0;
        let ghost mut sum: int = 0;
        r = r + flag_value(self.zero, 0x1);
        proof {
            sum = sum + flag_bit(self.zero, 0x1);
        }
        assert(r as int == sum && r < 0x1 * 2);
        r = r + flag_value(self.sign, 0x2);
        proof {
            sum = sum + flag_bit(self.sign, 0x2);
        }
        assert(r as int == sum && r < 0x2 * 2);
        r = r + flag_value(self.overflow, 0x4);
        proof {
            sum = sum + flag_bit(self.overflow, 0x4);
        }
        assert(r as int == sum && r < 0x4 * 2);
        r = r + flag_value(self.carry, 0x8);
        proof {
            sum = sum + flag_bit(self.carry, 0x8);
        }
        assert(r as int == sum && r < 0x8 * 2);
        r = r + flag_value(self.fp_precision_degradation, 0x10);
        proof {
            sum = sum + flag_bit(self.fp_precision_degradation, 0x10);
        }
        assert(r as int == sum && r < 0x10 * 2);
        r = r + flag_value(self.fp_underflow, 0x20);
        proof {
            sum = sum + flag_bit(self.fp_underflow, 0x20);
        }
        assert(r as int == sum && r < 0x20 * 2);
        r = r + flag_value(self.fp_overflow, 0x40);
        proof {
            sum = sum + flag_bit(self.fp_overflow, 0x40);
        }
        assert(r as int == sum && r < 0x40 * 2);
        r = r + flag_value(self.fp_zero_division, 0x80);
        proof {
            sum = sum + flag_bit(self.fp_zero_division, 0x80);
        }
        assert(r as int == sum && r < 0x80 * 2);
        r = r + flag_value(self.fp_invalid_operation, 0x100);
        proof {
            sum = sum + flag_bit(self.fp_invalid_operation, 0x100);
        }
        assert(r as int == sum && r < 0x100 * 2);
        r = r + flag_value(self.fp_reserved_operand, 0x200);
        proof {
            sum = sum + flag_bit(self.fp_reserved_operand, 0x200);
        }
        assert(r as int == sum && r < 0x200 * 2);
        r = r + flag_value(self.interrupt_disable, 0x1000);
        proof {
            sum = sum + flag_bit(self.interrupt_disable, 0x1000);
        }
        assert(r as int == sum && r < 0x1000 * 2);
        r = r + flag_value(self.address_trap_enable, 0x2000);
        proof {
            sum = sum + flag_bit(self.address_trap_enable, 0x2000);
        }
        assert(r as int == sum && r < 0x2000 * 2);
        r = r + flag_value(self.exception_pending, 0x4000);
        proof {
            sum = sum + flag_bit(self.exception_pending, 0x4000);
        }
        assert(r as int == sum && r < 0x4000 * 2);
        r = r + flag_value(self.nmi_pending, 0x8000);
        proof {
            sum = sum + flag_bit(self.nmi_pending, 0x8000);
        }
        assert(r as int == sum && r < 0x8000 * 2);
        let level = ((self.interrupt_mask_level % 16) as u32) * 0x10000;
        r + level
    }
}

/// A step that could not complete.
#[derive(PartialEq, Eq, Structural, Clone, Copy, Debug)]
pub enum CoreError {
    Decode(DecodeError),
    Bus(BusError),
}

/// The processor's state: program counter, the 32 general registers as read
/// (index 0 reads as zero), the status word, and the cycles spent.
pub struct CpuState {
    pub pc: u32,
    pub regs: Seq<u32>,
    pub psw: StatusWord,
    pub cycles: nat,
}

/// The NVC processor core.
pub struct Nvc {
    reg_pc: u32,
    reg_gpr: Vec<u32>,
    psw: StatusWord,
    cycles: u64,
}

impl View for Nvc {
    type V = CpuState;

    closed spec fn view(&self) -> CpuState {
        CpuState {
            pc: self.reg_pc,
            regs: seq![0u32] + self.reg_gpr@,
            psw: self.psw,
            cycles: self.cycles as nat,
        }
    }
}

pub open spec fn add32(a: u32, b: u32) -> u32 {
    ((a as int + b as int) % 0x1_0000_0000) as u32
}

pub open spec fn sub32(a: u32, b: u32) -> u32 {
    ((a as int - b as int) % 0x1_0000_0000) as u32
}

/// A word read as a two's-complement signed value.
pub open spec fn signed(a: u32) -> int {
    if a < 0x8000_0000 {
        a as int
    } else {
        a as int - 0x1_0000_0000
    }
}

/// Whether `a - b` leaves the signed 32-bit range.
pub open spec fn sub_overflows(a: u32, b: u32) -> bool {
    !(-0x8000_0000 <= signed(a) - signed(b) < 0x8000_0000)
}

/// Register write with register 0 hardwired to zero.
pub open spec fn write_reg(regs: Seq<u32>, i: int, v: u32) -> Seq<u32> {
    if i == 0 {
        regs
    } else {
        regs.update(i, v)
    }
}

/// The status word after `a - b`: zero, sign, overflow and carry (borrow) set
/// from the result, the rest kept.
pub open spec fn sub_status(p: StatusWord, a: u32, b: u32) -> StatusWord {
    StatusWord {
        zero: sub32(a, b) == 0,
        sign: sub32(a, b) >= 0x8000_0000,
        overflow: sub_overflows(a, b),
        carry: a < b,
        ..p
    }
}

/// Bytes taken by an instruction.
pub open spec fn instruction_len(op: Opcode) -> u32 {
    if has_second_spec(format_spec(op)) {
        4
    } else {
        2
    }
}

/// Fetching and decoding the instruction at `pc`: the opcode, the first
/// halfword, and the second halfword (0 where the format has none).
pub open spec fn fetch_spec(bus: Seq<RegionModel>, pc: u32) -> Result<(Opcode, u16, u16), CoreError> {
    match read_halfword_spec(bus, pc) {
        Err(e) => Err(CoreError::Bus(e)),
        Ok(first) => match decode_spec(first) {
            Err(e) => Err(CoreError::Decode(e)),
            Ok(op) => if has_second_spec(format_spec(op)) {
                match read_halfword_spec(bus, add32(pc, 2)) {
                    Err(e) => Err(CoreError::Bus(e)),
                    Ok(second) => Ok((op, first, second)),
                }
            } else {
                Ok((op, first, 0))
            },
        },
    }
}

/// The effect of an instruction on the processor, `s` being the state with
/// the program counter already past the instruction. Stores leave it as is.
pub open spec fn execute_spec(op: Opcode, s: CpuState, first: u16, second: u16) -> CpuState {
    let reg1 = reg1_of(first) as int;
    let reg2 = reg2_of(first) as int;
    match op {
        Opcode::Jmp => CpuState { pc: s.regs[reg1], ..s },
        Opcode::MovImm => CpuState {
            regs: write_reg(s.regs, reg2, sign_extend5_spec(reg1_of(first))),
            ..s
        },
        Opcode::Sub => CpuState {
            regs: write_reg(s.regs, reg2, sub32(s.regs[reg2], s.regs[reg1])),
            psw: sub_status(s.psw, s.regs[reg2], s.regs[reg1]),
            ..s
        },
        Opcode::Movea => CpuState {
            regs: write_reg(s.regs, reg2, add32(s.regs[reg1], sign_extend16_spec(second))),
            ..s
        },
        Opcode::Movhi => CpuState {
            regs: write_reg(s.regs, reg2, add32(s.regs[reg1], (second as int * 65536) as u32)),
            ..s
        },
        Opcode::Stb | Opcode::Outw => s,
    }
}

/// The address a store goes to: `reg1` plus the sign-extended displacement.
pub open spec fn store_address(s: CpuState, first: u16, second: u16) -> u32 {
    add32(s.regs[reg1_of(first) as int], sign_extend16_spec(second))
}

/// The effect of an instruction on the bus.
pub open spec fn bus_effect(
    op: Opcode,
    s: CpuState,
    first: u16,
    second: u16,
    bus: Seq<RegionModel>,
) -> Result<Seq<RegionModel>, BusError> {
    let value = s.regs[reg2_of(first) as int];
    match op {
        Opcode::Stb => write_byte_spec(bus, store_address(s, first, second), (value % 256) as u8),
        Opcode::Outw => write_word_spec(bus, store_address(s, first, second), value),
        _ => Ok(bus),
    }
}

/// One fetch-decode-execute transition from `pre` on `bus` to `post` on
/// `bus_post`, with result `r`. A fetch or decode failure changes nothing; a
/// failed store leaves the program counter past the instruction and nothing
/// else changed.
pub open spec fn step_spec(
    pre: CpuState,
    bus: Seq<RegionModel>,
    post: CpuState,
    bus_post: Seq<RegionModel>,
    r: Result<(), CoreError>,
) -> bool {
    match fetch_spec(bus, pre.pc) {
        Err(e) => r == Err::<(), CoreError>(e) && post == pre && bus_post == bus,
        Ok((op, first, second)) => {
            let s = CpuState { pc: add32(pre.pc, instruction_len(op)), ..pre };
            match bus_effect(op, s, first, second, bus) {
                Err(e) => r == Err::<(), CoreError>(CoreError::Bus(e)) && post == s && bus_post
                    == bus,
                Ok(b) => r == Ok::<(), CoreError>(()) && bus_post == b && post == CpuState {
                    cycles: s.cycles + cycles_spec(op),
                    ..execute_spec(op, s, first, second)
                },
            }
        },
    }
}

/// The hardware's overflow test for `a - b`: operands of different signs and
/// a result whose sign differs from `a`'s.
proof fn lemma_sub_overflow_bits(a: u32, b: u32)
    ensures
        ((a ^ b) & !(b ^ sub32(a, b))) & 0x8000_0000 != 0 <==> sub_overflows(a, b),
{
    let res = sub32(a, b);
    assert(((a ^ b) & !(b ^ res)) & 0x8000_0000 != 0 <==> ((a >= 0x8000_0000) != (b
        >= 0x8000_0000) && (res >= 0x8000_0000) != (a >= 0x8000_0000))) by (bit_vector);
}

impl Nvc {
    pub closed spec fn wf(&self) -> bool {
        self.reg_gpr@.len() == 31
    }

    /// The power-on state: program counter at the reset vector, every
    /// register 0, only a non-maskable interrupt pending, no cycles spent.
    pub open spec fn reset_state() -> CpuState {
        CpuState { pc: RESET_VECTOR, regs: Seq::new(32, |i: int| 0u32), psw: reset_status(), cycles: 0 }
    }

    /// A core in its power-on state.
    pub fn new() -> (r: Nvc)
        ensures
            r.wf(),
            r@ == Self::reset_state(),
    {
        let mut reg_gpr: Vec<u32> = Vec::new();
        let mut i: usize = 0;
        while i < 31
            invariant
                i <= 31,
                reg_gpr@ == Seq::new(i as nat, |j: int| 0u32),
            decreases 31 - i,
        {
            reg_gpr.push(0);
            i = i + 1;
            assert(reg_gpr@ =~= Seq::new(i as nat, |j: int| 0u32));
        }
        let r = Nvc { reg_pc: RESET_VECTOR, reg_gpr, psw: StatusWord::reset(), cycles: 0 };
        assert(r@.regs =~= Seq::new(32, |i: int| 0u32));
        assert(r@ == Self::reset_state());
        r
    }

    pub fn reg_pc(&self) -> (r: u32)
        ensures
            r == self@.pc,
    {
        self.reg_pc
    }

    /// General register `index`; register 0 reads as zero.
    pub fn reg_gpr(&self, index: usize) -> (r: u32)
        requires
            self.wf(),
            index < 32,
        ensures
            r == self@.regs[index as int],
            index == 0 ==> r == 0,
    {
        if index == 0 {
            0
        } else {
            self.reg_gpr[index - 1]
        }
    }

    fn set_reg_gpr(&mut self, index: usize, value: u32)
        requires
            old(self).wf(),
            index < 32,
        ensures
            final(self).wf(),
            final(self)@ == (CpuState {
                regs: write_reg(old(self)@.regs, index as int, value),
                ..old(self)@
            }),
    {
        if index != 0 {
            self.reg_gpr.set(index - 1, value);
            assert(self@.regs =~= old(self)@.regs.update(index as int, value));
        }
    }

    /// The packed status word.
    pub fn reg_psw(&self) -> (r: u32)
        ensures
            r == psw_bits(self@.psw),
    {
        self.psw.to_u32()
    }

    /// The status word, flag by flag.
    pub fn status(&self) -> (r: StatusWord)
        ensures
            r == self@.psw,
    {
        self.psw
    }

    /// The cycles spent by the instructions executed so far.
    pub fn cycles(&self) -> (r: u64)
        ensures
            r == self@.cycles,
    {
        self.cycles
    }

    fn set_zero_sign_flags(&mut self, value: u32)
        ensures
            final(self).reg_pc == old(self).reg_pc,
            final(self).reg_gpr == old(self).reg_gpr,
            final(self).cycles == old(self).cycles,
            final(self).psw == (StatusWord {
                zero: value == 0,
                sign: value >= 0x8000_0000,
                ..old(self).psw
            }),
    {
        self.psw.zero = value == 0;
        self.psw.sign = value & 0x8000_0000 != 0;
        assert(value & 0x8000_0000 != 0 <==> value >= 0x8000_0000) by (bit_vector);
    }

    /// Reads and decodes the instruction at the program counter, changing nothing.
    fn fetch(&self, interconnect: &Interconnect) -> (r: Result<(Opcode, u16, u16), CoreError>)
        requires
            interconnect.wf(),
        ensures
            r == fetch_spec(interconnect@, self@.pc),
    {
        let first_halfword = match interconnect.read_halfword(self.reg_pc) {
            Ok(h) => h,
            Err(e) => return Err(CoreError::Bus(e)),
        };
        let opcode = match Opcode::from_halfword(first_halfword) {
            Ok(op) => op,
            Err(e) => return Err(CoreError::Decode(e)),
        };
        if opcode.instruction_format().has_second_halfword() {
            match interconnect.read_halfword(self.reg_pc.wrapping_add(2)) {
                Ok(second_halfword) => Ok((opcode, first_halfword, second_halfword)),
                Err(e) => Err(CoreError::Bus(e)),
            }
        } else {
            Ok((opcode, first_halfword, 0))
        }
    }

    /// Carries out a decoded instruction, the program counter being already past it.
    fn execute(
        &mut self,
        opcode: Opcode,
        first_halfword: u16,
        second_halfword: u16,
        interconnect: &mut Interconnect,
    ) -> (r: Result<(), BusError>)
        requires
            old(self).wf(),
            old(interconnect).wf(),
        ensures
            final(self).wf(),
            final(interconnect).wf(),
            final(self).cycles == old(self).cycles,
            match bus_effect(opcode, old(self)@, first_halfword, second_halfword, old(interconnect)@) {
                Err(e) => r == Err::<(), BusError>(e) && final(self)@ == old(self)@
                    && final(interconnect)@ == old(interconnect)@,
                Ok(b) => r.is_ok() && final(interconnect)@ == b && final(self)@ == execute_spec(
                    opcode,
                    old(self)@,
                    first_halfword,
                    second_halfword,
                ),
            },
    {
        match opcode {
            Opcode::Jmp => {
                self.execute_jmp(first_halfword);
                Ok(())
            },
            Opcode::MovImm => {
                self.execute_mov_imm(first_halfword);
                Ok(())
            },
            Opcode::Sub => {
                self.execute_sub(first_halfword);
                Ok(())
            },
            Opcode::Movea => {
                self.execute_movea(first_halfword, second_halfword);
                Ok(())
            },
            Opcode::Movhi => {
                self.execute_movhi(first_halfword, second_halfword);
                Ok(())
            },
            Opcode::Stb => self.execute_store(opcode, first_halfword, second_halfword, interconnect),
            Opcode::Outw => self.execute_store(opcode, first_halfword, second_halfword, interconnect),
        }
    }

    /// `pc <- reg1`.
    fn execute_jmp(&mut self, first_halfword: u16)
        requires
            old(self).wf(),
        ensures
            final(self).wf(),
            final(self).cycles == old(self).cycles,
            final(self)@ == execute_spec(Opcode::Jmp, old(self)@, first_halfword, 0),
    {
        let (reg1, _reg2) = format_i(first_halfword);
        self.reg_pc = self.reg_gpr(reg1);
    }

    /// `reg2 <- sign_extend(imm5)`.
    fn execute_mov_imm(&mut self, first_halfword: u16)
        requires
            old(self).wf(),
        ensures
            final(self).wf(),
            final(self).cycles == old(self).cycles,
            final(self)@ == execute_spec(Opcode::MovImm, old(self)@, first_halfword, 0),
    {
        let (imm5, reg2) = format_ii(first_halfword);
        let value = sign_extend_imm5(imm5);
        self.set_reg_gpr(reg2, value);
    }

    /// `reg2 <- reg1 + sign_extend(imm16)`.
    fn execute_movea(&mut self, first_halfword: u16, second_halfword: u16)
        requires
            old(self).wf(),
        ensures
            final(self).wf(),
            final(self).cycles == old(self).cycles,
            final(self)@ == execute_spec(Opcode::Movea, old(self)@, first_halfword, second_halfword),
    {
        let (reg1, reg2, imm16) = format_v(first_halfword, second_halfword);
        let res = self.reg_gpr(reg1).wrapping_add(sign_extend16(imm16));
        self.set_reg_gpr(reg2, res);
    }

    /// `reg2 <- reg1 + (imm16 << 16)`.
    fn execute_movhi(&mut self, first_halfword: u16, second_halfword: u16)
        requires
            old(self).wf(),
        ensures
            final(self).wf(),
            final(self).cycles == old(self).cycles,
            final(self)@ == execute_spec(Opcode::Movhi, old(self)@, first_halfword, second_halfword),
    {
        let (reg1, reg2, imm16) = format_v(first_halfword, second_halfword);
        let res = self.reg_gpr(reg1).wrapping_add((imm16 as u32) << 16u32);
        assert((imm16 as u32) << 16u32 == imm16 as u32 * 65536) by (bit_vector);
        self.set_reg_gpr(reg2, res);
    }

    /// `st.b` and `out.w`: store `reg2` (its low byte, or all of it) at
    /// `reg1 + sign_extend(disp16)`.
    fn execute_store(
        &self,
        opcode: Opcode,
        first_halfword: u16,
        second_halfword: u16,
        interconnect: &mut Interconnect,
    ) -> (r: Result<(), BusError>)
        requires
            self.wf(),
            old(interconnect).wf(),
            opcode == Opcode::Stb || opcode == Opcode::Outw,
        ensures
            final(interconnect).wf(),
            match bus_effect(opcode, self@, first_halfword, second_halfword, old(interconnect)@) {
                Err(e) => r == Err::<(), BusError>(e) && final(interconnect)@ == old(interconnect)@,
                Ok(b) => r.is_ok() && final(interconnect)@ == b,
            },
    {
        let (reg1, reg2, disp16) = format_vi(first_halfword, second_halfword);
        let addr = self.reg_gpr(reg1).wrapping_add(disp16);
        let word = self.reg_gpr(reg2);
        if opcode == Opcode::Stb {
            assert(word as u8 == (word % 256) as u8) by (bit_vector);
            interconnect.write_byte(addr, word as u8)
        } else {
            interconnect.write_word(addr, word)
        }
    }

    /// `reg2 <- reg2 - reg1`, setting zero, sign, overflow and carry.
    fn execute_sub(&mut self, first_halfword: u16)
        requires
            old(self).wf(),
        ensures
            final(self).wf(),
            final(self).cycles == old(self).cycles,
            final(self)@ == execute_spec(Opcode::Sub, old(self)@, first_halfword, 0),
    {
        let (reg1, reg2) = format_i(first_halfword);
        let lhs = self.reg_gpr(reg2);
        let rhs = self.reg_gpr(reg1);
        let res = lhs.wrapping_sub(rhs);
        let carry = lhs < rhs;
        self.set_reg_gpr(reg2, res);
        self.set_zero_sign_flags(res);
        self.psw.overflow = ((lhs ^ rhs) & !(rhs ^ res)) & 0x8000_0000 != 0;
        self.psw.carry = carry;
        proof {
            lemma_sub_overflow_bits(lhs, rhs);
        }
    }

    /// Runs one instruction: fetch at the program counter, decode, advance the
    /// program counter past it, execute, and count its cycles.
    pub fn step(&mut self, interconnect: &mut Interconnect) -> (r: Result<(), CoreError>)
        requires
            old(self).wf(),
            old(interconnect).wf(),
            old(self)@.cycles + 3 <= u64::MAX,
        ensures
            final(self).wf(),
            final(interconnect).wf(),
            step_spec(old(self)@, old(interconnect)@, final(self)@, final(interconnect)@, r),
    {
        let (opcode, first_halfword, second_halfword) = match self.fetch(interconnect) {
            Ok(t) => t,
            Err(e) => return Err(e),
        };
        if opcode.instruction_format().has_second_halfword() {
            self.reg_pc = self.reg_pc.wrapping_add(4);
        } else {
            self.reg_pc = self.reg_pc.wrapping_add(2);
        }
        if let Err(e) = self.execute(opcode, first_halfword, second_halfword, interconnect) {
            return Err(CoreError::Bus(e));
        }
        self.cycles = self.cycles + opcode.num_cycles() as u64;
        Ok(())
    }
}

/// Register 0 reads as zero in every well-formed core.
pub proof fn lemma_zero_register(cpu: &Nvc)
    requires
        cpu.wf(),
    ensures
        cpu@.regs.len() == 32,
        cpu@.regs[0] == 0,
{
}

/// A step keeps register 0 at zero, even when the instruction names it as
/// its destination; and the cycle count never goes down.
pub proof fn lemma_step_keeps_zero_register(
    pre: CpuState,
    bus: Seq<RegionModel>,
    post: CpuState,
    bus_post: Seq<RegionModel>,
    r: Result<(), CoreError>,
)
    requires
        pre.regs.len() == 32,
        pre.regs[0] == 0,
        step_spec(pre, bus, post, bus_post, r),
    ensures
        post.regs.len() == 32,
        post.regs[0] == 0,
        post.cycles >= pre.cycles,
{
    if let Ok((op, first, second)) = fetch_spec(bus, pre.pc) {
        lemma_fields_below_32(first);
    }
}

/// Subtraction stores `a - b` modulo 2^32 in `reg2` (where `reg2` is not
/// register 0), sets zero when the result is 0, sign from its bit 31, carry
/// when `a < b` unsigned, and overflow when the signed difference leaves the
/// signed 32-bit range; `a` is `reg2`'s value and `b` is `reg1`'s.
pub proof fn lemma_subtract(s: CpuState, first: u16)
    requires
        s.regs.len() == 32,
        s.regs[0] == 0,
    ensures
        ({
            let a = s.regs[reg2_of(first) as int];
            let b = s.regs[reg1_of(first) as int];
            let post = execute_spec(Opcode::Sub, s, first, 0);
            let res = (a as int - b as int) % 0x1_0000_0000;
            &&& reg2_of(first) != 0 ==> post.regs[reg2_of(first) as int] == res
            &&& post.psw.zero <==> res == 0
            &&& post.psw.sign <==> res >= 0x8000_0000
            &&& post.psw.carry <==> a < b
            &&& post.psw.overflow <==> !(-0x8000_0000 <= signed(a) - signed(b) < 0x8000_0000)
            &&& post.pc == s.pc
        }),
{
    lemma_fields_below_32(first);
}

proof fn lemma_fields_below_32(first: u16)
    ensures
        reg1_of(first) < 32,
        reg2_of(first) < 32,
{
    assert(first & 0x1f < 32) by (bit_vector);
    assert((first >> 5u16) & 0x1f < 32) by (bit_vector);
}

/// `movea` of a 16-bit `lo` onto a register holding 0, then `movhi` of `hi`
/// onto the result into the same register, leaves `(hi << 16) | lo` there.
/// `lo` must be below 0x8000: `movea` sign-extends it, so a `lo` with bit 15
/// set leaves `((hi - 1) << 16) | lo` instead.
pub proof fn lemma_movea_movhi(s: CpuState, movea_first: u16, movhi_first: u16, lo: u16, hi: u16)
    requires
        s.regs.len() == 32,
        s.regs[0] == 0,
        s.regs[reg1_of(movea_first) as int] == 0,
        reg2_of(movea_first) != 0,
        reg1_of(movhi_first) == reg2_of(movea_first),
        reg2_of(movhi_first) == reg2_of(movea_first),
        lo < 0x8000,
    ensures
        ({
            let s1 = execute_spec(Opcode::Movea, s, movea_first, lo);
            let s2 = execute_spec(Opcode::Movhi, s1, movhi_first, hi);
            s2.regs[reg2_of(movea_first) as int] == ((hi as u32) << 16u32) | (lo as u32)
        }),
{
    lemma_fields_below_32(movea_first);
    lemma_fields_below_32(movhi_first);
    assert(((hi as u32) << 16u32) | (lo as u32) == (hi as u32) * 65536 + (lo as u32)
        && (hi as u32) * 65536 + (lo as u32) <= 0xffff_ffff) by (bit_vector)
        requires lo < 0x8000;
}

/// A fetch unit whose top six bits name no opcode stops the step with a
/// decode error, leaving registers, status word, program counter and bus
/// as they were.
pub proof fn lemma_decode_failure_non_mutating(
    pre: CpuState,
    bus: Seq<RegionModel>,
    post: CpuState,
    bus_post: Seq<RegionModel>,
    r: Result<(), CoreError>,
    first: u16,
)
    requires
        step_spec(pre, bus, post, bus_post, r),
        read_halfword_spec(bus, pre.pc) == Ok::<u16, BusError>(first),
        opcode_of_bits(opcode_bits_of(first)).is_none(),
    ensures
        r == Err::<(), CoreError>(
            CoreError::Decode(DecodeError { opcode_bits: opcode_bits_of(first) }),
        ),
        post == pre,
        bus_post == bus,
{
}

} // verus!
