use vstd::prelude::*;

verus! {

/// The implemented mnemonics of the NVC instruction set.
#[derive(PartialEq, Eq, Structural, Clone, Copy, Debug)]
pub enum Opcode {
    Movhi,
    Movea,
    MovImm,
    Stb,
    Jmp,
    Sub,
    Outw,
}

/// Bit layout of an instruction's first halfword, and whether a second one follows.
#[derive(PartialEq, Eq, Structural, Clone, Copy, Debug)]
pub enum InstructionFormat {
    I,
    II,
    V,
    VI,
}

/// A fetch unit whose top six bits name no implemented opcode.
#[derive(PartialEq, Eq, Structural, Clone, Copy, Debug)]
pub struct DecodeError {
    /// The six opcode bits (15..10) of the offending halfword.
    pub opcode_bits: u16,
}

/// The six opcode bits of a fetch unit.
pub open spec fn opcode_bits_of(halfword: u16) -> u16 {
    halfword >> 10u16
}

/// The opcode that a six-bit pattern names, if any.
pub open spec fn opcode_of_bits(bits: u16) -> Option<Opcode> {
    if bits == 0b101111 {
        Some(Opcode::Movhi)
    } else if bits == 0b101000 {
        Some(Opcode::Movea)
    } else if bits == 0b010000 {
        Some(Opcode::MovImm)
    } else if bits == 0b110100 {
        Some(Opcode::Stb)
    } else if bits == 0b000110 {
        Some(Opcode::Jmp)
    } else if bits == 0b000010 {
        Some(Opcode::Sub)
    } else if bits == 0b111111 {
        Some(Opcode::Outw)
    } else {
        None
    }
}

/// What decoding a fetch unit yields.
pub open spec fn decode_spec(halfword: u16) -> Result<Opcode, DecodeError> {
    match opcode_of_bits(opcode_bits_of(halfword)) {
        Some(op) => Ok(op),
        None => Err(DecodeError { opcode_bits: opcode_bits_of(halfword) }),
    }
}

pub open spec fn format_spec(op: Opcode) -> InstructionFormat {
    match op {
        Opcode::Movhi | Opcode::Movea => InstructionFormat::V,
        Opcode::Jmp | Opcode::Sub => InstructionFormat::I,
        Opcode::MovImm => InstructionFormat::II,
        Opcode::Outw | Opcode::Stb => InstructionFormat::VI,
    }
}

pub open spec fn cycles_spec(op: Opcode) -> nat {
    match op {
        Opcode::Jmp => 3,
        _ => 1,
    }
}

pub open spec fn has_second_spec(f: InstructionFormat) -> bool {
    f == InstructionFormat::V || f == InstructionFormat::VI
}

impl Opcode {
    /// Decodes the opcode held in the top six bits of a fetch unit.
    pub fn from_halfword(halfword: u16) -> (r: Result<Opcode, DecodeError>)
        ensures
            r == decode_spec(halfword),
    {
        let opcode_bits = halfword >> 10u16;
        match opcode_bits {
            0b101111 => Ok(Opcode::Movhi),
            0b101000 => Ok(Opcode::Movea),
            0b010000 => Ok(Opcode::MovImm),
            0b110100 => Ok(Opcode::Stb),
            0b000110 => Ok(Opcode::Jmp),
            0b000010 => Ok(Opcode::Sub),
            0b111111 => Ok(Opcode::Outw),
            _ => Err(DecodeError { opcode_bits }),
        }
    }

    pub fn instruction_format(&self) -> (r: InstructionFormat)
        ensures
            r == format_spec(*self),
    {
        match self {
            Opcode::Movhi => InstructionFormat::V,
            Opcode::Movea => InstructionFormat::V,
            Opcode::Jmp => InstructionFormat::I,
            Opcode::Sub => InstructionFormat::I,
            Opcode::MovImm => InstructionFormat::II,
            Opcode::Outw => InstructionFormat::VI,
            Opcode::Stb => InstructionFormat::VI,
        }
    }

    pub fn num_cycles(&self) -> (r: usize)
        ensures
            r == cycles_spec(*self),
    {
        match self {
            Opcode::Jmp => 3,
            Opcode::MovImm => 1,
            Opcode::Sub => 1,
            Opcode::Movea => 1,
            Opcode::Movhi => 1,
            Opcode::Stb => 1,
            Opcode::Outw => 1,
        }
    }

    /// The assembler mnemonic of the opcode.
    pub fn mnemonic(&self) -> (r: &'static str)
        ensures
            r@ == mnemonic_spec(*self),
    {
        match self {
            Opcode::Sub => "sub",
            Opcode::Movhi => "movhi",
            Opcode::Movea => "movea",
            Opcode::MovImm => "mov",
            Opcode::Jmp => "jmp",
            Opcode::Outw => "out.w",
            Opcode::Stb => "st.b",
        }
    }
}

pub open spec fn mnemonic_spec(op: Opcode) -> Seq<char> {
    match op {
        Opcode::Sub => "sub"@,
        Opcode::Movhi => "movhi"@,
        Opcode::Movea => "movea"@,
        Opcode::MovImm => "mov"@,
        Opcode::Jmp => "jmp"@,
        Opcode::Outw => "out.w"@,
        Opcode::Stb => "st.b"@,
    }
}

impl InstructionFormat {
    pub fn has_second_halfword(&self) -> (r: bool)
        ensures
            r == has_second_spec(*self),
    {
        match self {
            InstructionFormat::I => false,
            InstructionFormat::II => false,
            InstructionFormat::V => true,
            InstructionFormat::VI => true,
        }
    }
}

/// The `reg1` field: the low five bits of the first halfword.
pub open spec fn reg1_of(first: u16) -> usize {
    (first & 0x1f) as usize
}

/// The `reg2` field (or destination): bits 9..5 of the first halfword.
pub open spec fn reg2_of(first: u16) -> usize {
    ((first >> 5u16) & 0x1f) as usize
}

/// Two's-complement extension of a 5-bit immediate to 32 bits.
pub open spec fn sign_extend5_spec(imm5: usize) -> u32 {
    if imm5 < 16 {
        imm5 as u32
    } else {
        (imm5 + 0xffff_ffe0) as u32
    }
}

/// Two's-complement extension of a 16-bit value to 32 bits.
pub open spec fn sign_extend16_spec(v: u16) -> u32 {
    if v < 0x8000 {
        v as u32
    } else {
        (v + 0xffff_0000) as u32
    }
}

/// Splits a format I halfword into `(reg1, reg2)`.
pub fn format_i(first_halfword: u16) -> (r: (usize, usize))
    ensures
        r == (reg1_of(first_halfword), reg2_of(first_halfword)),
        r.0 < 32 && r.1 < 32,
{
    let reg1 = (first_halfword & 0x1f) as usize;
    let reg2 = ((first_halfword >> 5u16) & 0x1f) as usize;
    proof { lemma_fields_in_range(first_halfword); }
    (reg1, reg2)
}

/// Splits a format II halfword into `(imm5, reg2)`.
pub fn format_ii(first_halfword: u16) -> (r: (usize, usize))
    ensures
        r == (reg1_of(first_halfword), reg2_of(first_halfword)),
        r.0 < 32 && r.1 < 32,
{
    let imm5 = (first_halfword & 0x1f) as usize;
    let reg2 = ((first_halfword >> 5u16) & 0x1f) as usize;
    proof { lemma_fields_in_range(first_halfword); }
    (imm5, reg2)
}

/// Splits a format V instruction into `(reg1, reg2, imm16)`.
pub fn format_v(first_halfword: u16, second_halfword: u16) -> (r: (usize, usize, u16))
    ensures
        r == (reg1_of(first_halfword), reg2_of(first_halfword), second_halfword),
        r.0 < 32 && r.1 < 32,
{
    let reg1 = (first_halfword & 0x1f) as usize;
    let reg2 = ((first_halfword >> 5u16) & 0x1f) as usize;
    let imm16 = second_halfword;
    proof { lemma_fields_in_range(first_halfword); }
    (reg1, reg2, imm16)
}

/// Splits a format VI instruction into `(reg1, reg2, disp16)`, with the
/// displacement already sign-extended to 32 bits.
pub fn format_vi(first_halfword: u16, second_halfword: u16) -> (r: (usize, usize, u32))
    ensures
        r == (reg1_of(first_halfword), reg2_of(first_halfword), sign_extend16_spec(second_halfword)),
        r.0 < 32 && r.1 < 32,
{
    let reg1 = (first_halfword & 0x1f) as usize;
    let reg2 = ((first_halfword >> 5u16) & 0x1f) as usize;
    let disp16 = sign_extend16(second_halfword);
    proof { lemma_fields_in_range(first_halfword); }
    (reg1, reg2, disp16)
}

proof fn lemma_fields_in_range(h: u16)
    ensures
        h & 0x1f < 32,
        (h >> 5u16) & 0x1f < 32,
{
    assert(h & 0x1f < 32) by (bit_vector);
    assert((h >> 5u16) & 0x1f < 32) by (bit_vector);
}

/// Extends a 5-bit immediate (bit 4 is the sign) to a 32-bit two's-complement value.
pub fn sign_extend_imm5(imm5: usize) -> (r: u32)
    requires
        imm5 < 32,
    ensures
        r == sign_extend5_spec(imm5),
{
    if imm5 & 0x10 == 0 {
        assert(imm5 & 0x10 == 0 && imm5 < 32 ==> imm5 < 16) by (bit_vector);
        imm5 as u32
    } else {
        assert(imm5 & 0x10 != 0 ==> imm5 >= 16) by (bit_vector);
        (imm5 as u32) + 0xffff_ffe0
    }
}

/// Extends a 16-bit value (bit 15 is the sign) to a 32-bit two's-complement value.
pub fn sign_extend16(v: u16) -> (r: u32)
    ensures
        r == sign_extend16_spec(v),
{
    if v < 0x8000 {
        v as u32
    } else {
        (v as u32) + 0xffff_0000
    }
}

} // verus!
