use aurora_vb::avb::AVB;
use aurora_vb::instruction::{sign_extend_imm5, DecodeError, InstructionFormat, Opcode};
use aurora_vb::interconnect::{BusError, Interconnect, MemoryRegion};
use aurora_vb::nvc::{CoreError, Nvc, StatusWord, RESET_VECTOR};
use aurora_vb::rom::{ConfigurationError, Rom};

const MOVHI: u16 = 0b101111;
const MOVEA: u16 = 0b101000;
const MOV_IMM: u16 = 0b010000;
const STB: u16 = 0b110100;
const JMP: u16 = 0b000110;
const SUB: u16 = 0b000010;
const OUTW: u16 = 0b111111;

fn first(op: u16, reg2: u16, reg1: u16) -> u16 {
    (op << 10) | (reg2 << 5) | reg1
}

fn push_halfword(out: &mut Vec<u8>, h: u16) {
    out.push((h & 0xff) as u8);
    out.push((h >> 8) as u8);
}

/// An image of `size` bytes with `program` placed where the reset vector lands.
fn image_with_program(size: usize, program: &[u16]) -> Vec<u8> {
    let mut bytes = vec![0u8; size];
    let start = (RESET_VECTOR as usize & 0x07ff_ffff) & (size - 1);
    let mut code = Vec::new();
    for h in program {
        push_halfword(&mut code, *h);
    }
    for (i, b) in code.iter().enumerate() {
        bytes[start + i] = *b;
    }
    bytes
}

fn machine(size: usize, program: &[u16]) -> AVB {
    let rom = Rom::from_bytes(image_with_program(size, program)).unwrap();
    AVB::new(rom).unwrap()
}

fn run(avb: &mut AVB, steps: usize) {
    for _ in 0..steps {
        avb.step().unwrap();
    }
}

#[test]
fn decodes_every_opcode() {
    assert_eq!(Opcode::from_halfword(first(MOVHI, 1, 2)), Ok(Opcode::Movhi));
    assert_eq!(Opcode::from_halfword(first(MOVEA, 1, 2)), Ok(Opcode::Movea));
    assert_eq!(Opcode::from_halfword(first(MOV_IMM, 1, 2)), Ok(Opcode::MovImm));
    assert_eq!(Opcode::from_halfword(first(STB, 1, 2)), Ok(Opcode::Stb));
    assert_eq!(Opcode::from_halfword(first(JMP, 1, 2)), Ok(Opcode::Jmp));
    assert_eq!(Opcode::from_halfword(first(SUB, 1, 2)), Ok(Opcode::Sub));
    assert_eq!(Opcode::from_halfword(first(OUTW, 1, 2)), Ok(Opcode::Outw));
}

#[test]
fn unknown_opcode_is_a_decode_error() {
    assert_eq!(Opcode::from_halfword(0x0000), Err(DecodeError { opcode_bits: 0 }));
    assert_eq!(
        Opcode::from_halfword(0b000001_00000_00011),
        Err(DecodeError { opcode_bits: 0b000001 })
    );
}

#[test]
fn formats_cycles_and_mnemonics() {
    assert_eq!(Opcode::Movhi.instruction_format(), InstructionFormat::V);
    assert_eq!(Opcode::Movea.instruction_format(), InstructionFormat::V);
    assert_eq!(Opcode::Jmp.instruction_format(), InstructionFormat::I);
    assert_eq!(Opcode::Sub.instruction_format(), InstructionFormat::I);
    assert_eq!(Opcode::MovImm.instruction_format(), InstructionFormat::II);
    assert_eq!(Opcode::Stb.instruction_format(), InstructionFormat::VI);
    assert_eq!(Opcode::Outw.instruction_format(), InstructionFormat::VI);
    assert!(!InstructionFormat::I.has_second_halfword());
    assert!(!InstructionFormat::II.has_second_halfword());
    assert!(InstructionFormat::V.has_second_halfword());
    assert!(InstructionFormat::VI.has_second_halfword());
    assert_eq!(Opcode::Jmp.num_cycles(), 3);
    assert_eq!(Opcode::Sub.num_cycles(), 1);
    assert_eq!(Opcode::Outw.num_cycles(), 1);
    assert_eq!(Opcode::MovImm.mnemonic(), "mov");
    assert_eq!(Opcode::Outw.mnemonic(), "out.w");
    assert_eq!(Opcode::Stb.mnemonic(), "st.b");
}

#[test]
fn five_bit_sign_extension() {
    assert_eq!(sign_extend_imm5(0b01111), 15);
    assert_eq!(sign_extend_imm5(0b10000) as i32, -16);
    assert_eq!(sign_extend_imm5(0b11111), 0xffff_ffff);
    assert_eq!(sign_extend_imm5(0), 0);
}

#[test]
fn reset_state() {
    let cpu = Nvc::new();
    assert_eq!(cpu.reg_pc(), 0xffff_fff0);
    for i in 0..32 {
        assert_eq!(cpu.reg_gpr(i), 0);
    }
    assert_eq!(cpu.reg_psw(), 0x8000);
    assert_eq!(cpu.cycles(), 0);
    assert!(cpu.status().nmi_pending);
}

#[test]
fn end_to_end_mov_then_jmp() {
    let rom = Rom::from_bytes(vec![0x25, 0x40, 0x01, 0x18]).unwrap();
    let mut avb = AVB::new(rom).unwrap();
    assert_eq!(avb.interconnect.read_halfword(0xffff_fff0), Ok(0x4025));
    avb.step().unwrap();
    assert_eq!(avb.cpu.reg_gpr(1), 5);
    assert_eq!(avb.cpu.reg_pc(), 0xffff_fff2);
    assert_eq!(avb.interconnect.read_halfword(0xffff_fff2), Ok(0x1801));
    avb.step().unwrap();
    assert_eq!(avb.cpu.reg_pc(), 5);
    assert_eq!(avb.cpu.cycles(), 4);
}

#[test]
fn zero_register_ignores_writes() {
    let mut avb = machine(16, &[first(MOV_IMM, 0, 5), first(MOVEA, 0, 0), 0x1234]);
    run(&mut avb, 2);
    assert_eq!(avb.cpu.reg_gpr(0), 0);
    assert_eq!(avb.cpu.reg_pc(), 0xffff_fff6);
}

#[test]
fn subtract_zero_minus_zero() {
    let mut avb = machine(16, &[first(SUB, 2, 1)]);
    run(&mut avb, 1);
    let psw = avb.cpu.status();
    assert_eq!(avb.cpu.reg_gpr(2), 0);
    assert!(psw.zero);
    assert!(!psw.carry);
    assert!(!psw.sign);
    assert!(!psw.overflow);
    assert_eq!(avb.cpu.reg_psw(), 0x8001);
}

#[test]
fn subtract_zero_minus_one() {
    let mut avb = machine(16, &[first(MOV_IMM, 1, 1), first(SUB, 2, 1)]);
    run(&mut avb, 2);
    let psw = avb.cpu.status();
    assert_eq!(avb.cpu.reg_gpr(2), 0xffff_ffff);
    assert!(psw.carry);
    assert!(psw.sign);
    assert!(!psw.zero);
    assert!(!psw.overflow);
    assert_eq!(avb.cpu.reg_psw(), 0x800a);
}

#[test]
fn subtract_int_min_minus_one_overflows() {
    let mut avb = machine(
        16,
        &[first(MOVHI, 2, 0), 0x8000, first(MOV_IMM, 1, 1), first(SUB, 2, 1)],
    );
    run(&mut avb, 3);
    let psw = avb.cpu.status();
    assert_eq!(avb.cpu.reg_gpr(2), 0x7fff_ffff);
    assert!(psw.overflow);
    assert!(!psw.carry);
    assert!(!psw.sign);
    assert!(!psw.zero);
}

#[test]
fn subtract_one_minus_int_min_overflows_with_borrow() {
    let mut avb = machine(
        16,
        &[first(MOVHI, 1, 0), 0x8000, first(MOV_IMM, 2, 1), first(SUB, 2, 1)],
    );
    run(&mut avb, 3);
    let psw = avb.cpu.status();
    assert_eq!(avb.cpu.reg_gpr(2), 0x8000_0001);
    assert!(psw.overflow);
    assert!(psw.carry);
    assert!(psw.sign);
}

#[test]
fn movea_then_movhi_builds_a_word() {
    let mut avb = machine(
        16,
        &[first(MOVEA, 3, 0), 0x1234, first(MOVHI, 3, 3), 0xabcd],
    );
    run(&mut avb, 2);
    assert_eq!(avb.cpu.reg_gpr(3), 0xabcd_1234);
}

#[test]
fn movea_sign_extends_its_immediate() {
    let mut avb = machine(
        16,
        &[first(MOVEA, 3, 0), 0x8000, first(MOVHI, 3, 3), 0x0000],
    );
    run(&mut avb, 2);
    assert_eq!(avb.cpu.reg_gpr(3), 0xffff_8000);
}

#[test]
fn rom_is_mirrored_across_its_window() {
    let bytes: Vec<u8> = (0..16u8).map(|i| i * 3 + 1).collect();
    let bus = Interconnect::new(Rom::from_bytes(bytes).unwrap()).unwrap();
    assert_eq!(bus.read_byte(0x0700_0003), Ok(10));
    assert_eq!(bus.read_byte(0x0700_0013), Ok(10));
    assert_eq!(bus.read_byte(0x07ff_fff3), Ok(10));
    assert_eq!(bus.read_byte(0x0f00_0003), Ok(10));
    assert_eq!(bus.read_halfword(0x0700_0003), Ok(0x0a07));
}

#[test]
fn unmapped_read_is_an_error() {
    let bus = Interconnect::new(Rom::from_bytes(vec![1, 2, 3, 4]).unwrap()).unwrap();
    assert_eq!(bus.read_byte(0x0600_0000), Err(BusError::UnmappedRead(0x0600_0000)));
    assert_eq!(bus.read_halfword(0x1234), Err(BusError::UnmappedRead(0x1234)));
}

#[test]
fn writes_to_rom_or_unmapped_fail() {
    let mut bus = Interconnect::new(Rom::from_bytes(vec![1, 2, 3, 4]).unwrap()).unwrap();
    assert_eq!(bus.write_byte(0x0700_0001, 9), Err(BusError::ReadOnlyWrite(0x0700_0001)));
    assert_eq!(bus.write_word(0x0700_0006, 9), Err(BusError::ReadOnlyWrite(0x0700_0004)));
    assert_eq!(bus.write_byte(0x0500_0000, 9), Err(BusError::UnmappedWrite(0x0500_0000)));
    assert_eq!(bus.read_byte(0x0700_0001), Ok(2));
}

#[test]
fn writable_region_takes_writes() {
    let mut bus = Interconnect::new(Rom::from_bytes(vec![1, 2, 3, 4]).unwrap()).unwrap();
    let ram = MemoryRegion::new(0x0500_0000, 0x0600_0000, vec![0u8; 64], true).unwrap();
    bus.map_region(ram);
    assert_eq!(bus.write_byte(0x0500_0041, 0x5a), Ok(()));
    assert_eq!(bus.read_byte(0x0500_0001), Ok(0x5a));
    assert_eq!(bus.write_word(0x0500_0013, 0x1122_3344), Ok(()));
    assert_eq!(bus.read_byte(0x0500_0010), Ok(0x44));
    assert_eq!(bus.read_byte(0x0500_0011), Ok(0x33));
    assert_eq!(bus.read_byte(0x0500_0012), Ok(0x22));
    assert_eq!(bus.read_byte(0x0500_0013), Ok(0x11));
    assert_eq!(bus.read_halfword(0x0500_0012), Ok(0x1122));
}

#[test]
fn region_and_image_size_errors() {
    assert_eq!(
        Interconnect::new(Rom::from_bytes(vec![]).unwrap()).err(),
        Some(ConfigurationError::EmptyRegion)
    );
    assert_eq!(
        Interconnect::new(Rom::from_bytes(vec![0; 3]).unwrap()).err(),
        Some(ConfigurationError::SizeNotPowerOfTwo(3))
    );
    assert_eq!(
        Rom::from_bytes(vec![0; 16 * 1024 * 1024 + 1]).err().map(|e| e),
        Some(ConfigurationError::TooLarge(16 * 1024 * 1024 + 1))
    );
    assert_eq!(
        MemoryRegion::new(0x10, 0x10, vec![0; 4], true).err(),
        Some(ConfigurationError::BadWindow(0x10, 0x10))
    );
    assert_eq!(
        MemoryRegion::new(0, 0x0900_0000, vec![0; 4], true).err(),
        Some(ConfigurationError::BadWindow(0, 0x0900_0000))
    );
}

#[test]
fn decode_failure_changes_nothing() {
    let mut avb = machine(16, &[first(MOV_IMM, 1, 7), 0x0000]);
    run(&mut avb, 1);
    let psw = avb.cpu.reg_psw();
    let pc = avb.cpu.reg_pc();
    assert_eq!(avb.step(), Err(CoreError::Decode(DecodeError { opcode_bits: 0 })));
    assert_eq!(avb.cpu.reg_pc(), pc);
    assert_eq!(avb.cpu.reg_psw(), psw);
    assert_eq!(avb.cpu.reg_gpr(1), 7);
    assert_eq!(avb.cpu.cycles(), 1);
}

#[test]
fn store_byte_into_rom_window_is_refused() {
    let mut avb = machine(
        16,
        &[first(MOVHI, 1, 0), 0x0700, first(STB, 2, 1), 0x0002],
    );
    run(&mut avb, 1);
    assert_eq!(
        avb.step(),
        Err(CoreError::Bus(BusError::ReadOnlyWrite(0x0700_0002)))
    );
    assert_eq!(avb.cpu.reg_pc(), 0xffff_fff8);
    assert_eq!(avb.cpu.cycles(), 1);
}

#[test]
fn stores_reach_writable_memory() {
    let mut avb = machine(
        32,
        &[
            first(MOVHI, 1, 0),
            0x0500,
            first(MOV_IMM, 2, 0b11110),
            first(STB, 2, 1),
            0x000f,
            first(OUTW, 2, 1),
            0x0008,
        ],
    );
    let ram = MemoryRegion::new(0x0500_0000, 0x0600_0000, vec![0u8; 16], true).unwrap();
    avb.interconnect.map_region(ram);
    run(&mut avb, 4);
    assert_eq!(avb.interconnect.read_byte(0x0500_000f), Ok(0xfe));
    assert_eq!(avb.interconnect.read_byte(0x0500_0008), Ok(0xfe));
    assert_eq!(avb.interconnect.read_byte(0x0500_000b), Ok(0xff));
    assert_eq!(avb.cpu.cycles(), 4);
}

#[test]
fn store_to_unmapped_address_is_an_error() {
    let mut avb = machine(16, &[first(OUTW, 0, 0), 0x0010]);
    assert_eq!(avb.step(), Err(CoreError::Bus(BusError::UnmappedWrite(0x10))));
}

#[test]
fn jump_costs_three_cycles() {
    let mut avb = machine(16, &[first(JMP, 0, 0)]);
    run(&mut avb, 1);
    assert_eq!(avb.cpu.reg_pc(), 0);
    assert_eq!(avb.cpu.cycles(), 3);
}

#[test]
fn status_word_packing() {
    let mut psw = StatusWord::reset();
    assert_eq!(psw.to_u32(), 0x8000);
    psw.interrupt_mask_level = 0xf;
    psw.zero = true;
    psw.exception_pending = true;
    assert_eq!(psw.to_u32(), 0xf_c001);
}

fn image_with_header(title: &[u8], maker: &[u8; 2], game: &[u8; 2], version: u8) -> Vec<u8> {
    let mut bytes = vec![0u8; 1024];
    let h = 1024 - 544;
    for (i, b) in title.iter().enumerate() {
        bytes[h + i] = *b;
    }
    bytes[h + 0x19] = maker[0];
    bytes[h + 0x1a] = maker[1];
    bytes[h + 0x1b] = game[0];
    bytes[h + 0x1c] = game[1];
    bytes[h + 0x1f] = version;
    bytes
}

#[test]
fn header_fields() {
    let rom = Rom::from_bytes(image_with_header(b"MARIO CLASH         ", b"01", b"VB", 3)).unwrap();
    assert_eq!(rom.size(), 1024);
    assert_eq!(rom.bytes().len(), 1024);
    assert_eq!(rom.name().unwrap(), "MARIO CLASH         ");
    assert_eq!(rom.maker_code().unwrap(), "01");
    assert_eq!(rom.game_code().unwrap(), "VB");
    assert_eq!(rom.game_version(), 3);
}

#[test]
fn header_title_in_shift_jis() {
    let mut title = vec![0x82, 0xa0, 0x82, 0xa2];
    title.resize(20, b' ');
    let rom = Rom::from_bytes(image_with_header(&title, b"01", b"VB", 0)).unwrap();
    assert_eq!(rom.name().unwrap(), format!("あい{}", " ".repeat(16)));
}

#[test]
fn header_errors() {
    let mut title = vec![0x82];
    title.resize(20, 0xff);
    let rom = Rom::from_bytes(image_with_header(&title, &[0xff, 0xfe], b"VB", 0)).unwrap();
    assert!(rom.name().is_err());
    assert!(rom.maker_code().is_err());
    assert!(rom.game_code().is_ok());
}
