use aurora_vb::command::{parse_command, Command, DEFAULT_DISASSEMBLE_COUNT};

#[test]
fn plain_words() {
    assert_eq!(parse_command("showregs"), Some(Command::ShowRegs));
    assert_eq!(parse_command("r"), Some(Command::ShowRegs));
    assert_eq!(parse_command("step"), Some(Command::Step));
    assert_eq!(parse_command("s"), Some(Command::Step));
    assert_eq!(parse_command("label"), Some(Command::Label));
    assert_eq!(parse_command("l"), Some(Command::Label));
    for w in ["exit", "quit", "q", "e"] {
        assert_eq!(parse_command(w), Some(Command::Exit));
    }
    assert_eq!(parse_command(""), Some(Command::Repeat));
}

#[test]
fn goto_takes_a_hex_address() {
    assert_eq!(parse_command("goto 0x07000000"), Some(Command::Goto(0x0700_0000)));
    assert_eq!(parse_command("g $fffffff0"), Some(Command::Goto(0xffff_fff0)));
    assert_eq!(parse_command("g  1aB"), Some(Command::Goto(0x1ab)));
    assert_eq!(parse_command("g"), None);
    assert_eq!(parse_command("g 100000000"), None);
    assert_eq!(parse_command("g 12z"), None);
    assert_eq!(parse_command("goto10"), None);
}

#[test]
fn show_mem_address_is_optional() {
    assert_eq!(parse_command("showmem"), Some(Command::ShowMem(None)));
    assert_eq!(parse_command("mem 10"), Some(Command::ShowMem(Some(0x10))));
    assert_eq!(parse_command("m\t0x20"), Some(Command::ShowMem(Some(0x20))));
    assert_eq!(parse_command("m"), Some(Command::ShowMem(None)));
    assert_eq!(parse_command("me"), None);
}

#[test]
fn disassemble_count_is_decimal() {
    assert_eq!(
        parse_command("disassemble"),
        Some(Command::Disassemble(DEFAULT_DISASSEMBLE_COUNT))
    );
    assert_eq!(parse_command("d"), Some(Command::Disassemble(4)));
    assert_eq!(parse_command("d 12"), Some(Command::Disassemble(12)));
    assert_eq!(parse_command("d 1f"), None);
    assert_eq!(parse_command("d12"), None);
}

#[test]
fn add_label_takes_name_and_address() {
    assert_eq!(
        parse_command("addlabel .start 0x07000000"),
        Some(Command::AddLabel("start".to_string(), 0x0700_0000))
    );
    assert_eq!(
        parse_command("al .loop2 fff0"),
        Some(Command::AddLabel("loop2".to_string(), 0xfff0))
    );
    assert_eq!(parse_command("al start 10"), None);
    assert_eq!(parse_command("al . 10"), None);
    assert_eq!(parse_command("al .a-b 10"), None);
    assert_eq!(parse_command("al .ab"), None);
}

#[test]
fn unknown_words_are_refused() {
    assert_eq!(parse_command("jump"), None);
    assert_eq!(parse_command("steps"), None);
    assert!("nonsense".parse::<Command>().is_err());
    assert_eq!("r".parse::<Command>(), Ok(Command::ShowRegs));
}
