use crate::rom::{ascii_chars, string_from_utf8, is_ascii};
use vstd::prelude::*;
use vstd::string::StringSliceAdditionalSpecFns;

verus! {

/// A command of the interactive debugger.
#[derive(Debug, Clone, PartialEq, Eq)]
pub enum Command {
    ShowRegs,
    Step,
    Goto(u32),
    ShowMem(Option<u32>),
    Disassemble(usize),
    Label,
    AddLabel(String, u32),
    Exit,
    Repeat,
}

/// A command with its label name as characters.
pub enum CommandModel {
    ShowRegs,
    Step,
    Goto(u32),
    ShowMem(Option<u32>),
    Disassemble(usize),
    Label,
    AddLabel(Seq<char>, u32),
    Exit,
    Repeat,
}

impl View for Command {
    type V = CommandModel;

    open spec fn view(&self) -> CommandModel {
        match self {
            Command::ShowRegs => CommandModel::ShowRegs,
            Command::Step => CommandModel::Step,
            Command::Goto(a) => CommandModel::Goto(*a),
            Command::ShowMem(a) => CommandModel::ShowMem(*a),
            Command::Disassemble(n) => CommandModel::Disassemble(*n),
            Command::Label => CommandModel::Label,
            Command::AddLabel(name, a) => CommandModel::AddLabel(name@, *a),
            Command::Exit => CommandModel::Exit,
            Command::Repeat => CommandModel::Repeat,
        }
    }
}

/// The number of instructions `disassemble` shows when no count is given.
pub const DEFAULT_DISASSEMBLE_COUNT: usize = 4;

pub open spec fn is_space(c: u8) -> bool {
    c == 0x20 || c == 0x09
}

pub open spec fn is_digit(c: u8) -> bool {
    0x30 <= c <= 0x39
}

pub open spec fn is_alphanumeric(c: u8) -> bool {
    is_digit(c) || 0x41 <= c <= 0x5a || 0x61 <= c <= 0x7a
}

/// The value of a digit in base `base`, or `None` where `c` is no such digit.
pub open spec fn digit_value(c: u8, base: u64) -> Option<u64> {
    let v: int = if is_digit(c) {
        c - 0x30
    } else if 0x41 <= c <= 0x46 {
        c - 0x41 + 10
    } else if 0x61 <= c <= 0x66 {
        c - 0x61 + 10
    } else {
        base as int
    };
    if v < base {
        Some(v as u64)
    } else {
        None
    }
}

pub open spec fn all_digits(s: Seq<u8>, base: u64) -> bool {
    forall|i: int| 0 <= i < s.len() ==> (#[trigger] digit_value(s[i], base)).is_some()
}

/// The value of a string of digits in base `base`.
pub open spec fn number_value(s: Seq<u8>, base: u64) -> nat
    decreases s.len(),
{
    if s.len() == 0 {
        0
    } else {
        (number_value(s.drop_last(), base) * base + digit_value(s.last(), base).unwrap()) as nat
    }
}

/// A non-empty string of digits in base `base` whose value is at most `max`.
pub open spec fn number_spec(s: Seq<u8>, base: u64, max: u64) -> Option<u64> {
    if s.len() > 0 && all_digits(s, base) && number_value(s, base) <= max {
        Some(number_value(s, base) as u64)
    } else {
        None
    }
}

/// An address argument: hex digits, optionally after `0x` or `$`, fitting in 32 bits.
pub open spec fn hex_arg(s: Seq<u8>) -> Option<u32> {
    let v = if s.len() >= 2 && s[0] == 0x30 && s[1] == 0x78 && number_spec(
        s.skip(2),
        16,
        0xffff_ffff,
    ).is_some() {
        number_spec(s.skip(2), 16, 0xffff_ffff)
    } else if s.len() >= 1 && s[0] == 0x24 {
        number_spec(s.skip(1), 16, 0xffff_ffff)
    } else {
        number_spec(s, 16, 0xffff_ffff)
    };
    match v {
        Some(x) => Some(x as u32),
        None => None,
    }
}

/// A count argument: decimal digits, fitting in `usize`.
pub open spec fn count_arg(s: Seq<u8>) -> Option<usize> {
    match number_spec(s, 10, usize::MAX as u64) {
        Some(x) => Some(x as usize),
        None => None,
    }
}

/// Where the run of bytes from `i` on that satisfy (or, with `spaces` false,
/// fail) `is_space` ends.
pub open spec fn run_end(s: Seq<u8>, i: int, spaces: bool) -> int
    decreases s.len() - i,
{
    if 0 <= i < s.len() && is_space(s[i]) == spaces {
        run_end(s, i + 1, spaces)
    } else {
        i
    }
}

/// What follows one or more spaces or tabs at the start of `s`.
pub open spec fn after_spaces(s: Seq<u8>) -> Option<Seq<u8>> {
    if run_end(s, 0, true) > 0 {
        Some(s.skip(run_end(s, 0, true)))
    } else {
        None
    }
}

/// What follows `kw` at the start of `s`.
pub open spec fn after_keyword(s: Seq<u8>, kw: Seq<u8>) -> Option<Seq<u8>> {
    if s.len() >= kw.len() && s.take(kw.len() as int) == kw {
        Some(s.skip(kw.len() as int))
    } else {
        None
    }
}

/// What follows `a` at the start of `s`, or else what follows `b`.
pub open spec fn after_either(s: Seq<u8>, a: Seq<u8>, b: Seq<u8>) -> Option<Seq<u8>> {
    match after_keyword(s, a) {
        Some(rest) => Some(rest),
        None => after_keyword(s, b),
    }
}

/// An optional argument: nothing at all, or spaces and then `arg`.
pub open spec fn optional_arg<A>(rest: Seq<u8>, arg: spec_fn(Seq<u8>) -> Option<A>) -> Option<
    Option<A>,
> {
    if rest.len() == 0 {
        Some(None)
    } else {
        match after_spaces(rest) {
            Some(a) => match arg(a) {
                Some(v) => Some(Some(v)),
                None => None,
            },
            None => None,
        }
    }
}

/// A required argument: spaces and then `arg`.
pub open spec fn required_arg<A>(rest: Seq<u8>, arg: spec_fn(Seq<u8>) -> Option<A>) -> Option<A> {
    match after_spaces(rest) {
        Some(a) => arg(a),
        None => None,
    }
}

/// `.name addr`: a dot, one or more letters or digits, spaces, an address.
pub open spec fn label_args(s: Seq<u8>) -> Option<(Seq<char>, u32)> {
    let end = run_end(s, 0, false);
    let name = s.take(end);
    if end >= 2 && name[0] == 0x2e && (forall|i: int| 1 <= i < end ==> is_alphanumeric(#[trigger] name[i])) {
        match required_arg(s.skip(end), |a: Seq<u8>| hex_arg(a)) {
            Some(addr) => Some((ascii_chars(name.skip(1)), addr)),
            None => None,
        }
    } else {
        None
    }
}

/// The command a line (without its surrounding blanks) spells, if any.
pub open spec fn command_spec(s: Seq<u8>) -> Option<CommandModel> {
    if s.len() == 0 {
        Some(CommandModel::Repeat)
    } else if s == "showregs".spec_bytes() || s == "r".spec_bytes() {
        Some(CommandModel::ShowRegs)
    } else if s == "step".spec_bytes() || s == "s".spec_bytes() {
        Some(CommandModel::Step)
    } else if s == "label".spec_bytes() || s == "l".spec_bytes() {
        Some(CommandModel::Label)
    } else if s == "exit".spec_bytes() || s == "quit".spec_bytes() || s == "q".spec_bytes() || s
        == "e".spec_bytes() {
        Some(CommandModel::Exit)
    } else if let Some(rest) = after_either(s, "goto".spec_bytes(), "g".spec_bytes()) {
        match required_arg(rest, |a: Seq<u8>| hex_arg(a)) {
            Some(addr) => Some(CommandModel::Goto(addr)),
            None => None,
        }
    } else if let Some(rest) = match after_keyword(s, "showmem".spec_bytes()) {
        Some(rest) => Some(rest),
        None => after_either(s, "mem".spec_bytes(), "m".spec_bytes()),
    } {
        match optional_arg(rest, |a: Seq<u8>| hex_arg(a)) {
            Some(addr) => Some(CommandModel::ShowMem(addr)),
            None => None,
        }
    } else if let Some(rest) = after_either(s, "disassemble".spec_bytes(), "d".spec_bytes()) {
        match optional_arg(rest, |a: Seq<u8>| count_arg(a)) {
            Some(Some(n)) => Some(CommandModel::Disassemble(n)),
            Some(None) => Some(CommandModel::Disassemble(DEFAULT_DISASSEMBLE_COUNT)),
            None => None,
        }
    } else if let Some(rest) = after_either(s, "addlabel".spec_bytes(), "al".spec_bytes()) {
        match required_arg(rest, |a: Seq<u8>| label_args(a)) {
            Some((name, addr)) => Some(CommandModel::AddLabel(name, addr)),
            None => None,
        }
    } else {
        None
    }
}

/// Copies `s` from index `k` on.
fn tail(s: &[u8], k: usize) -> (r: Vec<u8>)
    requires
        k <= s@.len(),
    ensures
        r@ == s@.skip(k as int),
{
    let mut out: Vec<u8> = Vec::new();
    let mut i: usize = k;
    while i < s.len()
        invariant
            k <= i <= s@.len(),
            out@ == s@.subrange(k as int, i as int),
        decreases s@.len() - i,
    {
        out.push(s[i]);
        i = i + 1;
        assert(out@ =~= s@.subrange(k as int, i as int));
    }
    assert(out@ =~= s@.skip(k as int));
    out
}

/// Whether `s` equals `kw`'s bytes.
fn is_word(s: &[u8], kw: &str) -> (r: bool)
    ensures
        r == (s@ == kw.spec_bytes()),
{
    let k = kw.as_bytes();
    if s.len() != k.len() {
        return false;
    }
    let mut i: usize = 0;
    while i < s.len()
        invariant
            i <= s@.len(),
            s@.len() == k@.len(),
            k@ == kw.spec_bytes(),
            s@.take(i as int) == k@.take(i as int),
        decreases s@.len() - i,
    {
        if s[i] != k[i] {
            assert(s@ != k@) by {
                if s@ == k@ {
                    assert(s@[i as int] == k@[i as int]);
                }
            }
            return false;
        }
        i = i + 1;
        assert(s@.take(i as int) =~= k@.take(i as int)) by {
            assert(s@.take(i as int) =~= s@.take(i - 1) + seq![s@[i - 1]]);
            assert(k@.take(i as int) =~= k@.take(i - 1) + seq![k@[i - 1]]);
        }
    }
    assert(s@ =~= s@.take(i as int));
    assert(k@ =~= k@.take(i as int));
    true
}

/// What follows `kw` at the start of `s`.
fn strip_keyword(s: &[u8], kw: &str) -> (r: Option<Vec<u8>>)
    ensures
        match after_keyword(s@, kw.spec_bytes()) {
            None => r.is_none(),
            Some(rest) => r.is_some() && r.unwrap()@ == rest,
        },
{
    let k = kw.as_bytes();
    if s.len() < k.len() {
        return None;
    }
    let mut i: usize = 0;
    while i < k.len()
        invariant
            i <= k@.len() <= s@.len(),
            k@ == kw.spec_bytes(),
            s@.take(i as int) == k@.take(i as int),
        decreases k@.len() - i,
    {
        if s[i] != k[i] {
            assert(s@.take(k@.len() as int) != k@) by {
                if s@.take(k@.len() as int) == k@ {
                    assert(s@.take(k@.len() as int)[i as int] == k@[i as int]);
                }
            }
            return None;
        }
        i = i + 1;
        assert(s@.take(i as int) =~= k@.take(i as int)) by {
            assert(s@.take(i as int) =~= s@.take(i - 1) + seq![s@[i - 1]]);
            assert(k@.take(i as int) =~= k@.take(i - 1) + seq![k@[i - 1]]);
        }
    }
    assert(k@ =~= k@.take(i as int));
    Some(tail(s, k.len()))
}

/// What follows `a` at the start of `s`, or else what follows `b`.
fn strip_either(s: &[u8], a: &str, b: &str) -> (r: Option<Vec<u8>>)
    ensures
        match after_either(s@, a.spec_bytes(), b.spec_bytes()) {
            None => r.is_none(),
            Some(rest) => r.is_some() && r.unwrap()@ == rest,
        },
{
    match strip_keyword(s, a) {
        Some(rest) => Some(rest),
        None => strip_keyword(s, b),
    }
}

/// The end of the run of bytes from `i` on that are (or, with `spaces`
/// false, are not) spaces or tabs.
fn find_run_end(s: &[u8], i: usize, spaces: bool) -> (r: usize)
    requires
        i <= s@.len(),
    ensures
        r == run_end(s@, i as int, spaces),
        i <= r <= s@.len(),
{
    let mut j: usize = i;
    while j < s.len() && ((s[j] == 0x20 || s[j] == 0x09) == spaces)
        invariant
            i <= j <= s@.len(),
            run_end(s@, i as int, spaces) == run_end(s@, j as int, spaces),
        decreases s@.len() - j,
    {
        j = j + 1;
    }
    j
}

/// What follows one or more spaces or tabs at the start of `s`.
fn skip_spaces(s: &[u8]) -> (r: Option<Vec<u8>>)
    ensures
        match after_spaces(s@) {
            None => r.is_none(),
            Some(rest) => r.is_some() && r.unwrap()@ == rest,
        },
{
    let end = find_run_end(s, 0, true);
    if end > 0 {
        Some(tail(s, end))
    } else {
        None
    }
}

fn digit(c: u8, base: u64) -> (r: Option<u64>)
    requires
        base <= 16,
    ensures
        r == digit_value(c, base),
{
    let v: u64 = if 0x30 <= c && c <= 0x39 {
        (c - 0x30) as u64
    } else if 0x41 <= c && c <= 0x46 {
        (c - 0x41 + 10) as u64
    } else if 0x61 <= c && c <= 0x66 {
        (c - 0x61 + 10) as u64
    } else {
        base
    };
    if v < base {
        Some(v)
    } else {
        None
    }
}

proof fn lemma_number_value_grows(s: Seq<u8>, base: u64, i: int)
    requires
        base >= 1,
        0 <= i <= s.len(),
        all_digits(s, base),
    ensures
        number_value(s.take(i), base) <= number_value(s, base),
    decreases s.len(),
{
    if i < s.len() {
        let t = s.drop_last();
        assert(all_digits(t, base)) by {
            assert forall|j: int| 0 <= j < t.len() implies (#[trigger] digit_value(t[j], base)).is_some() by {
                assert(t[j] == s[j]);
            }
        }
        lemma_number_value_grows(t, base, i);
        assert(t.take(i) =~= s.take(i));
        let x = number_value(t, base);
        assert(x <= x * base) by (nonlinear_arith)
            requires base >= 1;
    } else {
        assert(s.take(i) =~= s);
    }
}

/// A non-empty string of digits in base `base` whose value is at most `max`.
fn parse_number(s: &[u8], base: u64, max: u64) -> (r: Option<u64>)
    requires
        2 <= base <= 16,
    ensures
        r == number_spec(s@, base, max),
{
    if s.len() == 0 {
        return None;
    }
    let mut acc: u64 = 0;
    let mut i: usize = 0;
    while i < s.len()
        invariant
            i <= s@.len(),
            2 <= base <= 16,
            all_digits(s@.take(i as int), base),
            acc == number_value(s@.take(i as int), base),
            acc <= max,
        decreases s@.len() - i,
    {
        let d = match digit(s[i], base) {
            Some(d) => d,
            None => {
                assert(!all_digits(s@, base));
                return None;
            },
        };
        let ghost prefix = s@.take(i + 1);
        assert(prefix.drop_last() =~= s@.take(i as int));
        assert(prefix.last() == s@[i as int]);
        assert(all_digits(prefix, base)) by {
            assert forall|j: int| 0 <= j < prefix.len() implies (#[trigger] digit_value(prefix[j], base)).is_some() by {
                if j < i {
                    assert(prefix[j] == s@.take(i as int)[j]);
                }
            }
        }
        let next = match acc.checked_mul(base) {
            Some(m) => m.checked_add(d),
            None => None,
        };
        match next {
            Some(v) if v <= max => {
                acc = v;
            },
            _ => {
                proof {
                    assert(number_value(prefix, base) > max);
                    if all_digits(s@, base) {
                        lemma_number_value_grows(s@, base, i + 1);
                    }
                }
                return None;
            },
        }
        i = i + 1;
    }
    assert(s@.take(i as int) =~= s@);
    Some(acc)
}

/// An address: hex digits, optionally after `0x` or `$`, fitting in 32 bits.
fn parse_hex_arg(s: &[u8]) -> (r: Option<u32>)
    ensures
        r == hex_arg(s@),
{
    if s.len() >= 2 && s[0] == 0x30 && s[1] == 0x78 {
        if let Some(v) = parse_number(tail(s, 2).as_slice(), 16, 0xffff_ffff) {
            return Some(v as u32);
        }
    }
    let v = if s.len() >= 1 && s[0] == 0x24 {
        parse_number(tail(s, 1).as_slice(), 16, 0xffff_ffff)
    } else {
        parse_number(s, 16, 0xffff_ffff)
    };
    match v {
        Some(x) => Some(x as u32),
        None => None,
    }
}

/// A count: decimal digits, fitting in `usize`.
fn parse_count_arg(s: &[u8]) -> (r: Option<usize>)
    ensures
        r == count_arg(s@),
{
    match parse_number(s, 10, usize::MAX as u64) {
        Some(x) => Some(x as usize),
        None => None,
    }
}

/// `.name addr`: the label's name (without the dot) and its address.
fn parse_label_args(s: &[u8]) -> (r: Option<(String, u32)>)
    ensures
        match label_args(s@) {
            None => r.is_none(),
            Some((name, addr)) => r.is_some() && r.unwrap().0@ == name && r.unwrap().1 == addr,
        },
{
    let end = find_run_end(s, 0, false);
    if end < 2 || s[0] != 0x2e {
        return None;
    }
    let mut name: Vec<u8> = Vec::new();
    let mut i: usize = 1;
    while i < end
        invariant
            1 <= i <= end <= s@.len(),
            end == run_end(s@, 0, false),
            end >= 2 && s@[0] == 0x2e,
            name@ == s@.subrange(1, i as int),
            forall|j: int| 1 <= j < i ==> is_alphanumeric(#[trigger] s@[j]),
        decreases end - i,
    {
        let c = s[i];
        if !((0x30 <= c && c <= 0x39) || (0x41 <= c && c <= 0x5a) || (0x61 <= c && c <= 0x7a)) {
            let ghost name_bytes = s@.take(end as int);
            assert(name_bytes[i as int] == c);
            assert(!is_alphanumeric(name_bytes[i as int]));
            assert(!(forall|j: int| 1 <= j < end ==> is_alphanumeric(#[trigger] name_bytes[j])));
            return None;
        }
        name.push(c);
        i = i + 1;
        assert(name@ =~= s@.subrange(1, i as int));
    }
    let addr = match skip_spaces(tail(s, end).as_slice()) {
        Some(rest) => match parse_hex_arg(rest.as_slice()) {
            Some(a) => a,
            None => return None,
        },
        None => return None,
    };
    assert(name@ =~= s@.take(end as int).skip(1));
    assert(is_ascii(name@));
    match string_from_utf8(name) {
        Ok(text) => Some((text, addr)),
        Err(_) => None,
    }
}

/// Reads a debugger command from a line with its surrounding blanks removed.
pub fn parse_command(line: &str) -> (r: Option<Command>)
    ensures
        match command_spec(line.spec_bytes()) {
            None => r.is_none(),
            Some(m) => r.is_some() && r.unwrap()@ == m,
        },
{
    let s = line.as_bytes();
    if s.len() == 0 {
        return Some(Command::Repeat);
    }
    if is_word(s, "showregs") || is_word(s, "r") {
        return Some(Command::ShowRegs);
    }
    if is_word(s, "step") || is_word(s, "s") {
        return Some(Command::Step);
    }
    if is_word(s, "label") || is_word(s, "l") {
        return Some(Command::Label);
    }
    if is_word(s, "exit") || is_word(s, "quit") || is_word(s, "q") || is_word(s, "e") {
        return Some(Command::Exit);
    }
    if let Some(rest) = strip_either(s, "goto", "g") {
        return match skip_spaces(rest.as_slice()) {
            Some(a) => match parse_hex_arg(a.as_slice()) {
                Some(addr) => Some(Command::Goto(addr)),
                None => None,
            },
            None => None,
        };
    }
    let mem_rest = match strip_keyword(s, "showmem") {
        Some(rest) => Some(rest),
        None => strip_either(s, "mem", "m"),
    };
    if let Some(rest) = mem_rest {
        if rest.len() == 0 {
            return Some(Command::ShowMem(None));
        }
        return match skip_spaces(rest.as_slice()) {
            Some(a) => match parse_hex_arg(a.as_slice()) {
                Some(addr) => Some(Command::ShowMem(Some(addr))),
                None => None,
            },
            None => None,
        };
    }
    if let Some(rest) = strip_either(s, "disassemble", "d") {
        if rest.len() == 0 {
            return Some(Command::Disassemble(DEFAULT_DISASSEMBLE_COUNT));
        }
        return match skip_spaces(rest.as_slice()) {
            Some(a) => match parse_count_arg(a.as_slice()) {
                Some(n) => Some(Command::Disassemble(n)),
                None => None,
            },
            None => None,
        };
    }
    if let Some(rest) = strip_either(s, "addlabel", "al") {
        return match skip_spaces(rest.as_slice()) {
            Some(a) => match parse_label_args(a.as_slice()) {
                Some((name, addr)) => Some(Command::AddLabel(name, addr)),
                None => None,
            },
            None => None,
        };
    }
    None
}

impl std::str::FromStr for Command {
    type Err = String;

    fn from_str(s: &str) -> Result<Command, String> {
        match parse_command(s) {
            Some(c) => Ok(c),
            None => Err("Unable to parse command".to_owned()),
        }
    }
}

} // verus!
