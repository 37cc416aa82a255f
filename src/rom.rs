use encoding::all::WINDOWS_31J;
use encoding::DecoderTrap;
use encoding::Encoding;
use vstd::prelude::*;

verus! {

/// Largest program image accepted: 16 MiB.
pub const MAX_ROM_SIZE: usize = 16777216;

/// Size of the header that ends every program image.
pub const HEADER_SIZE: usize = 544;

/// Offsets of the header fields, from the start of the header.
pub const MAKER_CODE_OFFSET: usize = 0x19;
pub const GAME_CODE_OFFSET: usize = 0x1b;
pub const GAME_VERSION_OFFSET: usize = 0x1f;
pub const TITLE_LEN: usize = 0x14;

/// A program image that cannot be accepted.
#[derive(PartialEq, Eq, Structural, Clone, Copy, Debug)]
pub enum ConfigurationError {
    /// The image is larger than `MAX_ROM_SIZE`; carries its size.
    TooLarge(usize),
    /// A memory region with no bytes.
    EmptyRegion,
    /// A memory region whose size is not a power of two; carries the size.
    SizeNotPowerOfTwo(usize),
    /// A memory region whose window is empty or leaves the 27-bit address space.
    BadWindow(u32, u32),
}

#[verifier::external_type_specification]
#[verifier::external_body]
pub struct ExFromUtf8Error(std::string::FromUtf8Error);

/// The text that strict Windows-31J (Shift_JIS) decoding gives for some bytes,
/// or `None` where they are not valid Windows-31J.
pub uninterp spec fn windows_31j_text(b: Seq<u8>) -> Option<Seq<char>>;

/// The text that strict UTF-8 decoding gives for some bytes, or `None` where
/// they are not valid UTF-8.
pub uninterp spec fn utf8_text(b: Seq<u8>) -> Option<Seq<char>>;

/// Bytes below 0x80 read as the ASCII characters with those codes.
pub open spec fn is_ascii(b: Seq<u8>) -> bool {
    forall|i: int| 0 <= i < b.len() ==> b[i] < 0x80
}

pub open spec fn ascii_chars(b: Seq<u8>) -> Seq<char> {
    b.map_values(|x: u8| x as char)
}

/// Relies on `encoding::all::WINDOWS_31J.decode` with `DecoderTrap::Strict`:
/// the outcome depends on the bytes alone, and an error is reported for any
/// byte sequence that is not valid Windows-31J.
#[verifier::external_body]
fn decode_windows_31j(b: &[u8]) -> (r: Result<String, String>)
    ensures
        match r {
            Ok(s) => windows_31j_text(b@) == Some(s@),
            Err(_) => windows_31j_text(b@).is_none(),
        },
{
    WINDOWS_31J.decode(b, DecoderTrap::Strict).map_err(|e| e.into_owned())
}

/// Relies on `String::from_utf8`: it succeeds exactly on valid UTF-8, which
/// holds of ASCII bytes, each of which becomes the character with its code.
#[verifier::external_body]
pub(crate) fn string_from_utf8(b: Vec<u8>) -> (r: Result<String, std::string::FromUtf8Error>)
    ensures
        match r {
            Ok(s) => utf8_text(b@) == Some(s@),
            Err(_) => utf8_text(b@).is_none(),
        },
        is_ascii(b@) ==> (r.is_ok() && r.unwrap()@ == ascii_chars(b@)),
{
    String::from_utf8(b)
}

/// A program image: the raw bytes of a cartridge ROM.
pub struct Rom {
    bytes: Vec<u8>,
}

impl View for Rom {
    type V = Seq<u8>;

    closed spec fn view(&self) -> Seq<u8> {
        self.bytes@
    }
}

/// Offset of the header within an image of `len` bytes.
pub open spec fn header_offset_spec(len: nat) -> int {
    len - HEADER_SIZE
}

/// `n` bytes of `b` starting at `start`.
pub open spec fn field_bytes(b: Seq<u8>, start: int, n: int) -> Seq<u8> {
    b.subrange(start, start + n)
}

impl Rom {
    /// Takes an image read from storage; rejects one over `MAX_ROM_SIZE` bytes.
    pub fn from_bytes(bytes: Vec<u8>) -> (r: Result<Rom, ConfigurationError>)
        ensures
            bytes@.len() > MAX_ROM_SIZE <==> r == Err::<Rom, ConfigurationError>(
                ConfigurationError::TooLarge(bytes@.len() as usize),
            ),
            bytes@.len() <= MAX_ROM_SIZE <==> (r.is_ok() && r.unwrap()@ == bytes@),
    {
        let n = bytes.len();
        if n > MAX_ROM_SIZE {
            Err(ConfigurationError::TooLarge(n))
        } else {
            Ok(Rom { bytes })
        }
    }

    /// Gives up the image's bytes.
    pub fn into_bytes(self) -> (r: Vec<u8>)
        ensures
            r@ == self@,
    {
        self.bytes
    }

    pub fn size(&self) -> (r: usize)
        ensures
            r == self@.len(),
    {
        self.bytes.len()
    }

    pub fn bytes(&self) -> (r: &[u8])
        ensures
            r@ == self@,
    {
        self.bytes.as_slice()
    }

    fn header_offset(&self) -> (r: usize)
        requires
            self@.len() >= HEADER_SIZE,
        ensures
            r == header_offset_spec(self@.len()),
            self@.len() <= usize::MAX,
    {
        self.bytes.len() - HEADER_SIZE
    }

    /// Copies `n` bytes starting at `start`.
    fn copy_bytes(&self, start: usize, n: usize) -> (r: Vec<u8>)
        requires
            start + n <= self@.len(),
        ensures
            r@ == field_bytes(self@, start as int, n as int),
    {
        let total = self.bytes.len();
        let mut out: Vec<u8> = Vec::new();
        let mut i: usize = 0;
        while i < n
            invariant
                i <= n,
                start + n <= self.bytes@.len(),
                total == self.bytes@.len(),
                out@ == self.bytes@.subrange(start as int, start + i),
            decreases n - i,
        {
            out.push(self.bytes[start + i]);
            i = i + 1;
            assert(out@ =~= self.bytes@.subrange(start as int, start + i));
        }
        out
    }

    /// The game title: the header's first 20 bytes, decoded as Windows-31J.
    pub fn name(&self) -> (r: Result<String, String>)
        requires
            self@.len() >= HEADER_SIZE,
        ensures
            match r {
                Ok(s) => windows_31j_text(
                    field_bytes(self@, header_offset_spec(self@.len()), TITLE_LEN as int),
                ) == Some(s@),
                Err(_) => windows_31j_text(
                    field_bytes(self@, header_offset_spec(self@.len()), TITLE_LEN as int),
                ).is_none(),
            },
    {
        let name_offset = self.header_offset();
        let name_bytes = self.copy_bytes(name_offset, TITLE_LEN);
        decode_windows_31j(name_bytes.as_slice())
    }

    /// The two-character maker code at header offset 0x19.
    pub fn maker_code(&self) -> (r: Result<String, std::string::FromUtf8Error>)
        requires
            self@.len() >= HEADER_SIZE,
        ensures
            ({
                let b = field_bytes(self@, header_offset_spec(self@.len()) + MAKER_CODE_OFFSET, 2);
                &&& r.is_ok() <==> utf8_text(b).is_some()
                &&& r.is_ok() ==> utf8_text(b) == Some(r.unwrap()@)
                &&& is_ascii(b) ==> r.is_ok() && r.unwrap()@ == ascii_chars(b)
            }),
    {
        let offset = self.header_offset() + MAKER_CODE_OFFSET;
        string_from_utf8(self.copy_bytes(offset, 2))
    }

    /// The two-character game code at header offset 0x1b.
    pub fn game_code(&self) -> (r: Result<String, std::string::FromUtf8Error>)
        requires
            self@.len() >= HEADER_SIZE,
        ensures
            ({
                let b = field_bytes(self@, header_offset_spec(self@.len()) + GAME_CODE_OFFSET, 2);
                &&& r.is_ok() <==> utf8_text(b).is_some()
                &&& r.is_ok() ==> utf8_text(b) == Some(r.unwrap()@)
                &&& is_ascii(b) ==> r.is_ok() && r.unwrap()@ == ascii_chars(b)
            }),
    {
        let offset = self.header_offset() + GAME_CODE_OFFSET;
        string_from_utf8(self.copy_bytes(offset, 2))
    }

    /// The version byte at header offset 0x1f.
    pub fn game_version(&self) -> (r: u8)
        requires
            self@.len() >= HEADER_SIZE,
        ensures
            r == self@[header_offset_spec(self@.len()) + GAME_VERSION_OFFSET],
    {
        let offset = self.header_offset();
        self.bytes[offset + GAME_VERSION_OFFSET]
    }
}

} // verus!
