//! The 32-bit ELF file header: checking it, reading its fields, and
//! describing it as text.
//!
//! Multi-byte fields are read in little-endian byte order, the byte order of
//! the x86-64 machines the kernel runs on.
use vstd::prelude::*;
use crate::text::{decimal, hex, push_decimal, push_hex};

verus! {

/// Errors of ELF parsing.
#[derive(Debug)]
pub enum Error {
    InvalidHeaderMagic,
    /// The data is shorter than a header; the data's length.
    InsufficientSizeForHeader(usize),
    MalformedHeader(String),
}

impl Error {
    /// The text shown for the error.
    pub open spec fn text(&self) -> Seq<char> {
        match self {
            Error::InvalidHeaderMagic => "invalid header magic"@,
            Error::InsufficientSizeForHeader(s) => "insufficient binary space to fit ELF header with a size of '"@
                + decimal(*s as nat) + "'"@,
            Error::MalformedHeader(e) => "malformed elf '"@ + e@ + "'"@,
        }
    }

    /// The text shown for the error.
    pub fn message(&self) -> (r: String)
        ensures
            r@ == self.text(),
    {
        match self {
            Error::InvalidHeaderMagic => String::from_str("invalid header magic"),
            Error::InsufficientSizeForHeader(s) => {
                let mut out = String::from_str(
                    "insufficient binary space to fit ELF header with a size of '",
                );
                push_decimal(&mut out, *s as u64);
                out.append("'");
                out
            },
            Error::MalformedHeader(e) => {
                let mut out = String::from_str("malformed elf '");
                out.append(e.as_str());
                out.append("'");
                out
            },
        }
    }
}

/// The number of identification bytes at the start of a header.
pub const EI_NIDENT: usize = 16;
/// The index of the class (bit width) byte.
pub const EI_CLASS: usize = 4;
/// The index of the data encoding (endianness) byte.
pub const EI_DATA: usize = 5;
/// The index of the header version byte.
pub const EI_VERSION: usize = 6;

pub const ELFCLASSNONE: u8 = 0;
pub const ELFCLASS32: u8 = 1;
pub const ELFCLASS64: u8 = 2;

pub const ELFDATANONE: u8 = 0;
pub const ELFDATA2LSB: u8 = 1;
pub const ELFDATA2MSB: u8 = 2;

/// The size of a 32-bit ELF header in bytes.
pub const ELF32_EHDR_SIZE: usize = 52;

/// A 32-bit ELF file header.
#[derive(Debug)]
pub struct Elf32Ehdr {
    pub e_ident: [u8; 16],
    pub e_type: u16,
    pub e_machine: u16,
    pub e_version: u32,
    pub e_entry: u32,
    pub e_phoff: u32,
    pub e_shoff: u32,
    pub e_flags: u32,
    pub e_ehsize: u16,
    pub e_phentsize: u16,
    pub e_phnum: u16,
    pub e_shentsize: u16,
    pub e_shnum: u16,
    pub e_shstrndx: u16,
}

/// A 32-bit ELF section header.
#[derive(Debug)]
pub struct Elf32Shdr {
    pub sh_name: u32,
    pub sh_type: u32,
    pub sh_flags: u32,
    pub sh_addr: u32,
    pub sh_offset: u32,
    pub sh_size: u32,
    pub sh_link: u32,
    pub sh_info: u32,
    pub sh_addralign: u32,
    pub sh_entsize: u32,
}

/// A 64-bit ELF section header (no fields are read yet).
pub struct Elf64Shdr {}

/// A section of either width.
pub enum Section<'a> {
    W32(&'a Elf32Shdr),
    W64(&'a Elf64),
}

/// The program's bit width.
#[derive(Clone, Copy, Debug, PartialEq, Eq, Structural)]
pub enum BitWidth {
    W64,
    W32,
}

/// The program's byte order.
#[derive(Clone, Copy, Debug, PartialEq, Eq, Structural)]
pub enum Endianness {
    Little,
    Big,
}

/// The header version.
#[derive(Clone, Copy, Debug, PartialEq, Eq, Structural)]
pub enum Version {
    Current,
}

/// The 16-bit little-endian value at `off`.
pub open spec fn u16_at(b: Seq<u8>, off: int) -> u16 {
    (b[off] + b[off + 1] * 256) as u16
}

/// The 32-bit little-endian value at `off`.
pub open spec fn u32_at(b: Seq<u8>, off: int) -> u32 {
    (b[off] + b[off + 1] * 256 + b[off + 2] * 65536 + b[off + 3] * 16777216) as u32
}

/// The four bytes an ELF file begins with.
pub open spec fn has_magic(b: Seq<u8>) -> bool {
    b[0] == 0x7f && b[1] == 0x45 && b[2] == 0x4c && b[3] == 0x46
}

/// An ELF file in memory, with a complete header that begins with the magic bytes.
pub struct Elf64 {
    bytes: Vec<u8>,
}

/// An ELF file that owns its bytes.
pub struct ElfOwned(Elf64);

impl Elf64 {
    #[verifier::type_invariant]
    spec fn inv(self) -> bool {
        self.bytes@.len() >= ELF32_EHDR_SIZE && has_magic(self.bytes@)
    }

    /// The bytes of the file.
    pub closed spec fn data(&self) -> Seq<u8> {
        self.bytes@
    }

    /// Every file holds a complete header beginning with the magic bytes.
    pub fn data_len(&self) -> (r: usize)
        ensures
            r == self.data().len(),
            r >= ELF32_EHDR_SIZE,
            has_magic(self.data()),
    {
        proof {
            use_type_invariant(self);
        }
        self.bytes.len()
    }

    fn byte(&self, i: usize) -> (r: u8)
        requires
            i < ELF32_EHDR_SIZE,
        ensures
            r == self.data()[i as int],
    {
        proof {
            use_type_invariant(self);
        }
        self.bytes[i]
    }

    fn read_u16(&self, off: usize) -> (r: u16)
        requires
            off + 2 <= ELF32_EHDR_SIZE,
        ensures
            r == u16_at(self.data(), off as int),
    {
        let b0 = self.byte(off) as u16;
        let b1 = self.byte(off + 1) as u16;
        b0 + b1 * 256
    }

    fn read_u32(&self, off: usize) -> (r: u32)
        requires
            off + 4 <= ELF32_EHDR_SIZE,
        ensures
            r == u32_at(self.data(), off as int),
    {
        let b0 = self.byte(off) as u32;
        let b1 = self.byte(off + 1) as u32;
        let b2 = self.byte(off + 2) as u32;
        let b3 = self.byte(off + 3) as u32;
        b0 + b1 * 256 + b2 * 65536 + b3 * 16777216
    }

    /// The file header.
    pub fn get_header(&self) -> (r: Elf32Ehdr)
        ensures
            forall|i: int| 0 <= i < 16 ==> r.e_ident@[i] == self.data()[i],
            r.e_type == u16_at(self.data(), 16),
            r.e_machine == u16_at(self.data(), 18),
            r.e_version == u32_at(self.data(), 20),
            r.e_entry == u32_at(self.data(), 24),
            r.e_phoff == u32_at(self.data(), 28),
            r.e_shoff == u32_at(self.data(), 32),
            r.e_flags == u32_at(self.data(), 36),
            r.e_ehsize == u16_at(self.data(), 40),
            r.e_phentsize == u16_at(self.data(), 42),
            r.e_phnum == u16_at(self.data(), 44),
            r.e_shentsize == u16_at(self.data(), 46),
            r.e_shnum == u16_at(self.data(), 48),
            r.e_shstrndx == u16_at(self.data(), 50),
    {
        let mut e_ident = [0u8; 16];
        let mut i: usize = 0;
        while i < 16
            invariant
                i <= 16,
                forall|j: int| 0 <= j < i ==> e_ident@[j] == self.data()[j],
            decreases 16 - i,
        {
            e_ident[i] = self.byte(i);
            i = i + 1;
        }
        Elf32Ehdr {
            e_ident,
            e_type: self.read_u16(16),
            e_machine: self.read_u16(18),
            e_version: self.read_u32(20),
            e_entry: self.read_u32(24),
            e_phoff: self.read_u32(28),
            e_shoff: self.read_u32(32),
            e_flags: self.read_u32(36),
            e_ehsize: self.read_u16(40),
            e_phentsize: self.read_u16(42),
            e_phnum: self.read_u16(44),
            e_shentsize: self.read_u16(46),
            e_shnum: self.read_u16(48),
            e_shstrndx: self.read_u16(50),
        }
    }

    /// The program's bit width, from the class byte.
    pub fn program_bit_width(&self) -> (r: Result<BitWidth, Error>)
        ensures
            self.data()[EI_CLASS as int] == ELFCLASS32 ==> r matches Ok(BitWidth::W32),
            self.data()[EI_CLASS as int] == ELFCLASS64 ==> r matches Ok(BitWidth::W64),
            self.data()[EI_CLASS as int] != ELFCLASS32 && self.data()[EI_CLASS as int]
                != ELFCLASS64 ==> (r matches Err(Error::MalformedHeader(m)) && m@
                == bit_width_message(self.data()[EI_CLASS as int])),
    {
        let v = self.byte(EI_CLASS);
        if v == ELFCLASS32 {
            Ok(BitWidth::W32)
        } else if v == ELFCLASS64 {
            Ok(BitWidth::W64)
        } else {
            Err(Error::MalformedHeader(bit_width_error(v)))
        }
    }

    /// The program's byte order, from the data encoding byte.
    pub fn program_endianess(&self) -> (r: Result<Endianness, Error>)
        ensures
            self.data()[EI_DATA as int] == ELFDATA2MSB ==> r matches Ok(Endianness::Big),
            self.data()[EI_DATA as int] == ELFDATA2LSB ==> r matches Ok(Endianness::Little),
            self.data()[EI_DATA as int] != ELFDATA2MSB && self.data()[EI_DATA as int]
                != ELFDATA2LSB ==> (r matches Err(Error::MalformedHeader(m)) && m@
                == endianness_message(self.data()[EI_DATA as int])),
    {
        let v = self.byte(EI_DATA);
        if v == ELFDATA2MSB {
            Ok(Endianness::Big)
        } else if v == ELFDATA2LSB {
            Ok(Endianness::Little)
        } else {
            Err(Error::MalformedHeader(endianness_error(v)))
        }
    }

    /// The header version byte.
    pub fn program_header_version(&self) -> (r: u8)
        ensures
            r == self.data()[EI_VERSION as int],
    {
        self.byte(EI_VERSION)
    }

    /// The file version.
    pub fn program_elf_version(&self) -> (r: u32)
        ensures
            r == u32_at(self.data(), 20),
    {
        self.read_u32(20)
    }

    /// The entry point address.
    pub fn program_entry(&self) -> (r: u32)
        ensures
            r == u32_at(self.data(), 24),
    {
        self.read_u32(24)
    }

    /// The sections of the file; none are read yet.
    pub fn sections(&self) {
    }
}

impl ElfOwned {
    /// The file.
    pub fn elf(&self) -> (r: &Elf64)
        ensures
            r == self.spec_elf(),
    {
        &self.0
    }

    pub closed spec fn spec_elf(&self) -> Elf64 {
        self.0
    }
}

/// The message for an invalid class byte `v`.
pub open spec fn bit_width_message(v: u8) -> Seq<char> {
    "invalid value for program bit width '"@ + decimal(v as nat) + "'"@
}

/// The message for an invalid data encoding byte `v`.
pub open spec fn endianness_message(v: u8) -> Seq<char> {
    "invalid value for program endianness '"@ + decimal(v as nat) + "'"@
}

fn bit_width_error(v: u8) -> (r: String)
    ensures
        r@ == bit_width_message(v),
{
    let mut s = String::from_str("invalid value for program bit width '");
    push_decimal(&mut s, v as u64);
    s.append("'");
    s
}

fn endianness_error(v: u8) -> (r: String)
    ensures
        r@ == endianness_message(v),
{
    let mut s = String::from_str("invalid value for program endianness '");
    push_decimal(&mut s, v as u64);
    s.append("'");
    s
}

/// Checks that `data` is long enough for a header and begins with the magic bytes.
pub fn assert_elf_header(data: &[u8]) -> (r: Result<(), Error>)
    ensures
        data@.len() < ELF32_EHDR_SIZE ==> (r matches Err(Error::InsufficientSizeForHeader(n)) && n
            == data@.len()),
        data@.len() >= ELF32_EHDR_SIZE && !has_magic(data@) ==> r matches Err(
            Error::InvalidHeaderMagic,
        ),
        data@.len() >= ELF32_EHDR_SIZE && has_magic(data@) ==> r is Ok,
{
    if data.len() < ELF32_EHDR_SIZE {
        return Err(Error::InsufficientSizeForHeader(data.len()));
    }
    if data[0] != 0x7f || data[1] != 0x45 || data[2] != 0x4c || data[3] != 0x46 {
        return Err(Error::InvalidHeaderMagic);
    }
    Ok(())
}

/// Checks the header of `data` and takes a copy of the file.
pub fn parse_elf(data: &[u8]) -> (r: Result<ElfOwned, Error>)
    ensures
        data@.len() < ELF32_EHDR_SIZE ==> (r matches Err(Error::InsufficientSizeForHeader(n)) && n
            == data@.len()),
        data@.len() >= ELF32_EHDR_SIZE && !has_magic(data@) ==> r matches Err(
            Error::InvalidHeaderMagic,
        ),
        data@.len() >= ELF32_EHDR_SIZE && has_magic(data@) ==> (r matches Ok(e) && e.spec_elf().data()
            == data@),
{
    assert_elf_header(data)?;
    let mut bytes: Vec<u8> = Vec::new();
    let mut i: usize = 0;
    while i < data.len()
        invariant
            i <= data@.len(),
            bytes@ == data@.subrange(0, i as int),
        decreases data@.len() - i,
    {
        bytes.push(data[i]);
        i = i + 1;
        proof {
            assert(bytes@ =~= data@.subrange(0, i as int));
        }
    }
    proof {
        assert(bytes@ =~= data@);
    }
    Ok(ElfOwned(Elf64 { bytes }))
}

/// The text that `read_elf` gives for a file whose class and data encoding
/// bytes are valid.
pub open spec fn description(d: Seq<u8>) -> Seq<char> {
    "header:\n"@ + "    magic number: ELF\n"@ + "    bit width: "@ + (if d[EI_CLASS as int]
        == ELFCLASS64 {
        "64"@
    } else {
        "32"@
    }) + "\n"@ + "    endianness: "@ + (if d[EI_DATA as int] == ELFDATA2LSB {
        "little"@
    } else {
        "big"@
    }) + "\n"@ + "    ELF version: "@ + decimal(u32_at(d, 20) as nat) + "\n"@
        + "    program entry: 0x"@ + hex(u32_at(d, 24) as nat) + "\n"@
}

/// Describes the header of `elf` as text, one field a line.
pub fn read_elf(elf: &Elf64) -> (r: Result<String, Error>)
    ensures
        ({
            let d = elf.data();
            let c = d[EI_CLASS as int];
            let e = d[EI_DATA as int];
            &&& c != ELFCLASS32 && c != ELFCLASS64 ==> (r matches Err(Error::MalformedHeader(m)) && m@
                == bit_width_message(c))
            &&& (c == ELFCLASS32 || c == ELFCLASS64) && e != ELFDATA2LSB && e != ELFDATA2MSB ==> (r matches Err(
                Error::MalformedHeader(m),
            ) && m@ == endianness_message(e))
            &&& (c == ELFCLASS32 || c == ELFCLASS64) && (e == ELFDATA2LSB || e == ELFDATA2MSB) ==> (r matches Ok(
                s,
            ) && s@ == description(d))
        }),
{
    let mut out = String::from_str("header:\n");
    let ghost d = elf.data();
    let width = match elf.program_bit_width() {
        Ok(w) => w,
        Err(e) => {
            return Err(e);
        },
    };
    let endian = match elf.program_endianess() {
        Ok(e) => e,
        Err(e) => {
            return Err(e);
        },
    };
    out.append("    magic number: ELF\n");
    out.append("    bit width: ");
    match width {
        BitWidth::W64 => out.append("64"),
        BitWidth::W32 => out.append("32"),
    }
    out.append("\n");
    out.append("    endianness: ");
    match endian {
        Endianness::Little => out.append("little"),
        Endianness::Big => out.append("big"),
    }
    out.append("\n");
    out.append("    ELF version: ");
    push_decimal(&mut out, elf.program_elf_version() as u64);
    out.append("\n");
    out.append("    program entry: 0x");
    push_hex(&mut out, elf.program_entry() as u64);
    out.append("\n");
    proof {
        assert(out@ =~= description(d));
    }
    Ok(out)
}

} // verus!
