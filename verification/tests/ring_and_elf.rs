use kernel::elf::{
    assert_elf_header, parse_elf, read_elf, BitWidth, Endianness, Error, ELF32_EHDR_SIZE,
};
use kernel::ring::RingBuf;

#[test]
fn ring_gives_values_back_in_order() {
    let mut ring = RingBuf::<u32, 4>::new();
    assert!(ring.is_empty());
    assert_eq!(ring.push(1), Ok(()));
    assert_eq!(ring.push(2), Ok(()));
    assert_eq!(ring.push(3), Ok(()));
    assert!(!ring.is_empty());
    assert_eq!(ring.pop(), Ok(1));
    assert_eq!(ring.pop(), Ok(2));
    assert_eq!(ring.pop(), Ok(3));
    assert_eq!(ring.pop(), Err(()));
    assert!(ring.is_empty());
}

#[test]
fn ring_holds_one_less_than_its_size() {
    let mut ring = RingBuf::<u32, 4>::new();
    for v in 1..=3 {
        assert_eq!(ring.push(v), Ok(()));
    }
    assert!(ring.is_full());
    assert_eq!(ring.push(4), Err(4));
    assert!(!ring.is_empty());
    assert_eq!(ring.pop(), Ok(1));
    assert_eq!(ring.pop(), Ok(2));
    assert_eq!(ring.pop(), Ok(3));
    assert_eq!(ring.pop(), Err(()));
}

#[test]
fn ring_full_hands_the_value_back() {
    let mut ring = RingBuf::<u32, 4>::new();
    ring.push(1).unwrap();
    ring.push(2).unwrap();
    ring.push(3).unwrap();
    assert_eq!(ring.pop(), Ok(1));
    assert_eq!(ring.pop(), Ok(2));
    assert!(!ring.is_full());
    assert_eq!(ring.push(4), Ok(()));
    assert_eq!(ring.push(5), Ok(()));
    assert!(ring.is_full());
    assert_eq!(ring.push(6), Err(6));
    assert_eq!(ring.pop(), Ok(3));
    assert_eq!(ring.pop(), Ok(4));
    assert_eq!(ring.pop(), Ok(5));
    assert_eq!(ring.pop(), Err(()));
}

fn header(class: u8, data: u8) -> Vec<u8> {
    let mut b = vec![0u8; ELF32_EHDR_SIZE];
    b[0] = 0x7f;
    b[1] = b'E';
    b[2] = b'L';
    b[3] = b'F';
    b[4] = class;
    b[5] = data;
    b[6] = 1;
    b[16] = 2; // e_type
    b[18] = 3; // e_machine
    b[20] = 1; // e_version
    b[24..28].copy_from_slice(&0x0804_8abcu32.to_le_bytes()); // e_entry
    b[44] = 5; // e_phnum
    b
}

#[test]
fn elf_header_too_short() {
    let data = vec![0x7f, b'E', b'L', b'F', 1, 1];
    let e = assert_elf_header(&data).unwrap_err();
    assert!(matches!(e, Error::InsufficientSizeForHeader(6)));
    assert_eq!(
        e.message(),
        "insufficient binary space to fit ELF header with a size of '6'"
    );
    assert!(matches!(parse_elf(&data), Err(Error::InsufficientSizeForHeader(6))));
}

#[test]
fn elf_header_bad_magic() {
    let mut data = header(1, 1);
    data[1] = b'X';
    let e = parse_elf(&data).err().unwrap();
    assert!(matches!(e, Error::InvalidHeaderMagic));
    assert_eq!(e.message(), "invalid header magic");
}

#[test]
fn elf_fields_are_read_little_endian() {
    let owned = parse_elf(&header(1, 1)).ok().unwrap();
    let elf = owned.elf();
    assert_eq!(elf.data_len(), ELF32_EHDR_SIZE);
    assert_eq!(elf.program_bit_width().ok(), Some(BitWidth::W32));
    assert_eq!(elf.program_endianess().ok(), Some(Endianness::Little));
    assert_eq!(elf.program_header_version(), 1);
    assert_eq!(elf.program_elf_version(), 1);
    assert_eq!(elf.program_entry(), 0x0804_8abc);
    let h = elf.get_header();
    assert_eq!(&h.e_ident[..4], &[0x7f, b'E', b'L', b'F']);
    assert_eq!((h.e_type, h.e_machine, h.e_phnum, h.e_shnum), (2, 3, 5, 0));
    elf.sections();
}

#[test]
fn elf_64_bit_big_endian() {
    let owned = parse_elf(&header(2, 2)).ok().unwrap();
    assert_eq!(owned.elf().program_bit_width().ok(), Some(BitWidth::W64));
    assert_eq!(owned.elf().program_endianess().ok(), Some(Endianness::Big));
}

#[test]
fn read_elf_describes_the_header() {
    let owned = parse_elf(&header(1, 1)).ok().unwrap();
    let text = read_elf(owned.elf()).ok().unwrap();
    assert_eq!(
        text,
        "header:\n    magic number: ELF\n    bit width: 32\n    endianness: little\n    ELF version: 1\n    program entry: 0x8048ABC\n"
    );
    let owned = parse_elf(&header(2, 2)).ok().unwrap();
    let text = read_elf(owned.elf()).ok().unwrap();
    assert!(text.contains("    bit width: 64\n    endianness: big\n"));
}

#[test]
fn read_elf_rejects_bad_class() {
    let owned = parse_elf(&header(7, 1)).ok().unwrap();
    match read_elf(owned.elf()) {
        Err(Error::MalformedHeader(m)) => {
            assert_eq!(m, "invalid value for program bit width '7'")
        }
        _ => panic!("expected a malformed header"),
    }
    let e = owned.elf().program_bit_width().err().unwrap();
    assert_eq!(e.message(), "malformed elf 'invalid value for program bit width '7''");
}

#[test]
fn read_elf_rejects_bad_data_encoding() {
    let owned = parse_elf(&header(2, 19)).ok().unwrap();
    match read_elf(owned.elf()) {
        Err(Error::MalformedHeader(m)) => {
            assert_eq!(m, "invalid value for program endianness '19'")
        }
        _ => panic!("expected a malformed header"),
    }
}
