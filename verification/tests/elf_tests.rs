//! Tests of the ELF extractor against hand-built images.

use bootcore::elf::{parse_kernel, ElfError, MAX_SEGMENTS};

fn put_u16(image: &mut Vec<u8>, off: usize, x: u16) {
    image[off] = (x & 0xff) as u8;
    image[off + 1] = (x >> 8) as u8;
}

fn put_u32(image: &mut Vec<u8>, off: usize, x: u32) {
    for k in 0..4 {
        image[off + k] = ((x >> (8 * k)) & 0xff) as u8;
    }
}

fn put_u64(image: &mut Vec<u8>, off: usize, x: u64) {
    for k in 0..8 {
        image[off + k] = ((x >> (8 * k)) & 0xff) as u8;
    }
}

/// A minimal ELF64 header with `phnum` program headers right after it.
fn empty_image(size: usize, phnum: u16) -> Vec<u8> {
    let mut image = vec![0u8; size];
    image[0] = 0x7f;
    image[1] = 0x45;
    image[2] = 0x4c;
    image[3] = 0x46;
    image[4] = 2; // 64-bit
    image[5] = 1; // little-endian
    put_u16(&mut image, 18, 62); // x86-64
    put_u64(&mut image, 24, 0xffff_8000_0000_0000); // entry point
    put_u64(&mut image, 32, 64); // program header table offset
    put_u16(&mut image, 54, 56); // program header entry size
    put_u16(&mut image, 56, phnum);
    image
}

fn put_program_header(
    image: &mut Vec<u8>,
    index: usize,
    ptype: u32,
    flags: u32,
    offset: u64,
    vaddr: u64,
    filesz: u64,
    memsz: u64,
    align: u64,
) {
    let base = 64 + 56 * index;
    put_u32(image, base, ptype);
    put_u32(image, base + 4, flags);
    put_u64(image, base + 8, offset);
    put_u64(image, base + 16, vaddr);
    put_u64(image, base + 32, filesz);
    put_u64(image, base + 40, memsz);
    put_u64(image, base + 48, align);
}

#[test]
fn parses_loadable_segments_in_order() {
    let mut image = empty_image(0x1000, 3);
    put_program_header(&mut image, 0, 1, 0x6, 0x200, 0x1000, 0x80, 0x100, 0x1000);
    put_program_header(&mut image, 1, 4, 0x4, 0x300, 0x2000, 0x10, 0x10, 0x8);
    put_program_header(&mut image, 2, 1, 0x5, 0x400, 0x3000, 0x40, 0x40, 0x1000);
    let info = parse_kernel(&image).unwrap();
    assert_eq!(info.entry_point, 0xffff_8000_0000_0000);
    assert_eq!(info.segments.len(), 2);
    let a = &info.segments[0];
    assert_eq!(a.virtual_address, 0x1000);
    assert_eq!(a.offset, 0x200);
    assert_eq!(a.file_size, 0x80);
    assert_eq!(a.memory_size, 0x100);
    assert!(a.readable && a.writable && !a.executable);
    assert_eq!(a.alignment, 0x1000);
    let b = &info.segments[1];
    assert_eq!(b.virtual_address, 0x3000);
    assert!(b.readable && !b.writable && b.executable);
}

#[test]
fn rejects_short_image() {
    let image = vec![0u8; 32];
    assert_eq!(parse_kernel(&image).unwrap_err(), ElfError::TooShort);
}

#[test]
fn rejects_bad_magic() {
    let mut image = empty_image(0x1000, 0);
    image[1] = 0x45 + 1;
    assert_eq!(parse_kernel(&image).unwrap_err(), ElfError::BadMagic);
}

#[test]
fn rejects_32_bit_image() {
    let mut image = empty_image(0x1000, 0);
    image[4] = 1;
    assert_eq!(parse_kernel(&image).unwrap_err(), ElfError::Not64Bit);
}

#[test]
fn rejects_big_endian_image() {
    let mut image = empty_image(0x1000, 0);
    image[5] = 2;
    assert_eq!(parse_kernel(&image).unwrap_err(), ElfError::NotLittleEndian);
}

#[test]
fn rejects_wrong_machine() {
    let mut image = empty_image(0x1000, 0);
    put_u16(&mut image, 18, 40);
    assert_eq!(parse_kernel(&image).unwrap_err(), ElfError::WrongMachine);
}

#[test]
fn rejects_program_headers_outside_image() {
    let mut image = empty_image(0x1000, 2);
    put_u64(&mut image, 32, 0xFA0); // table would cross the end
    assert_eq!(parse_kernel(&image).unwrap_err(), ElfError::BadProgramHeaders);
}

#[test]
fn rejects_too_many_segments() {
    let count = (MAX_SEGMENTS + 1) as u16;
    let mut image = empty_image(64 + 56 * (MAX_SEGMENTS + 1), count);
    for i in 0..(MAX_SEGMENTS + 1) {
        put_program_header(&mut image, i, 1, 0x4, 0, (i as u64) * 0x1000, 0, 0x10, 0x1000);
    }
    assert_eq!(parse_kernel(&image).unwrap_err(), ElfError::TooManySegments);
}

#[test]
fn agrees_with_an_independent_elf_reader() {
    // The same image, read by an independent ELF library: entry point
    // and every loadable segment field must agree.
    let mut image = empty_image(0x1000, 3);
    put_program_header(&mut image, 0, 1, 0x6, 0x200, 0x1000, 0x80, 0x180, 0x1000);
    put_program_header(&mut image, 1, 6, 0x4, 0x300, 0x2000, 0x10, 0x10, 0x8);
    put_program_header(&mut image, 2, 1, 0x5, 0x400, 0x3000, 0x40, 0x40, 0x1000);
    let info = parse_kernel(&image).unwrap();

    let elf = xmas_elf::ElfFile::new(&image).unwrap();
    assert_eq!(info.entry_point, elf.header.pt2.entry_point());
    let mut loadable = Vec::new();
    for ph in elf.program_iter() {
        if ph.get_type() == Ok(xmas_elf::program::Type::Load) {
            loadable.push(ph);
        }
    }
    assert_eq!(info.segments.len(), loadable.len());
    for (seg, ph) in info.segments.iter().zip(loadable.iter()) {
        assert_eq!(seg.virtual_address, ph.virtual_addr());
        assert_eq!(seg.offset, ph.offset());
        assert_eq!(seg.file_size, ph.file_size());
        assert_eq!(seg.memory_size, ph.mem_size());
        assert_eq!(seg.readable, ph.flags().is_read());
        assert_eq!(seg.writable, ph.flags().is_write());
        assert_eq!(seg.executable, ph.flags().is_execute());
        assert_eq!(seg.alignment, ph.align());
    }
}
