//! The ELF segment extractor: validates the kernel image's ELF64 header
//! and collects its loadable program headers.
//!
//! The image must be a 64-bit little-endian executable for the x86-64
//! machine type.  Loadable segments are kept in file order, unchanged and
//! unmerged, up to a fixed capacity; a larger image is a fatal boot error.
//! Every field read is specified against the raw bytes, so the extracted
//! segments are exactly what the image declares.

use vstd::prelude::*;

verus! {

/// Largest number of loadable segments the extractor accepts.
pub const MAX_SEGMENTS: usize = 32;

/// Machine type code of x86-64 in an ELF header.
pub const ELF_MACHINE_X86_64: u16 = 62;

/// Size in bytes of an ELF64 program header entry.
pub const PROGRAM_HEADER_SIZE: u64 = 56;

/// One loadable segment as the image's program header declares it.
#[derive(Clone, Copy, PartialEq, Eq, Structural, Debug)]
pub struct ElfSegment {
    /// Virtual address the segment wants to live at.
    pub virtual_address: u64,
    /// Byte offset of the segment's data inside the image.
    pub offset: u64,
    /// Number of bytes the segment occupies in the image.
    pub file_size: u64,
    /// Number of bytes the segment occupies in memory; any tail beyond
    /// `file_size` is zero-filled.
    pub memory_size: u64,
    /// The segment may be read.
    pub readable: bool,
    /// The segment may be written.
    pub writable: bool,
    /// The segment may be executed.
    pub executable: bool,
    /// Declared alignment of the segment.
    pub alignment: u64,
}

/// Errors of kernel image parsing.
#[derive(Clone, Copy, PartialEq, Eq, Structural, Debug)]
pub enum ElfError {
    /// The image is shorter than an ELF64 header.
    TooShort,
    /// The magic bytes are not those of an ELF image.
    BadMagic,
    /// The image is not a 64-bit image.
    Not64Bit,
    /// The image is not little-endian.
    NotLittleEndian,
    /// The image is not for the x86-64 machine type.
    WrongMachine,
    /// The program header table lies outside the image or has an
    /// unexpected entry size.
    BadProgramHeaders,
    /// The image declares more loadable segments than the extractor can
    /// hold.
    TooManySegments,
}

/// The 16-bit little-endian value at byte offset `i`.
pub open spec fn le16(s: Seq<u8>, i: int) -> u16 {
    (s[i] + s[i + 1] * 0x100) as u16
}

/// The 32-bit little-endian value at byte offset `i`.
pub open spec fn le32(s: Seq<u8>, i: int) -> u32 {
    (s[i] + s[i + 1] * 0x100 + s[i + 2] * 0x1_0000 + s[i + 3] * 0x100_0000) as u32
}

/// The 64-bit little-endian value at byte offset `i`.
pub open spec fn le64(s: Seq<u8>, i: int) -> u64 {
    (s[i]
        + s[i + 1] * 0x100
        + s[i + 2] * 0x1_0000
        + s[i + 3] * 0x100_0000
        + s[i + 4] * 0x1_0000_0000
        + s[i + 5] * 0x100_0000_0000
        + s[i + 6] * 0x1_0000_0000_0000
        + s[i + 7] * 0x100_0000_0000_0000) as u64
}

/// The image has a valid ELF64 little-endian x86-64 header.
pub open spec fn header_ok(s: Seq<u8>) -> bool {
    &&& s.len() >= 64
    &&& s[0] == 0x7f && s[1] == 0x45 && s[2] == 0x4c && s[3] == 0x46
    &&& s[4] == 2
    &&& s[5] == 1
    &&& le16(s, 18) == ELF_MACHINE_X86_64
}

/// The declared entry point of the image.
pub open spec fn spec_entry_point(s: Seq<u8>) -> u64 {
    le64(s, 24)
}

/// Byte offset of the program header table.
pub open spec fn ph_offset(s: Seq<u8>) -> u64 {
    le64(s, 32)
}

/// Number of program headers.
pub open spec fn ph_count(s: Seq<u8>) -> u16 {
    le16(s, 56)
}

/// The program header table uses the ELF64 entry size and lies inside
/// the image.
pub open spec fn ph_table_ok(s: Seq<u8>) -> bool {
    &&& le16(s, 54) == PROGRAM_HEADER_SIZE
    &&& ph_offset(s) + (ph_count(s) as int) * (PROGRAM_HEADER_SIZE as int) <= s.len()
}

/// Byte offset of program header `k`.
pub open spec fn ph_base(s: Seq<u8>, k: int) -> int {
    ph_offset(s) + k * (PROGRAM_HEADER_SIZE as int)
}

/// Type code of program header `k`; loadable segments have type 1.
pub open spec fn ph_type(s: Seq<u8>, k: int) -> u32 {
    le32(s, ph_base(s, k))
}

/// The segment program header `k` declares.
pub open spec fn segment_at(s: Seq<u8>, k: int) -> ElfSegment {
    let b = ph_base(s, k);
    let flags = le32(s, b + 4);
    ElfSegment {
        virtual_address: le64(s, b + 16),
        offset: le64(s, b + 8),
        file_size: le64(s, b + 32),
        memory_size: le64(s, b + 40),
        readable: (flags / 4) % 2 == 1,
        writable: (flags / 2) % 2 == 1,
        executable: flags % 2 == 1,
        alignment: le64(s, b + 48),
    }
}

/// The loadable segments among the first `k` program headers, in file
/// order.
pub open spec fn spec_segments_upto(s: Seq<u8>, k: int) -> Seq<ElfSegment>
    decreases k,
{
    if k <= 0 {
        Seq::empty()
    } else {
        spec_segments_upto(s, k - 1)
            + (if ph_type(s, k - 1) == 1 { seq![segment_at(s, k - 1)] } else { Seq::empty() })
    }
}

/// All loadable segments of the image, in file order.
pub open spec fn spec_segments(s: Seq<u8>) -> Seq<ElfSegment> {
    spec_segments_upto(s, ph_count(s) as int)
}

/// Taking more headers never loses segments.
proof fn lemma_segments_upto_mono(s: Seq<u8>, j: int, k: int)
    requires 0 <= j <= k,
    ensures spec_segments_upto(s, j).len() <= spec_segments_upto(s, k).len(),
    decreases k - j,
{
    if j < k {
        lemma_segments_upto_mono(s, j, k - 1);
    }
}

/// The entry point and loadable segments of the kernel image.
#[derive(Debug)]
pub struct KernelInfo {
    /// Virtual address of the kernel's entry point.
    pub entry_point: u64,
    /// The loadable segments, in file order.
    pub segments: Vec<ElfSegment>,
}

/// The 16-bit little-endian value at offset `i` of the image.
fn read_u16(b: &Vec<u8>, i: usize) -> (r: u16)
    requires i + 2 <= b@.len(),
    ensures r == le16(b@, i as int),
{
    let _n = b.len();
    b[i] as u16 + (b[i + 1] as u16) * 0x100
}

/// The 32-bit little-endian value at offset `i` of the image.
fn read_u32(b: &Vec<u8>, i: usize) -> (r: u32)
    requires i + 4 <= b@.len(),
    ensures r == le32(b@, i as int),
{
    let _n = b.len();
    b[i] as u32
        + (b[i + 1] as u32) * 0x100
        + (b[i + 2] as u32) * 0x1_0000
        + (b[i + 3] as u32) * 0x100_0000
}

/// The 64-bit little-endian value at offset `i` of the image.
fn read_u64(b: &Vec<u8>, i: usize) -> (r: u64)
    requires i + 8 <= b@.len(),
    ensures r == le64(b@, i as int),
{
    let _n = b.len();
    b[i] as u64
        + (b[i + 1] as u64) * 0x100
        + (b[i + 2] as u64) * 0x1_0000
        + (b[i + 3] as u64) * 0x100_0000
        + (b[i + 4] as u64) * 0x1_0000_0000
        + (b[i + 5] as u64) * 0x100_0000_0000
        + (b[i + 6] as u64) * 0x1_0000_0000_0000
        + (b[i + 7] as u64) * 0x100_0000_0000_0000
}

/// Validates the kernel image and extracts its entry point and loadable
/// segments.  Succeeds exactly when the header is a 64-bit little-endian
/// x86-64 header, the program header table lies inside the image, and at
/// most `MAX_SEGMENTS` segments are loadable; the segments then are
/// exactly the loadable program headers, in file order.
pub fn parse_kernel(kernel: &Vec<u8>) -> (r: Result<KernelInfo, ElfError>)
    ensures
        r.is_ok() <==> (header_ok(kernel@) && ph_table_ok(kernel@)
            && spec_segments(kernel@).len() <= MAX_SEGMENTS),
        r.is_ok() ==> {
            let info = r.unwrap();
            &&& info.entry_point == spec_entry_point(kernel@)
            &&& info.segments@ == spec_segments(kernel@)
        },
        r == Err::<KernelInfo, ElfError>(ElfError::TooShort) <==> kernel@.len() < 64,
        r == Err::<KernelInfo, ElfError>(ElfError::BadMagic) <==> (kernel@.len() >= 64
            && !(kernel@[0] == 0x7f && kernel@[1] == 0x45 && kernel@[2] == 0x4c
                && kernel@[3] == 0x46)),
        r == Err::<KernelInfo, ElfError>(ElfError::Not64Bit) <==> (kernel@.len() >= 64
            && kernel@[0] == 0x7f && kernel@[1] == 0x45 && kernel@[2] == 0x4c
            && kernel@[3] == 0x46 && kernel@[4] != 2),
        r == Err::<KernelInfo, ElfError>(ElfError::NotLittleEndian) <==> (kernel@.len() >= 64
            && kernel@[0] == 0x7f && kernel@[1] == 0x45 && kernel@[2] == 0x4c
            && kernel@[3] == 0x46 && kernel@[4] == 2 && kernel@[5] != 1),
        r == Err::<KernelInfo, ElfError>(ElfError::WrongMachine) <==> (kernel@.len() >= 64
            && kernel@[0] == 0x7f && kernel@[1] == 0x45 && kernel@[2] == 0x4c
            && kernel@[3] == 0x46 && kernel@[4] == 2 && kernel@[5] == 1
            && le16(kernel@, 18) != ELF_MACHINE_X86_64),
        r == Err::<KernelInfo, ElfError>(ElfError::BadProgramHeaders)
            <==> (header_ok(kernel@) && !ph_table_ok(kernel@)),
        r == Err::<KernelInfo, ElfError>(ElfError::TooManySegments)
            <==> (header_ok(kernel@) && ph_table_ok(kernel@)
                && spec_segments(kernel@).len() > MAX_SEGMENTS),
{
    if kernel.len() < 64 {
        return Err(ElfError::TooShort);
    }
    if !(kernel[0] == 0x7f && kernel[1] == 0x45 && kernel[2] == 0x4c && kernel[3] == 0x46) {
        return Err(ElfError::BadMagic);
    }
    if kernel[4] != 2 {
        return Err(ElfError::Not64Bit);
    }
    if kernel[5] != 1 {
        return Err(ElfError::NotLittleEndian);
    }
    if read_u16(kernel, 18) != ELF_MACHINE_X86_64 {
        return Err(ElfError::WrongMachine);
    }
    let entry_point = read_u64(kernel, 24);
    let phoff = read_u64(kernel, 32);
    let phentsize = read_u16(kernel, 54);
    let phnum = read_u16(kernel, 56);
    let len64 = kernel.len() as u64;
    if phentsize as u64 != PROGRAM_HEADER_SIZE
        || phoff > len64
        || (phnum as u64) * PROGRAM_HEADER_SIZE > len64 - phoff
    {
        return Err(ElfError::BadProgramHeaders);
    }
    let mut segments: Vec<ElfSegment> = Vec::new();
    let mut k: usize = 0;
    let n = phnum as usize;
    while k < n
        invariant
            k <= n,
            n == ph_count(kernel@) as int,
            header_ok(kernel@),
            ph_table_ok(kernel@),
            phoff == ph_offset(kernel@),
            len64 == kernel@.len(),
            kernel@.len() <= usize::MAX,
            segments@ == spec_segments_upto(kernel@, k as int),
            segments@.len() <= MAX_SEGMENTS,
        decreases n - k,
    {
        proof {
            assert((k as u64) * PROGRAM_HEADER_SIZE + PROGRAM_HEADER_SIZE
                == (k as u64 + 1) * PROGRAM_HEADER_SIZE);
            assert((k as u64 + 1) * PROGRAM_HEADER_SIZE <= (n as u64) * PROGRAM_HEADER_SIZE);
        }
        let base64: u64 = phoff + (k as u64) * PROGRAM_HEADER_SIZE;
        let base: usize = base64 as usize;
        proof {
            assert(base == ph_base(kernel@, k as int));
            assert(base + PROGRAM_HEADER_SIZE <= kernel@.len());
        }
        let ptype = read_u32(kernel, base);
        if ptype == 1 {
            if segments.len() >= MAX_SEGMENTS {
                proof {
                    assert(spec_segments_upto(kernel@, k as int + 1).len() > MAX_SEGMENTS);
                    lemma_segments_upto_mono(kernel@, k as int + 1, n as int);
                }
                return Err(ElfError::TooManySegments);
            }
            let flags = read_u32(kernel, base + 4);
            let segment = ElfSegment {
                virtual_address: read_u64(kernel, base + 16),
                offset: read_u64(kernel, base + 8),
                file_size: read_u64(kernel, base + 32),
                memory_size: read_u64(kernel, base + 40),
                readable: (flags / 4) % 2 == 1,
                writable: (flags / 2) % 2 == 1,
                executable: flags % 2 == 1,
                alignment: read_u64(kernel, base + 48),
            };
            segments.push(segment);
            proof {
                assert(segment == segment_at(kernel@, k as int));
                assert(segments@ =~= spec_segments_upto(kernel@, k as int + 1));
            }
        } else {
            proof {
                assert(segments@ =~= spec_segments_upto(kernel@, k as int + 1));
            }
        }
        k += 1;
    }
    Ok(KernelInfo { entry_point, segments })
}

} // verus!
