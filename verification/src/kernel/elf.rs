//! Minimal ELF64 parser and loader.
//!
//! Supports 64-bit little-endian AArch64 executables with up to four
//! loadable segments.  Nothing is allocated: the result holds the entry
//! point and the segments in a fixed array.

use vstd::prelude::*;

verus! {

/// Size of the ELF64 file header, the least a file must hold.
pub const ELF64_HEADER_SIZE: usize = 64;

/// Size of an ELF64 program header.
pub const ELF64_PHDR_SIZE: usize = 56;

/// ELF class: 64-bit
pub const ELFCLASS64: u8 = 2;

/// ELF data encoding: little-endian
pub const ELFDATA2LSB: u8 = 1;

/// ELF type: executable
pub const ET_EXEC: u16 = 2;

/// ELF machine: AArch64
pub const EM_AARCH64: u16 = 183;

/// Program header type: loadable segment
pub const PT_LOAD: u32 = 1;

/// Maximum number of loadable segments
pub const MAX_SEGMENTS: usize = 4;

/// Segment permission flag: execute
pub const PF_X: u32 = 1;

/// Segment permission flag: write
pub const PF_W: u32 = 2;

/// Segment permission flag: read
pub const PF_R: u32 = 4;

/// A loadable segment of an ELF file.
#[derive(Debug, Clone, Copy)]
pub struct ElfSegment {
    /// Virtual address where the segment is to be loaded
    pub vaddr: u64,
    /// Offset of the segment's data within the file
    pub offset: u64,
    /// Number of bytes to copy from the file
    pub filesz: u64,
    /// Size in memory; what exceeds `filesz` is zero-filled
    pub memsz: u64,
    /// Permission flags
    pub flags: u32,
}

/// Result of parsing an ELF64 file.
#[derive(Debug, Clone, Copy)]
pub struct ElfInfo {
    /// Entry point virtual address
    pub entry: u64,
    /// Loadable segments, the first `num_segments` slots
    pub segments: [Option<ElfSegment>; MAX_SEGMENTS],
    /// Number of segments
    pub num_segments: usize,
}

/// ELF parse error.
#[derive(Debug, PartialEq, Eq, Clone, Copy, Structural)]
pub enum ElfError {
    /// File smaller than the ELF64 header
    TooSmall,
    /// Magic bytes are not 0x7F 'E' 'L' 'F'
    BadMagic,
    /// Not a 64-bit ELF
    Not64Bit,
    /// Not little-endian
    NotLittleEndian,
    /// Not an executable
    NotExecutable,
    /// Not for AArch64
    WrongArch,
    /// More than [`MAX_SEGMENTS`] loadable segments
    TooManySegments,
    /// Segment data extends past the end of the file
    SegmentOutOfBounds,
    /// Program header table extends past the end of the file
    ProgramHeaderOutOfBounds,
}

/// The 16-bit little-endian value at `off`.
pub open spec fn u16_le(data: Seq<u8>, off: int) -> u16 {
    (data[off] as u16) | ((data[off + 1] as u16) << 8)
}

/// The 32-bit little-endian value at `off`.
pub open spec fn u32_le(data: Seq<u8>, off: int) -> u32 {
    (data[off] as u32) | ((data[off + 1] as u32) << 8) | ((data[off + 2] as u32) << 16) | ((data[off
        + 3] as u32) << 24)
}

/// The 64-bit little-endian value at `off`.
pub open spec fn u64_le(data: Seq<u8>, off: int) -> u64 {
    (data[off] as u64) | ((data[off + 1] as u64) << 8) | ((data[off + 2] as u64) << 16) | ((data[off
        + 3] as u64) << 24) | ((data[off + 4] as u64) << 32) | ((data[off + 5] as u64) << 40) | ((
    data[off + 6] as u64) << 48) | ((data[off + 7] as u64) << 56)
}

/// Read a u16 from `data` at `offset` (little-endian).
pub fn read_u16_le(data: &[u8], offset: usize) -> (v: u16)
    requires
        offset + 2 <= data.len(),
    ensures
        v == u16_le(data@, offset as int),
{
    (data[offset] as u16) | ((data[offset + 1] as u16) << 8)
}

/// Read a u32 from `data` at `offset` (little-endian).
pub fn read_u32_le(data: &[u8], offset: usize) -> (v: u32)
    requires
        offset + 4 <= data.len(),
    ensures
        v == u32_le(data@, offset as int),
{
    (data[offset] as u32) | ((data[offset + 1] as u32) << 8) | ((
        data[offset + 2] as u32) << 16) | ((
    data[offset + 3] as u32) << 24)
}

/// Read a u64 from `data` at `offset` (little-endian).
pub fn read_u64_le(data: &[u8], offset: usize) -> (v: u64)
    requires
        offset + 8 <= data.len(),
    ensures
        v == u64_le(data@, offset as int),
{
    (data[offset] as u64) | ((data[offset + 1] as u64) << 8) | ((
        data[offset + 2] as u64) << 16) | ((
    data[offset + 3] as u64) << 24) | ((data[offset + 4] as u64) << 32) | ((data[offset
        + 5] as u64) << 40) | ((data[offset + 6] as u64) << 48) | ((data[offset + 7] as u64) << 56)
}

/// What is wrong with the file header, the first defect in the order of
/// the checks, if any.
pub open spec fn header_error(data: Seq<u8>) -> Option<ElfError> {
    if data.len() < ELF64_HEADER_SIZE {
        Some(ElfError::TooSmall)
    } else if data[0] != 0x7F || data[1] != 0x45 || data[2] != 0x4C || data[3] != 0x46 {
        Some(ElfError::BadMagic)
    } else if data[4] != ELFCLASS64 {
        Some(ElfError::Not64Bit)
    } else if data[5] != ELFDATA2LSB {
        Some(ElfError::NotLittleEndian)
    } else if u16_le(data, 16) != ET_EXEC {
        Some(ElfError::NotExecutable)
    } else if u16_le(data, 18) != EM_AARCH64 {
        Some(ElfError::WrongArch)
    } else if ph_table_end(data) > data.len() {
        Some(ElfError::ProgramHeaderOutOfBounds)
    } else {
        None
    }
}

/// Entry point of the file.
pub open spec fn entry_of(data: Seq<u8>) -> u64 {
    u64_le(data, 24)
}

/// File offset of the program header table.
pub open spec fn ph_off(data: Seq<u8>) -> int {
    u64_le(data, 32) as int
}

/// Size of one entry of the program header table.
pub open spec fn ph_entsize(data: Seq<u8>) -> int {
    u16_le(data, 54) as int
}

/// Number of entries of the program header table.
pub open spec fn ph_num(data: Seq<u8>) -> int {
    u16_le(data, 56) as int
}

/// File offset behind the program header table.
pub open spec fn ph_table_end(data: Seq<u8>) -> int {
    ph_off(data) + ph_num(data) * ph_entsize(data)
}

/// File offset of program header `i`.
pub open spec fn ph_at(data: Seq<u8>, i: int) -> int {
    ph_off(data) + i * ph_entsize(data)
}

/// The segment that the program header at `off` describes.
pub open spec fn segment_at(data: Seq<u8>, off: int) -> ElfSegment {
    ElfSegment {
        vaddr: u64_le(data, off + 16),
        offset: u64_le(data, off + 8),
        filesz: u64_le(data, off + 32),
        memsz: u64_le(data, off + 40),
        flags: u32_le(data, off + 4),
    }
}

/// The loadable segments found so far, extended by what program header
/// `i` holds, or the defect of that header.  A header must lie within
/// the file; a loadable one must find room among the segments and its
/// data must lie within the file.
pub open spec fn with_header(data: Seq<u8>, i: int, segs: Seq<ElfSegment>) -> Result<
    Seq<ElfSegment>,
    ElfError,
> {
    let off = ph_at(data, i);
    if off + ELF64_PHDR_SIZE > data.len() {
        Err(ElfError::ProgramHeaderOutOfBounds)
    } else if u32_le(data, off) != PT_LOAD {
        Ok(segs)
    } else if segs.len() >= MAX_SEGMENTS {
        Err(ElfError::TooManySegments)
    } else if segment_at(data, off).offset + segment_at(data, off).filesz > data.len() {
        Err(ElfError::SegmentOutOfBounds)
    } else {
        Ok(segs.push(segment_at(data, off)))
    }
}

/// The loadable segments among the first `n` program headers, in file
/// order, or the first defect found on the way.
pub open spec fn segments_upto(data: Seq<u8>, n: nat) -> Result<Seq<ElfSegment>, ElfError>
    decreases n,
{
    if n == 0 {
        Ok(Seq::empty())
    } else {
        match segments_upto(data, (n - 1) as nat) {
            Ok(segs) => with_header(data, n - 1, segs),
            Err(e) => Err(e),
        }
    }
}

/// What parsing a file yields: the entry point and the loadable
/// segments, or the first defect of the file.
pub open spec fn parsed(data: Seq<u8>) -> Result<(u64, Seq<ElfSegment>), ElfError> {
    match header_error(data) {
        Some(e) => Err(e),
        None => match segments_upto(data, ph_num(data) as nat) {
            Ok(segs) => Ok((entry_of(data), segs)),
            Err(e) => Err(e),
        },
    }
}

impl ElfInfo {
    /// The first `num_segments` slots hold the segments, the others are
    /// empty.
    pub open spec fn wf(&self) -> bool {
        &&& self.num_segments <= MAX_SEGMENTS
        &&& forall|i: int| 0 <= i < self.num_segments ==> (#[trigger] self.segments[i]).is_some()
        &&& forall|i: int|
            self.num_segments <= i < MAX_SEGMENTS ==> (#[trigger] self.segments[i]).is_none()
    }

    /// The segments, in file order.
    pub open spec fn segs(&self) -> Seq<ElfSegment> {
        Seq::new(self.num_segments as nat, |i: int| self.segments[i].unwrap())
    }
}

/// Parse an ELF64 executable from a byte slice.
///
/// Returns the entry point and the loadable segments, or the first
/// defect found: in the file header first, then in the program headers
/// in file order.
pub fn parse_elf64(data: &[u8]) -> (r: Result<ElfInfo, ElfError>)
    ensures
        match r {
            Ok(info) => info.wf() && parsed(data@) == Ok::<(u64, Seq<ElfSegment>), ElfError>(
                (info.entry, info.segs()),
            ),
            Err(e) => parsed(data@) == Err::<(u64, Seq<ElfSegment>), ElfError>(e),
        },
{
    if data.len() < ELF64_HEADER_SIZE {
        return Err(ElfError::TooSmall);
    }
    if data[0] != 0x7F || data[1] != 0x45 || data[2] != 0x4C || data[3] != 0x46 {
        return Err(ElfError::BadMagic);
    }
    if data[4] != ELFCLASS64 {
        return Err(ElfError::Not64Bit);
    }
    if data[5] != ELFDATA2LSB {
        return Err(ElfError::NotLittleEndian);
    }
    let e_type = read_u16_le(data, 16);
    if e_type != ET_EXEC {
        return Err(ElfError::NotExecutable);
    }
    let e_machine = read_u16_le(data, 18);
    if e_machine != EM_AARCH64 {
        return Err(ElfError::WrongArch);
    }
    let e_entry = read_u64_le(data, 24);

    let e_phoff = read_u64_le(data, 32);
    let e_phentsize = read_u16_le(data, 54) as u64;
    let e_phnum = read_u16_le(data, 56) as u64;
    let len = data.len() as u64;

    assert(e_phnum * e_phentsize <= 0xFFFF * 0xFFFF) by (nonlinear_arith)
        requires
            e_phnum <= 0xFFFF,
            e_phentsize <= 0xFFFF,
    ;
    let table_size = e_phnum * e_phentsize;
    if e_phoff > len || table_size > len - e_phoff {
        return Err(ElfError::ProgramHeaderOutOfBounds);
    }
    let mut segments: [Option<ElfSegment>; MAX_SEGMENTS] = [None; MAX_SEGMENTS];
    let mut num_segments: usize = 0;
    assert(Seq::new(0, |j: int| segments[j].unwrap()) =~= Seq::<ElfSegment>::empty());

    let mut i: u64 = 0;
    while i < e_phnum
        invariant
            i <= e_phnum,
            len == data.len(),
            header_error(data@).is_none(),
            e_phoff == ph_off(data@),
            e_phentsize == ph_entsize(data@),
            e_phnum == ph_num(data@),
            e_phnum <= 0xFFFF,
            e_phentsize <= 0xFFFF,
            e_phoff + e_phnum * e_phentsize <= len,
            num_segments <= MAX_SEGMENTS,
            forall|j: int| 0 <= j < num_segments ==> (#[trigger] segments[j]).is_some(),
            forall|j: int| num_segments <= j < MAX_SEGMENTS ==> (#[trigger] segments[j]).is_none(),
            segments_upto(data@, i as nat) == Ok::<Seq<ElfSegment>, ElfError>(
                Seq::new(num_segments as nat, |j: int| segments[j].unwrap()),
            ),
        decreases e_phnum - i,
    {
        assert(i * e_phentsize <= e_phnum * e_phentsize) by (nonlinear_arith)
            requires
                i <= e_phnum,
                0 <= e_phentsize,
        ;
        let ph_offset = e_phoff + i * e_phentsize;
        let ghost segs = Seq::new(num_segments as nat, |j: int| segments[j].unwrap());
        assert(ph_offset == ph_at(data@, i as int));

        if len - ph_offset < 56 {
            proof {
                lemma_segments_error_stays(data@, (i + 1) as nat, e_phnum as nat);
            }
            return Err(ElfError::ProgramHeaderOutOfBounds);
        }
        let off = ph_offset as usize;
        let p_type = read_u32_le(data, off);

        if p_type == PT_LOAD {
            if num_segments >= MAX_SEGMENTS {
                proof {
                    lemma_segments_error_stays(data@, (i + 1) as nat, e_phnum as nat);
                }
                return Err(ElfError::TooManySegments);
            }
            let p_flags = read_u32_le(data, off + 4);
            let p_offset = read_u64_le(data, off + 8);
            let p_vaddr = read_u64_le(data, off + 16);
            let p_filesz = read_u64_le(data, off + 32);
            let p_memsz = read_u64_le(data, off + 40);

            if p_offset > len || p_filesz > len - p_offset {
                proof {
                    lemma_segments_error_stays(data@, (i + 1) as nat, e_phnum as nat);
                }
                return Err(ElfError::SegmentOutOfBounds);
            }
            segments[num_segments] = Some(
                ElfSegment {
                    vaddr: p_vaddr,
                    offset: p_offset,
                    filesz: p_filesz,
                    memsz: p_memsz,
                    flags: p_flags,
                },
            );
            num_segments += 1;
            assert(Seq::new(num_segments as nat, |j: int| segments[j].unwrap()) =~= segs.push(
                segment_at(data@, off as int),
            ));
        }
        i += 1;
    }
    Ok(ElfInfo { entry: e_entry, segments, num_segments })
}

/// Once a program header has a defect, looking at more headers finds
/// the same defect.
pub proof fn lemma_segments_error_stays(data: Seq<u8>, n: nat, m: nat)
    requires
        n <= m,
        segments_upto(data, n).is_err(),
    ensures
        segments_upto(data, m) == segments_upto(data, n),
    decreases m,
{
    if n < m {
        lemma_segments_error_stays(data, n, (m - 1) as nat);
    }
}

/// Why an ELF file cannot be loaded.
#[derive(Debug, PartialEq, Eq, Clone, Copy, Structural)]
pub enum ElfLoadError {
    /// A segment starts below the load region, or the entry point lies
    /// outside it
    VaddrOutOfRange,
    /// A segment extends past the end of the load region
    SegmentTooLarge,
    /// A segment is both writable and executable
    WxViolation,
    /// The file has no loadable segment
    NoSegments,
}

/// The segment may be both written and executed.
pub open spec fn writable_and_executable(flags: u32) -> bool {
    flags & PF_W != 0 && flags & PF_X != 0
}

/// Why one segment cannot be loaded into the region from `base` up to
/// `end`, if it cannot.
pub open spec fn segment_error(seg: ElfSegment, base: u64, end: u64) -> Option<ElfLoadError> {
    if writable_and_executable(seg.flags) {
        Some(ElfLoadError::WxViolation)
    } else if seg.vaddr < base {
        Some(ElfLoadError::VaddrOutOfRange)
    } else if seg.vaddr + seg.memsz > end {
        Some(ElfLoadError::SegmentTooLarge)
    } else {
        None
    }
}

/// The defect of the first of the first `n` segment slots that has one.
/// An empty slot has none.
pub open spec fn first_segment_error(
    segments: Seq<Option<ElfSegment>>,
    n: nat,
    base: u64,
    end: u64,
) -> Option<ElfLoadError>
    decreases n,
{
    if n == 0 {
        None
    } else {
        match first_segment_error(segments, (n - 1) as nat, base, end) {
            Some(e) => Some(e),
            None => match segments[n - 1] {
                Some(seg) => segment_error(seg, base, end),
                None => None,
            },
        }
    }
}

/// Why `info` cannot be loaded into the region of `load_size` bytes at
/// `load_base`, if it cannot: it has no segment, or a segment has a
/// defect (the first one counts), or the entry point lies outside the
/// region.
pub open spec fn load_error(info: ElfInfo, load_base: u64, load_size: u64) -> Option<
    ElfLoadError,
> {
    let end = (load_base + load_size) as u64;
    if info.num_segments == 0 {
        Some(ElfLoadError::NoSegments)
    } else if first_segment_error(info.segments@, info.num_segments as nat, load_base, end)
        .is_some() {
        first_segment_error(info.segments@, info.num_segments as nat, load_base, end)
    } else if info.entry < load_base || info.entry >= end {
        Some(ElfLoadError::VaddrOutOfRange)
    } else {
        None
    }
}

/// Validate that an ELF file can be loaded into the region of
/// `load_size` bytes at `load_base`: it has a segment, no segment is
/// both writable and executable, every segment lies within the region,
/// and so does the entry point.
pub fn validate_elf_for_load(info: &ElfInfo, load_base: u64, load_size: u64) -> (r: Result<
    (),
    ElfLoadError,
>)
    requires
        info.num_segments <= MAX_SEGMENTS,
        load_base + load_size <= u64::MAX,
    ensures
        match r {
            Ok(_) => load_error(*info, load_base, load_size).is_none(),
            Err(e) => load_error(*info, load_base, load_size) == Some(e),
        },
{
    if info.num_segments == 0 {
        return Err(ElfLoadError::NoSegments);
    }
    let load_end = load_base + load_size;

    let mut i: usize = 0;
    while i < info.num_segments
        invariant
            i <= info.num_segments <= MAX_SEGMENTS,
            load_end == load_base + load_size,
            first_segment_error(info.segments@, i as nat, load_base, load_end).is_none(),
        decreases info.num_segments - i,
    {
        match info.segments[i] {
            Some(seg) => {
                if (seg.flags & PF_W != 0) && (seg.flags & PF_X != 0) {
                    proof {
                        lemma_error_stays(
                            info.segments@,
                            (i + 1) as nat,
                            info.num_segments as nat,
                            load_base,
                            load_end,
                        );
                    }
                    return Err(ElfLoadError::WxViolation);
                }
                if seg.vaddr < load_base {
                    proof {
                        lemma_error_stays(
                            info.segments@,
                            (i + 1) as nat,
                            info.num_segments as nat,
                            load_base,
                            load_end,
                        );
                    }
                    return Err(ElfLoadError::VaddrOutOfRange);
                }
                if seg.vaddr > load_end || seg.memsz > load_end - seg.vaddr {
                    proof {
                        lemma_error_stays(
                            info.segments@,
                            (i + 1) as nat,
                            info.num_segments as nat,
                            load_base,
                            load_end,
                        );
                    }
                    return Err(ElfLoadError::SegmentTooLarge);
                }
            },
            None => {},
        }
        i += 1;
    }
    if info.entry < load_base || info.entry >= load_end {
        return Err(ElfLoadError::VaddrOutOfRange);
    }
    Ok(())
}

/// Once a segment has a defect, looking at more segments finds the
/// same defect.
pub proof fn lemma_error_stays(
    segments: Seq<Option<ElfSegment>>,
    n: nat,
    m: nat,
    base: u64,
    end: u64,
)
    requires
        n <= m,
        first_segment_error(segments, n, base, end).is_some(),
    ensures
        first_segment_error(segments, m, base, end) == first_segment_error(segments, n, base, end),
    decreases m,
{
    if n < m {
        lemma_error_stays(segments, n, (m - 1) as nat, base, end);
    }
}

/// The data of every segment among the first slots lies within the
/// file, and no segment has more data in the file than room in memory.
pub open spec fn segments_in_file(info: ElfInfo, elf: Seq<u8>) -> bool {
    forall|i: int|
        0 <= i < info.num_segments ==> ((#[trigger] info.segments[i]) matches Some(seg)
            ==> seg.offset + seg.filesz <= elf.len() && seg.filesz <= seg.memsz)
}

/// Whether [`segments_in_file`] holds.
pub fn check_segments_in_file(info: &ElfInfo, elf_data: &[u8]) -> (ok: bool)
    requires
        info.num_segments <= MAX_SEGMENTS,
    ensures
        ok == segments_in_file(*info, elf_data@),
{
    let len = elf_data.len() as u64;
    let mut i: usize = 0;
    while i < info.num_segments
        invariant
            i <= info.num_segments <= MAX_SEGMENTS,
            len == elf_data.len(),
            forall|j: int|
                0 <= j < i ==> ((#[trigger] info.segments[j]) matches Some(seg) ==> seg.offset
                    + seg.filesz <= elf_data@.len() && seg.filesz <= seg.memsz),
        decreases info.num_segments - i,
    {
        match info.segments[i] {
            Some(seg) => {
                if seg.offset > len || seg.filesz > len - seg.offset || seg.filesz > seg.memsz {
                    return false;
                }
            },
            None => {},
        }
        i += 1;
    }
    true
}

/// The memory `dest`, which starts at address `dest_vaddr`, with one
/// segment loaded: the segment's data copied from the file to the
/// segment's address, and the rest of the segment's memory zero.
pub open spec fn with_segment(dest: Seq<u8>, elf: Seq<u8>, seg: ElfSegment, dest_vaddr: u64) -> Seq<
    u8,
> {
    let start = seg.vaddr - dest_vaddr;
    Seq::new(
        dest.len(),
        |i: int|
            if start <= i < start + seg.filesz {
                elf[seg.offset + (i - start)]
            } else if start + seg.filesz <= i < start + seg.memsz {
                0u8
            } else {
                dest[i]
            },
    )
}

/// The memory `dest` with the segments of the first `n` slots loaded,
/// one after the other.
pub open spec fn loaded_upto(
    dest: Seq<u8>,
    elf: Seq<u8>,
    segments: Seq<Option<ElfSegment>>,
    n: nat,
    dest_vaddr: u64,
) -> Seq<u8>
    decreases n,
{
    if n == 0 {
        dest
    } else {
        let before = loaded_upto(dest, elf, segments, (n - 1) as nat, dest_vaddr);
        match segments[n - 1] {
            Some(seg) => with_segment(before, elf, seg, dest_vaddr),
            None => before,
        }
    }
}

/// If the first `n` slots have no defect, none of them has.
pub proof fn lemma_no_segment_error(
    segments: Seq<Option<ElfSegment>>,
    n: nat,
    base: u64,
    end: u64,
    i: int,
)
    requires
        first_segment_error(segments, n, base, end).is_none(),
        0 <= i < n,
    ensures
        segments[i] matches Some(seg) ==> segment_error(seg, base, end).is_none(),
    decreases n,
{
    if i < n - 1 {
        lemma_no_segment_error(segments, (n - 1) as nat, base, end, i);
    }
}

/// Load the segments of an ELF file into memory.
///
/// `dest` is the memory that starts at address `dest_vaddr`.  The load
/// is validated as by [`validate_elf_for_load`] before anything is
/// written; then each segment's data is copied from the file to its
/// place and the rest of the segment's memory is zeroed.  Returns the
/// entry point.
pub fn load_elf_segments<const N: usize>(
    elf_data: &[u8],
    info: &ElfInfo,
    dest: &mut [u8; N],
    dest_vaddr: u64,
) -> (r: Result<u64, ElfLoadError>)
    requires
        info.num_segments <= MAX_SEGMENTS,
        dest_vaddr + N <= u64::MAX,
        segments_in_file(*info, elf_data@),
    ensures
        match r {
            Ok(entry) => load_error(*info, dest_vaddr, N as u64).is_none() && entry == info.entry
                && final(dest)@ == loaded_upto(
                old(dest)@,
                elf_data@,
                info.segments@,
                info.num_segments as nat,
                dest_vaddr,
            ),
            Err(e) => load_error(*info, dest_vaddr, N as u64) == Some(e)
                && final(dest)@ == old(dest)@,
        },
{
    let size = N as u64;
    match validate_elf_for_load(info, dest_vaddr, size) {
        Err(e) => {
            return Err(e);
        },
        Ok(_) => {},
    }
    let ghost end = (dest_vaddr + size) as u64;
    let elf_len = elf_data.len();
    let mut i: usize = 0;
    while i < info.num_segments
        invariant
            i <= info.num_segments <= MAX_SEGMENTS,
            elf_len == elf_data@.len(),
            size == N,
            end == dest_vaddr + size,
            segments_in_file(*info, elf_data@),
            first_segment_error(info.segments@, info.num_segments as nat, dest_vaddr, end)
                .is_none(),
            dest@ == loaded_upto(old(dest)@, elf_data@, info.segments@, i as nat, dest_vaddr),
        decreases info.num_segments - i,
    {
        match info.segments[i] {
            Some(seg) => {
                proof {
                    lemma_no_segment_error(
                        info.segments@,
                        info.num_segments as nat,
                        dest_vaddr,
                        end,
                        i as int,
                    );
                    assert(info.segments[i as int] == Some(seg));
                    assert(info.segments@[i as int] == Some(seg));
                    assert(seg.offset + seg.filesz <= elf_data@.len() && seg.filesz <= seg.memsz);
                    assert(segment_error(seg, dest_vaddr, end).is_none());
                }
                let start = (seg.vaddr - dest_vaddr) as usize;
                let filesz = seg.filesz as usize;
                let memsz = seg.memsz as usize;
                let src = seg.offset as usize;
                let ghost before = dest@;
                let mut j: usize = 0;
                while j < filesz
                    invariant
                        j <= filesz <= memsz,
                        start + memsz <= N,
                        src + filesz <= elf_len == elf_data@.len(),
                        forall|t: int| 0 <= t < start ==> dest@[t] == before[t],
                        forall|t: int| start <= t < start + j
                            ==> dest@[t] == elf_data@[src + (t - start)],
                        forall|t: int| start + j <= t < N ==> dest@[t] == before[t],
                    decreases filesz - j,
                {
                    dest[start + j] = elf_data[src + j];
                    j += 1;
                }
                let mut z: usize = filesz;
                while z < memsz
                    invariant
                        filesz <= z <= memsz,
                        start + memsz <= N,
                        src + filesz <= elf_data@.len(),
                        forall|t: int| 0 <= t < start ==> dest@[t] == before[t],
                        forall|t: int|
                            start <= t < start + filesz
                                ==> dest@[t] == elf_data@[src + (t - start)],
                        forall|t: int| start + filesz <= t < start + z ==> dest@[t] == 0,
                        forall|t: int| start + z <= t < N ==> dest@[t] == before[t],
                    decreases memsz - z,
                {
                    dest[start + z] = 0;
                    z += 1;
                }
                assert(dest@ =~= with_segment(before, elf_data@, seg, dest_vaddr));
            },
            None => {},
        }
        i += 1;
    }
    Ok(info.entry)
}

} // verus!
