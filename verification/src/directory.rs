//! The archive header and the lump directory.

use vstd::prelude::*;
use crate::cursor::{le_u32, ByteCursor};
use crate::error::WadError;
use crate::name::{
    is_padded, is_text, lemma_padded_round_trip, name_bytes, padded, text_len, LumpName,
};

verus! {

/// Which of the two accepted tags an archive begins with.
#[derive(Clone, Copy, Debug, PartialEq, Eq, Structural)]
pub enum ArchiveKind {
    /// `IWAD`: a complete game archive.
    Iwad,
    /// `PWAD`: a patch archive.
    Pwad,
}

/// The first twelve bytes of an archive.
#[derive(Clone, Copy, Debug, PartialEq, Eq, Structural)]
pub struct ArchiveHeader {
    /// The tag.
    pub kind: ArchiveKind,
    /// How many records the directory holds.
    pub lump_count: u32,
    /// Where the directory begins.
    pub directory_offset: u32,
}

/// One directory record.
#[derive(Clone, Copy, Debug, PartialEq, Eq)]
pub struct LumpRecord {
    /// Where the lump begins.
    pub offset: u32,
    /// How many bytes the lump has.
    pub size: u32,
    /// The lump's name.
    pub name: LumpName,
}

/// A directory record as plain values: the name is the eight bytes of the
/// field, padded with NUL from the end of its text.
pub struct Record {
    pub offset: int,
    pub size: int,
    pub name: Seq<u8>,
}

impl View for LumpRecord {
    type V = Record;

    open spec fn view(&self) -> Record {
        Record { offset: self.offset as int, size: self.size as int, name: self.name.field() }
    }
}

/// The archive begins with `IWAD`.
pub open spec fn is_iwad(bytes: Seq<u8>) -> bool {
    bytes.len() >= 4 && bytes[0] == 0x49 && bytes[1] == 0x57 && bytes[2] == 0x41 && bytes[3]
        == 0x44
}

/// The archive begins with `PWAD`.
pub open spec fn is_pwad(bytes: Seq<u8>) -> bool {
    bytes.len() >= 4 && bytes[0] == 0x50 && bytes[1] == 0x57 && bytes[2] == 0x41 && bytes[3]
        == 0x44
}

/// What is wrong with the header of `bytes`, if anything. The twelve bytes
/// are read before the tag is looked at.
pub open spec fn header_fault(bytes: Seq<u8>) -> Option<WadError> {
    if bytes.len() < 12 {
        Some(WadError::Truncated)
    } else if !is_iwad(bytes) && !is_pwad(bytes) {
        Some(WadError::BadMagic)
    } else {
        None
    }
}

/// The header that `bytes` begins with.
pub open spec fn header_of(bytes: Seq<u8>) -> ArchiveHeader {
    ArchiveHeader {
        kind: if is_iwad(bytes) {
            ArchiveKind::Iwad
        } else {
            ArchiveKind::Pwad
        },
        lump_count: le_u32(bytes, 4) as u32,
        directory_offset: le_u32(bytes, 8) as u32,
    }
}

/// Reads the archive header.
pub fn read_header(bytes: &[u8]) -> (r: Result<ArchiveHeader, WadError>)
    ensures
        match r {
            Ok(h) => header_fault(bytes@) is None && h == header_of(bytes@),
            Err(e) => header_fault(bytes@) == Some(e),
        },
{
    let mut c = ByteCursor::new(bytes);
    let tag: &[u8] = c.read_bytes(4)?;
    let lump_count: u32 = c.read_u32()?;
    let directory_offset: u32 = c.read_u32()?;
    let wad: bool = tag[1] == 0x57 && tag[2] == 0x41 && tag[3] == 0x44;
    if wad && tag[0] == 0x49 {
        Ok(ArchiveHeader { kind: ArchiveKind::Iwad, lump_count, directory_offset })
    } else if wad && tag[0] == 0x50 {
        Ok(ArchiveHeader { kind: ArchiveKind::Pwad, lump_count, directory_offset })
    } else {
        Err(WadError::BadMagic)
    }
}

/// The name field of record `i` of the directory at `dir`.
pub open spec fn name_field(bytes: Seq<u8>, dir: int, i: int) -> Seq<u8> {
    bytes.subrange(dir + 16 * i + 8, dir + 16 * i + 16)
}

/// Record `i` of the directory at `dir`.
pub open spec fn record_at(bytes: Seq<u8>, dir: int, i: int) -> Record {
    Record {
        offset: le_u32(bytes, dir + 16 * i),
        size: le_u32(bytes, dir + 16 * i + 4),
        name: padded(name_field(bytes, dir, i)),
    }
}

/// What is wrong with the directory of `n` records at `dir`, if anything.
/// The records are read in order, so a name that is not text is reported
/// wherever the record that holds it is complete, and a directory that
/// runs past the end of the archive only where all complete records are
/// good.
pub open spec fn directory_fault(bytes: Seq<u8>, dir: int, n: int) -> Option<WadError> {
    if dir > bytes.len() {
        Some(WadError::OutOfRange)
    } else if exists|i: int|
        0 <= i < n && dir + 16 * (i + 1) <= bytes.len() && !is_text(
            #[trigger] name_field(bytes, dir, i),
        ) {
        Some(WadError::NonTextName)
    } else if dir + 16 * n > bytes.len() {
        Some(WadError::Truncated)
    } else {
        None
    }
}

/// The `n` records of the directory at `dir`, in the order of the archive.
pub open spec fn directory_of(bytes: Seq<u8>, dir: int, n: int) -> Seq<Record> {
    Seq::new(n as nat, |i: int| record_at(bytes, dir, i))
}

/// The records of `lumps` as plain values.
pub open spec fn records(lumps: Seq<LumpRecord>) -> Seq<Record> {
    lumps.map_values(|r: LumpRecord| r@)
}

/// Reads the directory that `header` announces.
pub fn read_directory(bytes: &[u8], header: &ArchiveHeader) -> (r: Result<
    Vec<LumpRecord>,
    WadError,
>)
    ensures
        match r {
            Ok(lumps) => directory_fault(
                bytes@,
                header.directory_offset as int,
                header.lump_count as int,
            ) is None && records(lumps@) == directory_of(
                bytes@,
                header.directory_offset as int,
                header.lump_count as int,
            ),
            Err(e) => directory_fault(
                bytes@,
                header.directory_offset as int,
                header.lump_count as int,
            ) == Some(e),
        },
{
    let ghost dir: int = header.directory_offset as int;
    let ghost n: int = header.lump_count as int;
    let mut c = ByteCursor::new(bytes);
    c.seek(header.directory_offset as u64)?;
    let mut lumps: Vec<LumpRecord> = Vec::new();
    let mut i: u32 = 0;
    while i < header.lump_count
        invariant
            0 <= i <= header.lump_count,
            dir == header.directory_offset as int,
            n == header.lump_count as int,
            c.data() == bytes@,
            c.position() == dir + 16 * i,
            dir + 16 * i <= bytes@.len(),
            lumps@.len() == i,
            forall|j: int|
                0 <= j < i ==> is_text(#[trigger] name_field(bytes@, dir, j)) && lumps@[j]@
                    == record_at(bytes@, dir, j),
        decreases header.lump_count - i,
    {
        let ghost at: int = dir + 16 * i;
        let offset: u32 = c.read_u32()?;
        let size: u32 = c.read_u32()?;
        let field: &[u8] = c.read_bytes(8)?;
        let raw: [u8; 8] = [
            field[0],
            field[1],
            field[2],
            field[3],
            field[4],
            field[5],
            field[6],
            field[7],
        ];
        assert(raw@ =~= name_field(bytes@, dir, i as int));
        let name: LumpName = LumpName::new(&raw)?;
        lumps.push(LumpRecord { offset, size, name });
        i = i + 1;
    }
    Ok(lumps)
}

/// What is wrong with the header or the directory of `bytes`, if anything.
pub open spec fn archive_fault(bytes: Seq<u8>) -> Option<WadError> {
    if header_fault(bytes) is Some {
        header_fault(bytes)
    } else {
        directory_fault(
            bytes,
            header_of(bytes).directory_offset as int,
            header_of(bytes).lump_count as int,
        )
    }
}

/// The directory of the archive `bytes`.
pub open spec fn archive_directory(bytes: Seq<u8>) -> Seq<Record> {
    directory_of(
        bytes,
        header_of(bytes).directory_offset as int,
        header_of(bytes).lump_count as int,
    )
}

/// Reads the header and the directory of an archive. The directory is not
/// looked at where the header is refused.
pub fn parse(bytes: &[u8]) -> (r: Result<(ArchiveHeader, Vec<LumpRecord>), WadError>)
    ensures
        match r {
            Ok((header, lumps)) => archive_fault(bytes@) is None && header == header_of(bytes@)
                && lumps@.len() == header.lump_count && records(lumps@) == archive_directory(
                bytes@,
            ),
            Err(e) => archive_fault(bytes@) == Some(e),
        },
{
    let header: ArchiveHeader = read_header(bytes)?;
    let lumps: Vec<LumpRecord> = read_directory(bytes, &header)?;
    assert(records(lumps@).len() == lumps@.len());
    Ok((header, lumps))
}

/// Of an archive that parses: the directory has as many records as the
/// header announces, and the name of each record, written back into a
/// field of eight bytes, is the field of the archive but for what follows
/// its first NUL. The text is the same byte for byte, and a field that
/// the archive padded with NUL is the same throughout.
pub proof fn lemma_directory_round_trip(bytes: Seq<u8>, i: int)
    requires
        archive_fault(bytes) is None,
        0 <= i < header_of(bytes).lump_count,
    ensures
        archive_directory(bytes).len() == header_of(bytes).lump_count,
        archive_directory(bytes)[i].name.len() == 8,
        name_bytes(archive_directory(bytes)[i].name) == name_bytes(
            name_field(bytes, header_of(bytes).directory_offset as int, i),
        ),
        forall|k: int|
            0 <= k < text_len(name_field(bytes, header_of(bytes).directory_offset as int, i))
                ==> archive_directory(bytes)[i].name[k] == bytes[header_of(bytes).directory_offset
                + 16 * i + 8 + k],
        is_padded(name_field(bytes, header_of(bytes).directory_offset as int, i))
            ==> archive_directory(bytes)[i].name == name_field(
            bytes,
            header_of(bytes).directory_offset as int,
            i,
        ),
{
    let dir = header_of(bytes).directory_offset as int;
    let raw = name_field(bytes, dir, i);
    lemma_padded_round_trip(raw);
    crate::name::lemma_text_len(raw);
}

} // verus!
