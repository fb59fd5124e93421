//! The two container layouts: telling them apart, reading their tables, and
//! extracting their entries into an output.

use crate::output::{created, written, FileModel, Output, OutputModel};
use crate::paths::{lemma_extraction_keeps_tidy, lemma_transferred_keeps_tidy, tidy_output};
use crate::decode::{decode_name, decode_wide_name, name_warnings, narrow_name, wide_name};
use crate::inflate::{inflate, zlib_stream};
use crate::report::{warning_models, ExtractError, Warning, WarningModel};
use crate::wire::{bytes_at, bytes_eq, has_bytes, le_u16, le_u32, window, ByteReader};
use vstd::prelude::*;

verus! {

/// The kind of a container.
#[allow(non_camel_case_types)]
#[derive(Copy, Clone, Debug, PartialEq, Eq)]
pub enum ArchiveType {
    /// The flat layout: one table of names, offsets and lengths.
    Archive_012M,
    /// The nested layout: a header block of entries with directories.
    Archive_Ph3,
    /// Neither of them.
    NotAnArchive,
}

/// The signature of the flat layout: `PACK_FILE` and a zero byte.
pub const ARCHIVE_012M_MAGIC: [u8; 10] = [0x50, 0x41, 0x43, 0x4b, 0x5f, 0x46, 0x49, 0x4c, 0x45, 0x00];

/// The signature of the nested layout: `ArchiveFile`.
pub const ARCHIVE_PH3_MAGIC: [u8; 11] = [
    0x41,
    0x72,
    0x63,
    0x68,
    0x69,
    0x76,
    0x65,
    0x46,
    0x69,
    0x6c,
    0x65,
];

/// The marker before a compressed entry of the flat layout: `COMPRESS_ZIP` and a zero byte.
pub const COMPRESS_ZIP_MAGIC: [u8; 13] = [
    0x43,
    0x4f,
    0x4d,
    0x50,
    0x52,
    0x45,
    0x53,
    0x53,
    0x5f,
    0x5a,
    0x49,
    0x50,
    0x00,
];

/// `data` begins with the bytes `magic`.
pub open spec fn starts_with(data: Seq<u8>, magic: Seq<u8>) -> bool {
    magic.len() <= data.len() && data.take(magic.len() as int) == magic
}

/// The kind of the container `data`, told by its first bytes.
pub open spec fn classify(data: Seq<u8>) -> ArchiveType {
    if starts_with(data, ARCHIVE_012M_MAGIC@) {
        ArchiveType::Archive_012M
    } else if starts_with(data, ARCHIVE_PH3_MAGIC@) {
        ArchiveType::Archive_Ph3
    } else {
        ArchiveType::NotAnArchive
    }
}

/// The kind of a container is told by its first eleven bytes alone: two
/// containers that begin alike are of one kind. So asking twice about one
/// container gives one answer.
pub proof fn lemma_classify_by_prefix(a: Seq<u8>, b: Seq<u8>)
    requires
        a.len() >= 11 ==> b.len() >= 11 && a.take(11) == b.take(11),
        a.len() < 11 ==> a == b,
    ensures
        classify(a) == classify(b),
{
    if a.len() >= 11 {
        assert(a.take(10) =~= a.take(11).take(10));
        assert(b.take(10) =~= b.take(11).take(10));
    }
}

/// Compares the next bytes with `header`, and moves the cursor behind them.
/// Where fewer bytes than `header` holds are left, nothing is read.
pub fn check_archive_header_no_seek(reader: &mut ByteReader, header: &[u8]) -> (found: Result<
    bool,
    ExtractError,
>)
    requires
        old(reader).wf(),
    ensures
        final(reader).wf(),
        final(reader).source() == old(reader).source(),
        found matches Ok(same) ==> has_bytes(
            old(reader).source(),
            old(reader).position(),
            header@.len() as int,
        ) && same == starts_with(old(reader).remaining(), header@) && final(reader).position()
            == old(reader).position() + header@.len(),
        found matches Err(e) ==> e == ExtractError::UnexpectedEof && !has_bytes(
            old(reader).source(),
            old(reader).position(),
            header@.len() as int,
        ) && !starts_with(old(reader).remaining(), header@) && final(reader).position() == old(
            reader,
        ).position(),
{
    match reader.read_exact(header.len()) {
        Ok(bytes) => {
            assert(bytes@ =~= old(reader).remaining().take(header@.len() as int));
            Ok(bytes_eq(bytes, header))
        },
        Err(e) => Err(e),
    }
}

/// Compares the first bytes of the container with `header`, and moves the cursor behind them.
pub fn check_archive_header(reader: &mut ByteReader, header: &[u8]) -> (found: Result<
    bool,
    ExtractError,
>)
    requires
        old(reader).wf(),
    ensures
        final(reader).wf(),
        final(reader).source() == old(reader).source(),
        found matches Ok(same) ==> header@.len() <= old(reader).source().len() && same
            == starts_with(old(reader).source(), header@) && final(reader).position()
            == header@.len(),
        found matches Err(e) ==> e == ExtractError::UnexpectedEof && header@.len() > old(
            reader,
        ).source().len() && !starts_with(old(reader).source(), header@),
{
    reader.seek(0);
    assert(reader.remaining() =~= reader.source());
    check_archive_header_no_seek(reader, header)
}

/// Tells the kind of the container `data`: the flat layout where it begins
/// with that layout's signature, else the nested layout where it begins with
/// that one's, else neither. A container too short to hold a signature does
/// not begin with it.
pub fn determine_archive_type(data: &[u8]) -> (kind: ArchiveType)
    ensures
        kind == classify(data@),
        kind == ArchiveType::Archive_012M <==> starts_with(data@, ARCHIVE_012M_MAGIC@),
        kind == ArchiveType::Archive_Ph3 <==> !starts_with(data@, ARCHIVE_012M_MAGIC@)
            && starts_with(data@, ARCHIVE_PH3_MAGIC@),
{
    let mut reader = ByteReader::new(data);
    let flat = match check_archive_header(&mut reader, &ARCHIVE_012M_MAGIC) {
        Ok(same) => same,
        Err(_) => false,
    };
    if flat {
        ArchiveType::Archive_012M
    } else {
        let nested = match check_archive_header(&mut reader, &ARCHIVE_PH3_MAGIC) {
            Ok(same) => same,
            Err(_) => false,
        };
        if nested {
            ArchiveType::Archive_Ph3
        } else {
            ArchiveType::NotAnArchive
        }
    }
}

/// How many bytes are asked of a compressed payload whose declared size is
/// `size`: one more, which tells whether the payload is longer than declared.
pub open spec fn probe_limit(size: u64) -> u64 {
    if size < u64::MAX {
        (size + 1) as u64
    } else {
        u64::MAX
    }
}

/// How many bytes are asked of a compressed payload whose declared size is `size`.
pub fn limit_for(size: u64) -> (limit: u64)
    ensures
        limit == probe_limit(size),
{
    if size < u64::MAX {
        size + 1
    } else {
        u64::MAX
    }
}

/// The size of the pieces in which an entry's payload is copied: 64 KiB.
pub const BUFFER_SIZE: usize = 0x1_0000;

/// The part of a payload `source` that is kept for a declared size: all of
/// it, or where it is longer only its first `size` bytes.
pub open spec fn kept(source: Seq<u8>, size: u64) -> Seq<u8> {
    if source.len() <= size {
        source
    } else {
        source.take(size as int)
    }
}

/// The warnings for a payload of `available` bytes where `size` were declared.
pub open spec fn size_warnings(name: Seq<char>, size: u64, available: nat) -> Seq<WarningModel> {
    if available < size {
        seq![WarningModel::EndedPrematurely { name, expected: size, got: available as u64 }]
    } else if available > size {
        seq![WarningModel::Truncated { name, size }]
    } else {
        Seq::empty()
    }
}

/// The output after the entry `name` of the directory `dir`, with the
/// payload `source` and the declared size `size`, was transferred: a new
/// file holds what is kept of the payload, and a warning tells where the
/// payload was shorter or longer than declared.
pub open spec fn transferred(
    out: OutputModel,
    dir: Seq<char>,
    name: Seq<char>,
    source: Seq<u8>,
    size: u64,
) -> OutputModel {
    let opened = created(out, dir, name);
    let filled = written(opened, out.files.len() as int, kept(source, size));
    OutputModel { warnings: filled.warnings + size_warnings(name, size, source.len()), ..filled }
}

/// What a transfer leaves, case by case: one more file, which holds the
/// payload where that is as long as declared or shorter, and its first
/// `size` bytes where it is longer; and a warning in the two cases in which
/// the sizes differ, after the warnings for the entry's name.
pub proof fn lemma_transferred(
    out: OutputModel,
    dir: Seq<char>,
    name: Seq<char>,
    source: Seq<u8>,
    size: u64,
)
    ensures
        transferred(out, dir, name, source, size).files.len() == out.files.len() + 1,
        transferred(out, dir, name, source, size).files.take(out.files.len() as int) == out.files,
        transferred(out, dir, name, source, size).root == created(out, dir, name).root,
        source.len() == size ==> transferred(out, dir, name, source, size).files.last().data
            == source && transferred(out, dir, name, source, size).warnings == created(
            out,
            dir,
            name,
        ).warnings,
        source.len() < size ==> transferred(out, dir, name, source, size).files.last().data
            == source && transferred(out, dir, name, source, size).warnings == created(
            out,
            dir,
            name,
        ).warnings.push(
            WarningModel::EndedPrematurely { name, expected: size, got: source.len() as u64 },
        ),
        source.len() > size ==> transferred(out, dir, name, source, size).files.last().data
            == source.take(size as int) && transferred(
            out,
            dir,
            name,
            source,
            size,
        ).files.last().data.len() == size && transferred(out, dir, name, source, size).warnings
            == created(out, dir, name).warnings.push(WarningModel::Truncated { name, size }),
{
}

/// Copies `size` bytes of the payload `source` into a new file for the
/// entry `name` of the directory `dir`, piece by piece. A payload that ends
/// before that is copied as far as it goes, with a warning. After the last
/// piece one more byte is asked for: where there is one, the payload is
/// longer than declared, and a warning tells that the rest was left out.
pub fn transfer(out: &mut Output, dir: &str, name: &str, source: &[u8], size: u64)
    requires
        old(out).wf(),
    ensures
        final(out).wf(),
        final(out)@ == transferred(old(out)@, dir@, name@, source@, size),
        tidy_output(old(out)@) ==> tidy_output(final(out)@),
{
    let file = out.create(dir, name);
    let ghost opened = out@;
    let mut reader = ByteReader::new(source);
    let mut remaining: u64 = size;
    let mut exhausted: bool = false;
    proof {
        assert(source@.take(0) =~= Seq::<u8>::empty());
    }
    while remaining > 0 && !exhausted
        invariant
            out.wf(),
            reader.wf(),
            reader.source() == source@,
            file == old(out)@.files.len(),
            file < opened.files.len(),
            opened == created(old(out)@, dir@, name@),
            opened.files[file as int].data == Seq::<u8>::empty(),
            remaining <= size,
            reader.position() == size - remaining,
            exhausted ==> remaining > 0 && reader.position() == source@.len(),
            out@.root == opened.root,
            out@.files == opened.files.update(
                file as int,
                FileModel {
                    path: opened.files[file as int].path,
                    data: source@.take(reader.position()),
                },
            ),
            out@.warnings == opened.warnings + (if exhausted {
                size_warnings(name@, size, source@.len())
            } else {
                Seq::empty()
            }),
        decreases remaining + (if exhausted { 0int } else { 1int }),
    {
        let want: usize = if remaining < BUFFER_SIZE as u64 {
            remaining as usize
        } else {
            BUFFER_SIZE
        };
        let ghost before = reader.position();
        let piece = reader.read(want);
        if piece.len() == 0 {
            out.warn(
                Warning::EndedPrematurely {
                    name: String::from_str(name),
                    expected: size,
                    got: size - remaining,
                },
            );
            exhausted = true;
        } else {
            out.write(file, piece);
            remaining -= piece.len() as u64;
            assert(source@.take(before) + piece@ =~= source@.take(reader.position()));
        }
    }
    let probe = reader.read(1);
    if probe.len() != 0 {
        out.warn(Warning::Truncated { name: String::from_str(name), size });
    }
    proof {
        assert(source@.take(reader.position() - probe@.len()) =~= kept(source@, size));
        if tidy_output(old(out)@) {
            lemma_transferred_keeps_tidy(old(out)@, dir@, name@, source@, size);
        }
    }
}

/// The narrow name field of `data` at `pos`: a 32-bit length and that many
/// bytes. Gives the bytes and the place behind them, where `data` holds them.
pub open spec fn narrow_field(data: Seq<u8>, pos: int) -> Option<(Seq<u8>, int)> {
    if has_bytes(data, pos, 4) && has_bytes(data, pos + 4, le_u32(bytes_at(data, pos, 4))) {
        let n = le_u32(bytes_at(data, pos, 4));
        Some((bytes_at(data, pos + 4, n), pos + 4 + n))
    } else {
        None
    }
}

/// The `count` 16-bit code units of `data` from `pos` on.
pub open spec fn units_at(data: Seq<u8>, pos: int, count: int) -> Seq<u16> {
    Seq::new(count as nat, |i: int| le_u16(bytes_at(data, pos + 2 * i, 2)) as u16)
}

/// The wide name field of `data` at `pos`: a 32-bit count and that many
/// 16-bit code units. Gives the units and the place behind them, where `data` holds them.
pub open spec fn wide_field(data: Seq<u8>, pos: int) -> Option<(Seq<u16>, int)> {
    if has_bytes(data, pos, 4) && has_bytes(data, pos + 4, 2 * le_u32(bytes_at(data, pos, 4))) {
        let n = le_u32(bytes_at(data, pos, 4));
        Some((units_at(data, pos + 4, n), pos + 4 + 2 * n))
    } else {
        None
    }
}

/// Reads a narrow name field and decodes it.
pub fn read_cstr(reader: &mut ByteReader, log: &mut Vec<Warning>) -> (name: Result<
    String,
    ExtractError,
>)
    requires
        old(reader).wf(),
    ensures
        final(reader).wf(),
        final(reader).source() == old(reader).source(),
        match narrow_field(old(reader).source(), old(reader).position()) {
            Some((raw, next)) => name matches Ok(text) && text@ == narrow_name(raw).text
                && final(reader).position() == next && warning_models(final(log)@)
                == warning_models(old(log)@) + name_warnings(narrow_name(raw), false),
            None => name == Err::<String, ExtractError>(ExtractError::UnexpectedEof)
                && warning_models(final(log)@) == warning_models(old(log)@),
        },
{
    let size = match reader.read_u32() {
        Ok(size) => size,
        Err(e) => { return Err(e); },
    };
    let raw = match reader.read_exact(size as usize) {
        Ok(raw) => raw,
        Err(e) => { return Err(e); },
    };
    Ok(decode_name(raw, log))
}

/// Reads a wide name field and decodes it.
pub fn read_wchar_str(reader: &mut ByteReader, log: &mut Vec<Warning>) -> (name: Result<
    String,
    ExtractError,
>)
    requires
        old(reader).wf(),
    ensures
        final(reader).wf(),
        final(reader).source() == old(reader).source(),
        match wide_field(old(reader).source(), old(reader).position()) {
            Some((units, next)) => name matches Ok(text) && text@ == wide_name(units).text
                && final(reader).position() == next && warning_models(final(log)@)
                == warning_models(old(log)@) + name_warnings(wide_name(units), true),
            None => name == Err::<String, ExtractError>(ExtractError::UnexpectedEof)
                && warning_models(final(log)@) == warning_models(old(log)@),
        },
{
    let count = match reader.read_u32() {
        Ok(count) => count,
        Err(e) => { return Err(e); },
    };
    let ghost start = reader.position();
    let mut units: Vec<u16> = Vec::new();
    let mut i: u32 = 0;
    while i < count
        invariant
            reader.wf(),
            reader.source() == old(reader).source(),
            start == old(reader).position() + 4,
            has_bytes(old(reader).source(), old(reader).position(), 4),
            count == le_u32(bytes_at(old(reader).source(), old(reader).position(), 4)),
            i <= count,
            reader.position() == start + 2 * i,
            units@ == units_at(reader.source(), start, i as int),
            log@ == old(log)@,
        decreases count - i,
    {
        let unit = match reader.read_u16() {
            Ok(unit) => unit,
            Err(e) => { return Err(e); },
        };
        units.push(unit);
        i += 1;
    }
    Ok(decode_wide_name(units.as_slice(), log))
}

/// An entry of the flat layout as a plain value.
pub struct EntryModel {
    pub name: Seq<char>,
    pub offset: u64,
    pub len: u64,
}

/// An entry of the flat layout: its name, and where in the container its payload lies.
pub struct FileEntry {
    pub name: String,
    pub offset: u64,
    pub len: u64,
}

impl View for FileEntry {
    type V = EntryModel;

    open spec fn view(&self) -> EntryModel {
        EntryModel { name: self.name@, offset: self.offset, len: self.len }
    }
}

/// The entries of a table as plain values, in order.
pub open spec fn entry_models(entries: Seq<FileEntry>) -> Seq<EntryModel> {
    entries.map_values(|e: FileEntry| e@)
}

/// What reading one entry of a table gives: the entry, unless the container
/// ends before it does; the warnings for its names; and the place behind it.
pub struct EntryRead<E> {
    pub entry: Option<E>,
    pub warnings: Seq<WarningModel>,
    pub next: int,
}

/// The entry of the flat layout at `pos`: a narrow name field, a 32-bit
/// offset and a 32-bit length.
pub open spec fn entry_012m_at(data: Seq<u8>, pos: int) -> EntryRead<EntryModel> {
    match narrow_field(data, pos) {
        None => EntryRead { entry: None, warnings: Seq::empty(), next: pos },
        Some((raw, behind)) => {
            let name = narrow_name(raw);
            if has_bytes(data, behind, 8) {
                EntryRead {
                    entry: Some(
                        EntryModel {
                            name: name.text,
                            offset: le_u32(bytes_at(data, behind, 4)) as u64,
                            len: le_u32(bytes_at(data, behind + 4, 4)) as u64,
                        },
                    ),
                    warnings: name_warnings(name, false),
                    next: behind + 8,
                }
            } else {
                EntryRead { entry: None, warnings: name_warnings(name, false), next: behind }
            }
        },
    }
}

/// What reading a table gives: the entries up to the first that the
/// container does not hold in full, the warnings for their names, and
/// whether all entries were there.
pub struct Table {
    pub entries: Seq<EntryModel>,
    pub warnings: Seq<WarningModel>,
    pub complete: bool,
}

/// The table of `count` entries of the flat layout at `pos`.
pub open spec fn table_012m(data: Seq<u8>, pos: int, count: nat) -> Table
    decreases count,
{
    if count == 0 {
        Table { entries: Seq::empty(), warnings: Seq::empty(), complete: true }
    } else {
        let first = entry_012m_at(data, pos);
        match first.entry {
            None => Table { entries: Seq::empty(), warnings: first.warnings, complete: false },
            Some(entry) => {
                let rest = table_012m(data, first.next, (count - 1) as nat);
                Table {
                    entries: seq![entry] + rest.entries,
                    warnings: first.warnings + rest.warnings,
                    complete: rest.complete,
                }
            },
        }
    }
}

/// How an extraction ends: the output it leaves, and the error that stopped it, if one did.
pub struct Run {
    pub out: OutputModel,
    pub error: Option<ExtractError>,
}

/// What an extraction returns that ended with `error`.
pub open spec fn outcome(error: Option<ExtractError>) -> Result<(), ExtractError> {
    match error {
        None => Ok(()),
        Some(e) => Err(e),
    }
}

/// `out` with more warnings.
pub open spec fn warned(out: OutputModel, warnings: Seq<WarningModel>) -> OutputModel {
    OutputModel { warnings: out.warnings + warnings, ..out }
}

/// Where in `data` the offset `offset` leads: there, or to the end where it lies beyond.
pub open spec fn sought(data: Seq<u8>, offset: u64) -> int {
    if offset <= data.len() {
        offset as int
    } else {
        data.len() as int
    }
}

/// The bytes before a compressed payload of the flat layout: the marker and the 32-bit size.
pub open spec fn compression_overhead() -> int {
    (COMPRESS_ZIP_MAGIC@.len() + 4) as int
}

/// Extracting one entry of the flat layout from `data`. Where the marker of
/// a compressed payload stands at the entry's offset, the 32-bit size of the
/// payload follows it, and the rest of the entry's length is a zlib stream,
/// of which that many bytes are transferred. Else the entry's length in
/// bytes is transferred from its offset on.
pub open spec fn entry_012m_run(data: Seq<u8>, entry: EntryModel, out: OutputModel) -> Run {
    let pos = sought(data, entry.offset);
    if starts_with(data.skip(pos), COMPRESS_ZIP_MAGIC@) {
        let behind = pos + COMPRESS_ZIP_MAGIC@.len();
        if !has_bytes(data, behind, 4) {
            Run { out, error: Some(ExtractError::UnexpectedEof) }
        } else if entry.len < compression_overhead() {
            Run { out, error: Some(ExtractError::EntryTooShort) }
        } else {
            let size = le_u32(bytes_at(data, behind, 4)) as u64;
            let stream = window(data, behind + 4, entry.len - compression_overhead());
            match zlib_stream(stream, probe_limit(size)) {
                None => Run { out, error: Some(ExtractError::CorruptStream) },
                Some(payload) => Run {
                    out: transferred(out, ""@, entry.name, payload, size),
                    error: None,
                },
            }
        }
    } else {
        Run {
            out: transferred(out, ""@, entry.name, window(data, pos, entry.len as int), entry.len),
            error: None,
        }
    }
}

/// Extracting the entries of the flat layout in order, up to the first that fails.
pub open spec fn entries_012m_run(data: Seq<u8>, entries: Seq<EntryModel>, out: OutputModel) -> Run
    decreases entries.len(),
{
    if entries.len() == 0 {
        Run { out, error: None }
    } else {
        let first = entry_012m_run(data, entries[0], out);
        if first.error is Some {
            first
        } else {
            entries_012m_run(data, entries.skip(1), first.out)
        }
    }
}

/// Extracting a container of the flat layout: the signature, the 32-bit
/// number of entries, the table of all entries, and then the payload of
/// each entry in the table's order. The names are decoded, and the warnings
/// for them given, before the first payload is touched.
pub open spec fn archive_012m_run(data: Seq<u8>, out: OutputModel) -> Run {
    let behind = ARCHIVE_012M_MAGIC@.len() as int;
    if !has_bytes(data, 0, behind + 4) {
        Run { out, error: Some(ExtractError::UnexpectedEof) }
    } else {
        let count = le_u32(bytes_at(data, behind, 4)) as nat;
        let table = table_012m(data, behind + 4, count);
        if !table.complete {
            Run { out: warned(out, table.warnings), error: Some(ExtractError::UnexpectedEof) }
        } else {
            entries_012m_run(data, table.entries, warned(out, table.warnings))
        }
    }
}

/// Reads one entry of the flat layout's table.
pub fn read_entry_012m(reader: &mut ByteReader, log: &mut Vec<Warning>) -> (entry: Result<
    FileEntry,
    ExtractError,
>)
    requires
        old(reader).wf(),
    ensures
        final(reader).wf(),
        final(reader).source() == old(reader).source(),
        warning_models(final(log)@) == warning_models(old(log)@) + entry_012m_at(
            old(reader).source(),
            old(reader).position(),
        ).warnings,
        match entry_012m_at(old(reader).source(), old(reader).position()).entry {
            Some(e) => entry matches Ok(read) && read@ == e && final(reader).position()
                == entry_012m_at(old(reader).source(), old(reader).position()).next,
            None => entry matches Err(e) && e == ExtractError::UnexpectedEof,
        },
{
    let name = match read_cstr(reader, log) {
        Ok(name) => name,
        Err(e) => { return Err(e); },
    };
    let offset = match reader.read_u32() {
        Ok(offset) => offset,
        Err(e) => { return Err(e); },
    };
    let len = match reader.read_u32() {
        Ok(len) => len,
        Err(e) => { return Err(e); },
    };
    Ok(FileEntry { name, offset: offset as u64, len: len as u64 })
}

/// Reads the flat layout's table of `count` entries.
pub fn read_table_012m(reader: &mut ByteReader, count: u32, log: &mut Vec<Warning>) -> (table:
    Result<Vec<FileEntry>, ExtractError>)
    requires
        old(reader).wf(),
    ensures
        final(reader).wf(),
        final(reader).source() == old(reader).source(),
        warning_models(final(log)@) == warning_models(old(log)@) + table_012m(
            old(reader).source(),
            old(reader).position(),
            count as nat,
        ).warnings,
        match table {
            Ok(entries) => table_012m(
                old(reader).source(),
                old(reader).position(),
                count as nat,
            ).complete && entry_models(entries@) == table_012m(
                old(reader).source(),
                old(reader).position(),
                count as nat,
            ).entries,
            Err(e) => e == ExtractError::UnexpectedEof && !table_012m(
                old(reader).source(),
                old(reader).position(),
                count as nat,
            ).complete,
        },
{
    let ghost data = reader.source();
    let ghost whole = table_012m(data, reader.position(), count as nat);
    let mut entries: Vec<FileEntry> = Vec::new();
    let mut i: u32 = 0;
    while i < count
        invariant
            reader.wf(),
            reader.source() == data,
            data == old(reader).source(),
            whole == table_012m(data, old(reader).position(), count as nat),
            i <= count,
            whole.entries == entry_models(entries@) + table_012m(
                data,
                reader.position(),
                (count - i) as nat,
            ).entries,
            warning_models(old(log)@) + whole.warnings == warning_models(log@) + table_012m(
                data,
                reader.position(),
                (count - i) as nat,
            ).warnings,
            whole.complete == table_012m(data, reader.position(), (count - i) as nat).complete,
        decreases count - i,
    {
        let entry = match read_entry_012m(reader, log) {
            Ok(entry) => entry,
            Err(e) => { return Err(e); },
        };
        entries.push(entry);
        i += 1;
    }
    Ok(entries)
}

/// Extracts one entry of the flat layout.
pub fn extract_entry_012m(reader: &mut ByteReader, entry: &FileEntry, out: &mut Output) -> (done:
    Result<(), ExtractError>)
    requires
        old(reader).wf(),
        old(out).wf(),
    ensures
        final(reader).wf(),
        final(reader).source() == old(reader).source(),
        final(out).wf(),
        final(out)@ == entry_012m_run(old(reader).source(), entry@, old(out)@).out,
        done == outcome(entry_012m_run(old(reader).source(), entry@, old(out)@).error),
{
    reader.seek(entry.offset);
    let marked = match check_archive_header_no_seek(reader, &COMPRESS_ZIP_MAGIC) {
        Ok(same) => same,
        Err(_) => false,
    };
    if marked {
        let size = match reader.read_u32() {
            Ok(size) => size as u64,
            Err(e) => { return Err(e); },
        };
        if entry.len < 4 + COMPRESS_ZIP_MAGIC.len() as u64 {
            return Err(ExtractError::EntryTooShort);
        }
        let compressed_len: u64 = entry.len - 4 - COMPRESS_ZIP_MAGIC.len() as u64;
        let stream = reader.take(compressed_len);
        let payload = match inflate(stream, limit_for(size)) {
            Ok(payload) => payload,
            Err(e) => { return Err(e); },
        };
        transfer(out, "", entry.name.as_str(), payload.as_slice(), size);
        Ok(())
    } else {
        reader.seek(entry.offset);
        let stream = reader.take(entry.len);
        transfer(out, "", entry.name.as_str(), stream, entry.len);
        Ok(())
    }
}

/// Extracts a container of the flat layout into `out`. The container must
/// begin with the layout's signature, unless it is too short to hold one.
pub fn extract_012m(data: &[u8], out: &mut Output) -> (done: Result<(), ExtractError>)
    requires
        old(out).wf(),
        data@.len() >= ARCHIVE_012M_MAGIC@.len() ==> starts_with(data@, ARCHIVE_012M_MAGIC@),
    ensures
        final(out).wf(),
        final(out)@ == archive_012m_run(data@, old(out)@).out,
        done == outcome(archive_012m_run(data@, old(out)@).error),
        tidy_output(old(out)@) ==> tidy_output(final(out)@),
{
    proof {
        if tidy_output(old(out)@) {
            lemma_extraction_keeps_tidy(data@, old(out)@);
        }
    }
    let mut reader = ByteReader::new(data);
    match check_archive_header(&mut reader, &ARCHIVE_012M_MAGIC) {
        Ok(_) => {},
        Err(e) => { return Err(e); },
    }
    let file_count = match reader.read_u32() {
        Ok(count) => count,
        Err(e) => { return Err(e); },
    };
    let mut log: Vec<Warning> = Vec::new();
    let table = read_table_012m(&mut reader, file_count, &mut log);
    out.warn_all(log);
    let entries = match table {
        Ok(entries) => entries,
        Err(e) => { return Err(e); },
    };
    let ghost whole = archive_012m_run(data@, old(out)@);
    let mut i: usize = 0;
    assert(entry_models(entries@).skip(0) =~= entry_models(entries@));
    while i < entries.len()
        invariant
            out.wf(),
            reader.wf(),
            reader.source() == data@,
            i <= entries@.len(),
            whole == archive_012m_run(data@, old(out)@),
            whole == entries_012m_run(data@, entry_models(entries@).skip(i as int), out@),
            tidy_output(old(out)@) ==> tidy_output(whole.out),
        decreases entries@.len() - i,
    {
        let ghost left = entry_models(entries@).skip(i as int);
        assert(left.skip(1) =~= entry_models(entries@).skip(i + 1));
        match extract_entry_012m(&mut reader, &entries[i], out) {
            Ok(_) => {},
            Err(e) => { return Err(e); },
        }
        i += 1;
    }
    Ok(())
}

/// An entry of the nested layout as a plain value.
pub struct Ph3EntryModel {
    pub dir: Seq<char>,
    pub name: Seq<char>,
    pub compressed: bool,
    pub uncompressed_len: u64,
    pub compressed_len: u64,
    pub offset: u64,
}

/// An entry of the nested layout: its directory and name, and where in the
/// container its payload lies.
pub struct Ph3Entry {
    pub dir: String,
    pub name: String,
    pub compressed: bool,
    pub uncompressed_len: u64,
    pub compressed_len: u64,
    pub offset: u64,
}

impl View for Ph3Entry {
    type V = Ph3EntryModel;

    open spec fn view(&self) -> Ph3EntryModel {
        Ph3EntryModel {
            dir: self.dir@,
            name: self.name@,
            compressed: self.compressed,
            uncompressed_len: self.uncompressed_len,
            compressed_len: self.compressed_len,
            offset: self.offset,
        }
    }
}

/// The entry of the nested layout at `pos` of the header block: a 32-bit
/// length of the entry, which nothing depends on; two wide name fields, for
/// the directory and the file; and four 32-bit numbers: whether the payload
/// is compressed, its length uncompressed and compressed, and its offset.
pub open spec fn entry_ph3_at(header: Seq<u8>, pos: int) -> EntryRead<Ph3EntryModel> {
    if !has_bytes(header, pos, 4) {
        EntryRead { entry: None, warnings: Seq::empty(), next: pos }
    } else {
        match wide_field(header, pos + 4) {
            None => EntryRead { entry: None, warnings: Seq::empty(), next: pos },
            Some((dir_units, at_name)) => {
                let dir = wide_name(dir_units);
                match wide_field(header, at_name) {
                    None => EntryRead {
                        entry: None,
                        warnings: name_warnings(dir, true),
                        next: pos,
                    },
                    Some((name_units, behind)) => {
                        let name = wide_name(name_units);
                        let warnings = name_warnings(dir, true) + name_warnings(name, true);
                        if has_bytes(header, behind, 16) {
                            EntryRead {
                                entry: Some(
                                    Ph3EntryModel {
                                        dir: dir.text,
                                        name: name.text,
                                        compressed: le_u32(bytes_at(header, behind, 4)) != 0,
                                        uncompressed_len: le_u32(
                                            bytes_at(header, behind + 4, 4),
                                        ) as u64,
                                        compressed_len: le_u32(
                                            bytes_at(header, behind + 8, 4),
                                        ) as u64,
                                        offset: le_u32(bytes_at(header, behind + 12, 4)) as u64,
                                    },
                                ),
                                warnings,
                                next: behind + 16,
                            }
                        } else {
                            EntryRead { entry: None, warnings, next: pos }
                        }
                    },
                }
            },
        }
    }
}

/// Extracting one entry of the nested layout from `data`, into the
/// directory that the entry names. A compressed payload is a zlib stream of
/// the compressed length at the entry's offset, of which the uncompressed
/// length in bytes is transferred. Else that many bytes are transferred from
/// the offset on.
pub open spec fn entry_ph3_run(data: Seq<u8>, entry: Ph3EntryModel, out: OutputModel) -> Run {
    let pos = sought(data, entry.offset);
    if entry.compressed {
        let stream = window(data, pos, entry.compressed_len as int);
        match zlib_stream(stream, probe_limit(entry.uncompressed_len)) {
            None => Run { out, error: Some(ExtractError::CorruptStream) },
            Some(payload) => Run {
                out: transferred(out, entry.dir, entry.name, payload, entry.uncompressed_len),
                error: None,
            },
        }
    } else {
        Run {
            out: transferred(
                out,
                entry.dir,
                entry.name,
                window(data, pos, entry.uncompressed_len as int),
                entry.uncompressed_len,
            ),
            error: None,
        }
    }
}

/// Extracting `count` entries of the nested layout, read one after another
/// from `pos` of the header block on: each entry is extracted before the
/// next is read, up to the first that cannot be read or fails.
pub open spec fn entries_ph3_run(
    header: Seq<u8>,
    pos: int,
    data: Seq<u8>,
    count: nat,
    out: OutputModel,
) -> Run
    decreases count,
{
    if count == 0 {
        Run { out, error: None }
    } else {
        let first = entry_ph3_at(header, pos);
        match first.entry {
            None => Run {
                out: warned(out, first.warnings),
                error: Some(ExtractError::UnexpectedEof),
            },
            Some(entry) => {
                let step = entry_ph3_run(data, entry, warned(out, first.warnings));
                if step.error is Some {
                    step
                } else {
                    entries_ph3_run(header, first.next, data, (count - 1) as nat, step.out)
                }
            },
        }
    }
}

/// Where the header block of the nested layout begins: behind the
/// signature, the 32-bit number of entries, the byte that tells whether the
/// block is compressed, and the 32-bit size of the block.
pub open spec fn ph3_header_start() -> int {
    (ARCHIVE_PH3_MAGIC@.len() + 9) as int
}

/// Extracting a container of the nested layout. The header block is
/// decompressed as a whole where the container says that it is compressed.
/// The offsets of the entries count from the start of the container.
pub open spec fn archive_ph3_run(data: Seq<u8>, out: OutputModel) -> Run {
    let fields = ARCHIVE_PH3_MAGIC@.len() as int;
    if !has_bytes(data, 0, ph3_header_start()) {
        Run { out, error: Some(ExtractError::UnexpectedEof) }
    } else {
        let count = le_u32(bytes_at(data, fields, 4)) as nat;
        let compressed = data[fields + 4] != 0;
        let size = le_u32(bytes_at(data, fields + 5, 4));
        if size > usize::MAX {
            Run { out, error: Some(ExtractError::HeaderTooLarge) }
        } else if !has_bytes(data, ph3_header_start(), size) {
            Run { out, error: Some(ExtractError::UnexpectedEof) }
        } else {
            let block = bytes_at(data, ph3_header_start(), size);
            if compressed {
                match zlib_stream(block, u64::MAX) {
                    None => Run { out, error: Some(ExtractError::CorruptStream) },
                    Some(header) => entries_ph3_run(header, 0, data, count, out),
                }
            } else {
                entries_ph3_run(block, 0, data, count, out)
            }
        }
    }
}

/// Reads one entry of the nested layout's header block.
pub fn read_entry_ph3(reader: &mut ByteReader, log: &mut Vec<Warning>) -> (entry: Result<
    Ph3Entry,
    ExtractError,
>)
    requires
        old(reader).wf(),
    ensures
        final(reader).wf(),
        final(reader).source() == old(reader).source(),
        warning_models(final(log)@) == warning_models(old(log)@) + entry_ph3_at(
            old(reader).source(),
            old(reader).position(),
        ).warnings,
        match entry_ph3_at(old(reader).source(), old(reader).position()).entry {
            Some(e) => entry matches Ok(read) && read@ == e && final(reader).position()
                == entry_ph3_at(old(reader).source(), old(reader).position()).next,
            None => entry matches Err(e) && e == ExtractError::UnexpectedEof,
        },
{
    let _entry_len = match reader.read_u32() {
        Ok(len) => len,
        Err(e) => { return Err(e); },
    };
    let dir = match read_wchar_str(reader, log) {
        Ok(dir) => dir,
        Err(e) => { return Err(e); },
    };
    let name = match read_wchar_str(reader, log) {
        Ok(name) => name,
        Err(e) => { return Err(e); },
    };
    let compressed = match reader.read_u32() {
        Ok(flag) => flag != 0,
        Err(e) => { return Err(e); },
    };
    let uncompressed_len = match reader.read_u32() {
        Ok(len) => len as u64,
        Err(e) => { return Err(e); },
    };
    let compressed_len = match reader.read_u32() {
        Ok(len) => len as u64,
        Err(e) => { return Err(e); },
    };
    let offset = match reader.read_u32() {
        Ok(offset) => offset as u64,
        Err(e) => { return Err(e); },
    };
    Ok(Ph3Entry { dir, name, compressed, uncompressed_len, compressed_len, offset })
}

/// Extracts one entry of the nested layout.
pub fn extract_entry_ph3(contents: &mut ByteReader, entry: &Ph3Entry, out: &mut Output) -> (done:
    Result<(), ExtractError>)
    requires
        old(contents).wf(),
        old(out).wf(),
    ensures
        final(contents).wf(),
        final(contents).source() == old(contents).source(),
        final(out).wf(),
        final(out)@ == entry_ph3_run(old(contents).source(), entry@, old(out)@).out,
        done == outcome(entry_ph3_run(old(contents).source(), entry@, old(out)@).error),
{
    contents.seek(entry.offset);
    if entry.compressed {
        let stream = contents.take(entry.compressed_len);
        let payload = match inflate(stream, limit_for(entry.uncompressed_len)) {
            Ok(payload) => payload,
            Err(e) => { return Err(e); },
        };
        transfer(
            out,
            entry.dir.as_str(),
            entry.name.as_str(),
            payload.as_slice(),
            entry.uncompressed_len,
        );
        Ok(())
    } else {
        let stream = contents.take(entry.uncompressed_len);
        transfer(out, entry.dir.as_str(), entry.name.as_str(), stream, entry.uncompressed_len);
        Ok(())
    }
}

/// Extracts the `file_count` entries that the header block `header`
/// describes from the container `data`.
pub fn extract_ph3_inner(header: &[u8], data: &[u8], file_count: u32, out: &mut Output) -> (done:
    Result<(), ExtractError>)
    requires
        old(out).wf(),
    ensures
        final(out).wf(),
        final(out)@ == entries_ph3_run(header@, 0, data@, file_count as nat, old(out)@).out,
        done == outcome(entries_ph3_run(header@, 0, data@, file_count as nat, old(out)@).error),
{
    let mut header_stream = ByteReader::new(header);
    let mut contents_stream = ByteReader::new(data);
    let ghost whole = entries_ph3_run(header@, 0, data@, file_count as nat, old(out)@);
    let mut i: u32 = 0;
    while i < file_count
        invariant
            out.wf(),
            header_stream.wf(),
            header_stream.source() == header@,
            contents_stream.wf(),
            contents_stream.source() == data@,
            i <= file_count,
            whole == entries_ph3_run(header@, 0, data@, file_count as nat, old(out)@),
            whole == entries_ph3_run(
                header@,
                header_stream.position(),
                data@,
                (file_count - i) as nat,
                out@,
            ),
        decreases file_count - i,
    {
        let mut log: Vec<Warning> = Vec::new();
        let read = read_entry_ph3(&mut header_stream, &mut log);
        out.warn_all(log);
        let entry = match read {
            Ok(entry) => entry,
            Err(e) => { return Err(e); },
        };
        match extract_entry_ph3(&mut contents_stream, &entry, out) {
            Ok(_) => {},
            Err(e) => { return Err(e); },
        }
        i += 1;
    }
    Ok(())
}

/// Extracts a container of the nested layout into `out`. The container
/// must begin with the layout's signature, unless it is too short to hold one.
pub fn extract_ph3(data: &[u8], out: &mut Output) -> (done: Result<(), ExtractError>)
    requires
        old(out).wf(),
        data@.len() >= ARCHIVE_PH3_MAGIC@.len() ==> starts_with(data@, ARCHIVE_PH3_MAGIC@),
    ensures
        final(out).wf(),
        final(out)@ == archive_ph3_run(data@, old(out)@).out,
        done == outcome(archive_ph3_run(data@, old(out)@).error),
        tidy_output(old(out)@) ==> tidy_output(final(out)@),
{
    proof {
        if tidy_output(old(out)@) {
            lemma_extraction_keeps_tidy(data@, old(out)@);
        }
    }
    let mut reader = ByteReader::new(data);
    match check_archive_header(&mut reader, &ARCHIVE_PH3_MAGIC) {
        Ok(_) => {},
        Err(e) => { return Err(e); },
    }
    let file_count = match reader.read_u32() {
        Ok(count) => count,
        Err(e) => { return Err(e); },
    };
    let is_compressed = match reader.read_u8() {
        Ok(flag) => flag != 0,
        Err(e) => { return Err(e); },
    };
    let header_size = match reader.read_u32() {
        Ok(size) => size as u64,
        Err(e) => { return Err(e); },
    };
    if header_size > usize::MAX as u64 {
        return Err(ExtractError::HeaderTooLarge);
    }
    let block = match reader.read_exact(header_size as usize) {
        Ok(block) => block,
        Err(e) => { return Err(e); },
    };
    if is_compressed {
        let header = match inflate(block, u64::MAX) {
            Ok(header) => header,
            Err(e) => { return Err(e); },
        };
        extract_ph3_inner(header.as_slice(), data, file_count, out)
    } else {
        extract_ph3_inner(block, data, file_count, out)
    }
}

/// Extracts the container `data` into `out`, whatever its layout. Tells the
/// kind that was found; nothing is done for what is no container.
pub fn extract(data: &[u8], out: &mut Output) -> (done: Result<ArchiveType, ExtractError>)
    requires
        old(out).wf(),
    ensures
        final(out).wf(),
        tidy_output(old(out)@) ==> tidy_output(final(out)@),
        match classify(data@) {
            ArchiveType::Archive_012M => final(out)@ == archive_012m_run(data@, old(out)@).out && (
            match archive_012m_run(data@, old(out)@).error {
                None => done == Ok::<ArchiveType, ExtractError>(ArchiveType::Archive_012M),
                Some(e) => done == Err::<ArchiveType, ExtractError>(e),
            }),
            ArchiveType::Archive_Ph3 => final(out)@ == archive_ph3_run(data@, old(out)@).out && (
            match archive_ph3_run(data@, old(out)@).error {
                None => done == Ok::<ArchiveType, ExtractError>(ArchiveType::Archive_Ph3),
                Some(e) => done == Err::<ArchiveType, ExtractError>(e),
            }),
            ArchiveType::NotAnArchive => final(out)@ == old(out)@ && done == Ok::<
                ArchiveType,
                ExtractError,
            >(ArchiveType::NotAnArchive),
        },
{
    match determine_archive_type(data) {
        ArchiveType::Archive_012M => match extract_012m(data, out) {
            Ok(_) => Ok(ArchiveType::Archive_012M),
            Err(e) => Err(e),
        },
        ArchiveType::Archive_Ph3 => match extract_ph3(data, out) {
            Ok(_) => Ok(ArchiveType::Archive_Ph3),
            Err(e) => Err(e),
        },
        ArchiveType::NotAnArchive => Ok(ArchiveType::NotAnArchive),
    }
}

} // verus!
