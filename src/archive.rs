use vstd::prelude::*;
use crate::entry::{entries_model, Entry, EntryModel, Timestamp};

verus! {

#[verifier::external_type_specification]
#[verifier::external_body]
#[verifier::reject_recursive_types(T)]
pub struct ExCursor<T>(std::io::Cursor<T>);

#[verifier::external_type_specification]
#[verifier::external_body]
#[verifier::reject_recursive_types(R)]
pub struct ExZipArchive<R>(zip::ZipArchive<R>);


#[verifier::external_type_specification]
#[verifier::external_body]
pub struct ExZipError(zip::result::ZipError);

/// An archive read from memory.
pub type SourceArchive = zip::ZipArchive<std::io::Cursor<Vec<u8>>>;

/// An archive being written to memory. Verus refuses a declaration of
/// zip::ZipWriter, whose type parameter is bound by std's io traits, so the
/// writer is held here out of Verus's sight.
#[verifier::external_body]
pub struct TargetArchive {
    writer: zip::ZipWriter<std::io::Cursor<Vec<u8>>>,
}

/// The entries of the archive in `bytes`, in archive order, or `None` where
/// its central directory cannot be read. Each entry is a pair: first its name,
/// content, MS-DOS date and time words and unix mode where it has one, or
/// `None` where its content cannot be read; then its stored form (name,
/// metadata and compressed bytes, as ZipArchive::by_index_raw gives it), or
/// `None` where even that cannot be read.
pub uninterp spec fn parsed_archive(bytes: Seq<u8>) -> Option<Seq<(Option<(Seq<char>, Seq<u8>, u16, u16, Option<u32>)>, Option<Seq<u8>>)>>;

/// The entries that an opened archive holds, in the form of `parsed_archive`.
pub uninterp spec fn archive_contents(a: zip::ZipArchive<std::io::Cursor<Vec<u8>>>) -> Seq<(Option<(Seq<char>, Seq<u8>, u16, u16, Option<u32>)>, Option<Seq<u8>>)>;

/// The entries written so far, or `None` once a write has failed. A written
/// entry is either `Ok` of its name, content, MS-DOS date and time words and
/// permission bits, or `Err` of a stored form copied as it is.
pub uninterp spec fn written(w: TargetArchive) -> Option<Seq<Result<(Seq<char>, Seq<u8>, u16, u16, u32), Seq<u8>>>>;

/// The bytes of the finished archive that holds `entries`; the `Ok` ones are
/// deflated.
pub uninterp spec fn zip_bytes(entries: Seq<Result<(Seq<char>, Seq<u8>, u16, u16, u32), Seq<u8>>>) -> Seq<u8>;

/// Content size up to which an entry is written without the zip64 extension:
/// deflate adds far less than the margin to `u32::MAX` for such content.
pub const ENTRY_SIZE_LIMIT: usize = 0xF000_0000;

/// Whether the last written entry, if any, can be closed: a copied stored form
/// always can, a deflated entry where its content is within the limit.
pub open spec fn last_fits(ws: Seq<Result<(Seq<char>, Seq<u8>, u16, u16, u32), Seq<u8>>>) -> bool {
    ws.len() == 0 || match ws.last() {
        Ok(t) => t.1.len() <= ENTRY_SIZE_LIMIT,
        Err(_) => true,
    }
}

/// An entry as the archive stores it; `mode` is `None` where the entry
/// carries no unix permission bits.
pub struct StoredEntry {
    pub name: String,
    pub data: Vec<u8>,
    pub modified: Timestamp,
    pub mode: Option<u32>,
}

/// Relies on zip::ZipArchive::new: reads the central directory of the archive
/// held in `bytes`, or reports why it cannot.
#[verifier::external_body]
fn open_archive(bytes: Vec<u8>) -> (r: Result<SourceArchive, zip::result::ZipError>)
    ensures
        r is Ok <==> parsed_archive(bytes@) is Some,
        r matches Ok(a) ==> Some(archive_contents(a)) == parsed_archive(bytes@),
{
    zip::ZipArchive::new(std::io::Cursor::new(bytes))
}

/// Relies on zip::ZipArchive::len: the number of entries of the archive.
#[verifier::external_body]
fn archive_len(a: &SourceArchive) -> (r: usize)
    ensures
        r == archive_contents(*a).len(),
{
    a.len()
}

/// Relies on zip::ZipArchive::by_index_decrypt (with an empty password, which
/// is dropped for an entry not marked encrypted; an entry that still asks for
/// one is an error) and on reading the entry to its end
/// (std::io::Read::read_to_end): the name, time (ZipFile::last_modified in its
/// MS-DOS words), unix mode (ZipFile::unix_mode) and content of entry `i`.
#[verifier::external_body]
fn read_stored_entry(a: &mut SourceArchive, i: usize) -> (r: Result<StoredEntry, zip::result::ZipError>)
    requires
        i < archive_contents(*old(a)).len(),
    ensures
        archive_contents(*final(a)) == archive_contents(*old(a)),
        r is Ok <==> archive_contents(*old(a))[i as int].0 is Some,
        r matches Ok(s) ==> archive_contents(*old(a))[i as int].0
            == Some((s.name@, s.data@, s.modified.date, s.modified.time, s.mode)),
{
    let mut file = match a.by_index_decrypt(i, b"")? {
        Ok(file) => file,
        Err(_) => return Err(zip::result::ZipError::UnsupportedArchive(zip::result::ZipError::PASSWORD_REQUIRED)),
    };
    let mut data: Vec<u8> = Vec::new();
    std::io::Read::read_to_end(&mut file, &mut data)?;
    let t = file.last_modified();
    let modified = Timestamp { date: t.datepart(), time: t.timepart() };
    Ok(StoredEntry { name: file.name().to_string(), data, modified, mode: file.unix_mode() })
}

/// Relies on zip::ZipWriter::new over an empty in-memory buffer.
#[verifier::external_body]
fn new_target() -> (r: TargetArchive)
    ensures
        written(r) == Some(Seq::<Result<(Seq<char>, Seq<u8>, u16, u16, u32), Seq<u8>>>::empty()),
{
    TargetArchive { writer: zip::ZipWriter::new(std::io::Cursor::new(Vec::new())) }
}

/// Relies on zip::ZipWriter::start_file: closes the entry that is open, which
/// fails only where its deflated size passes `u32::MAX`, and opens entry
/// `name`, deflated, with the time `modified` (DateTime::from_msdos) and the
/// permission bits of `mode` (FileOptions::unix_permissions keeps `mode & 0o777`).
/// Writes to the in-memory buffer do not fail.
#[verifier::external_body]
fn start_deflated_entry(w: &mut TargetArchive, name: &String, modified: Timestamp, mode: u32) -> (r: Result<(), zip::result::ZipError>)
    ensures
        written(*old(w)) matches Some(ws) ==> (last_fits(ws) ==> r is Ok)
            && (r is Ok ==> written(*final(w)) == Some(ws.push(
            Ok((name@, Seq::<u8>::empty(), modified.date, modified.time, mode & 0o777u32))))),
{
    let options = zip::write::FileOptions::default()
        .compression_method(zip::CompressionMethod::Deflated)
        .last_modified_time(zip::DateTime::from_msdos(modified.date, modified.time))
        .unix_permissions(mode);
    w.writer.start_file(name.clone(), options)
}

/// Relies on std::io::Write::write_all on the writer (ZipWriter::write):
/// appends `data` to the deflated entry that is open; fails where the entry
/// passes `u32::MAX` bytes.
#[verifier::external_body]
fn write_entry_data(w: &mut TargetArchive, data: &Vec<u8>) -> (r: Result<(), zip::result::ZipError>)
    requires
        written(*old(w)) matches Some(ws) && ws.len() > 0 && ws.last() is Ok,
    ensures
        written(*old(w)) matches Some(ws) ==> (ws.last()->Ok_0.1.len() + data@.len()
            <= ENTRY_SIZE_LIMIT ==> r is Ok) && (r is Ok ==> written(*final(w))
            == Some(ws.update(ws.len() - 1, Ok(appended(ws.last()->Ok_0, data@))))),
{
    std::io::Write::write_all(&mut w.writer, data)?;
    Ok(())
}

/// Relies on zip::ZipArchive::by_index_raw and ZipWriter::raw_copy_file: entry
/// `i` is copied in its stored form, compressed bytes and metadata as they
/// are, after the open entry is closed (`Ok(true)`). Where the stored form
/// cannot be read, nothing is written (`Ok(false)`).
#[verifier::external_body]
fn copy_stored_entry(w: &mut TargetArchive, a: &mut SourceArchive, i: usize) -> (r: Result<bool, zip::result::ZipError>)
    requires
        i < archive_contents(*old(a)).len(),
    ensures
        archive_contents(*final(a)) == archive_contents(*old(a)),
        (r matches Ok(false)) <==> archive_contents(*old(a))[i as int].1 is None,
        r matches Ok(false) ==> written(*final(w)) == written(*old(w)),
        written(*old(w)) matches Some(ws) ==> (last_fits(ws) && archive_contents(*old(a))[i as int].1 is Some
            ==> r matches Ok(true)) && (r matches Ok(true) ==> written(*final(w))
            == Some(ws.push(Err(archive_contents(*old(a))[i as int].1.unwrap())))),
{
    let file = match a.by_index_raw(i) {
        Ok(file) => file,
        Err(_) => return Ok(false),
    };
    w.writer.raw_copy_file(file)?;
    Ok(true)
}

/// Relies on zip::ZipWriter::finish: closes the open entry, which fails only
/// where its deflated size passes `u32::MAX`, writes the central directory and
/// hands back the bytes of the whole archive.
#[verifier::external_body]
fn finish_target(w: &mut TargetArchive) -> (r: Result<Vec<u8>, zip::result::ZipError>)
    ensures
        written(*old(w)) matches Some(ws) ==> (last_fits(ws) ==> r is Ok)
            && (r matches Ok(b) ==> b@ == zip_bytes(ws)),
{
    Ok(w.writer.finish()?.into_inner())
}

/// A written entry with `data` added to its content.
pub open spec fn appended(e: (Seq<char>, Seq<u8>, u16, u16, u32), data: Seq<u8>) -> (Seq<char>, Seq<u8>, u16, u16, u32) {
    (e.0, e.1 + data, e.2, e.3, e.4)
}

/// The entry that a readable stored one is read as: missing permission bits
/// become 0.
pub open spec fn entry_of(t: (Seq<char>, Seq<u8>, u16, u16, Option<u32>)) -> EntryModel {
    EntryModel {
        name: t.0,
        data: t.1,
        modified: Timestamp { date: t.2, time: t.3 },
        mode: match t.4 { Some(m) => m, None => 0u32 },
    }
}

/// The readable entries of an archive's contents, in order.
pub open spec fn readable_model(c: Seq<(Option<(Seq<char>, Seq<u8>, u16, u16, Option<u32>)>, Option<Seq<u8>>)>) -> Seq<EntryModel>
    decreases c.len(),
{
    if c.len() == 0 {
        Seq::empty()
    } else {
        let p = readable_model(c.drop_last());
        match c.last().0 {
            Some(t) => p.push(entry_of(t)),
            None => p,
        }
    }
}

/// An entry as it is written: only the permission bits of its mode are kept.
pub open spec fn stored_of(e: EntryModel) -> (Seq<char>, Seq<u8>, u16, u16, u32) {
    (e.name, e.data, e.modified.date, e.modified.time, e.mode & 0o777u32)
}

/// What is written for each entry of the contents `c`, given `p`, the new
/// entries that stand for its readable ones in order: the next of `p` for a
/// readable entry, the stored form for another, nothing where neither exists.
pub open spec fn output_slots(c: Seq<(Option<(Seq<char>, Seq<u8>, u16, u16, Option<u32>)>, Option<Seq<u8>>)>, p: Seq<EntryModel>) -> Seq<Option<Result<(Seq<char>, Seq<u8>, u16, u16, u32), Seq<u8>>>>
    decreases c.len(),
{
    if c.len() == 0 {
        Seq::empty()
    } else if c.last().0 is Some {
        output_slots(c.drop_last(), p.drop_last()).push(Some(Ok(stored_of(p.last()))))
    } else {
        output_slots(c.drop_last(), p).push(match c.last().1 {
            Some(raw) => Some(Err(raw)),
            None => None,
        })
    }
}

/// The present items of `xs`, in order.
pub open spec fn present(xs: Seq<Option<Result<(Seq<char>, Seq<u8>, u16, u16, u32), Seq<u8>>>>) -> Seq<Result<(Seq<char>, Seq<u8>, u16, u16, u32), Seq<u8>>>
    decreases xs.len(),
{
    if xs.len() == 0 {
        Seq::empty()
    } else {
        let p = present(xs.drop_last());
        match xs.last() {
            Some(x) => p.push(x),
            None => p,
        }
    }
}

/// The bytes of the archive that `write_archive` makes of contents `c` and new
/// entries `p`.
pub open spec fn archive_bytes(c: Seq<(Option<(Seq<char>, Seq<u8>, u16, u16, Option<u32>)>, Option<Seq<u8>>)>, p: Seq<EntryModel>) -> Seq<u8> {
    zip_bytes(present(output_slots(c, p)))
}

/// The bytes of the archive that `write_entries` makes of `entries`.
pub open spec fn entries_bytes(entries: Seq<EntryModel>) -> Seq<u8> {
    zip_bytes(entries.map_values(|e: EntryModel| Ok(stored_of(e))))
}

/// Whether each entry is small enough to be written without zip64.
pub open spec fn entries_fit(entries: Seq<EntryModel>) -> bool {
    forall|i: int| 0 <= i < entries.len() ==> #[trigger] entries[i].data.len() <= ENTRY_SIZE_LIMIT
}

proof fn lemma_readable_prefix(c: Seq<(Option<(Seq<char>, Seq<u8>, u16, u16, Option<u32>)>, Option<Seq<u8>>)>, j: int)
    requires
        0 <= j <= c.len(),
    ensures
        readable_model(c.subrange(0, j)).len() <= readable_model(c).len(),
    decreases c.len(),
{
    if j < c.len() {
        assert(c.drop_last().subrange(0, j) =~= c.subrange(0, j));
        lemma_readable_prefix(c.drop_last(), j);
    } else {
        assert(c.subrange(0, j) =~= c);
    }
}

/// Normalises a stored entry: permission bits that the archive lacks become 0.
pub fn entry_of_stored(s: StoredEntry) -> (r: Entry)
    ensures
        r.name@ == s.name@,
        r.data@ == s.data@,
        r.modified == s.modified,
        r.mode == (match s.mode { Some(m) => m, None => 0u32 }),
{
    let mode = match s.mode {
        Some(m) => m,
        None => 0,
    };
    Entry { name: s.name, data: s.data, modified: s.modified, mode }
}

/// Opens the archive held in `bytes` and reads each of its entries, in
/// archive order: `None` for an entry whose content cannot be read. Fails only
/// where the archive does not open.
pub fn read_entries(bytes: Vec<u8>) -> (r: Result<(SourceArchive, Vec<Option<Entry>>), zip::result::ZipError>)
    ensures
        r is Ok <==> parsed_archive(bytes@) is Some,
        r matches Ok((a, v)) ==> Some(archive_contents(a)) == parsed_archive(bytes@)
            && v@.len() == archive_contents(a).len()
            && forall|i: int| 0 <= i < v@.len() ==> (#[trigger] v@[i] is Some <==> archive_contents(a)[i].0 is Some)
                && (v@[i] matches Some(e) ==> e@ == entry_of(archive_contents(a)[i].0.unwrap())),
{
    let mut archive = match open_archive(bytes) {
        Ok(a) => a,
        Err(e) => return Err(e),
    };
    let n = archive_len(&archive);
    let ghost c = archive_contents(archive);
    let mut entries: Vec<Option<Entry>> = Vec::new();
    let mut i: usize = 0;
    while i < n
        invariant
            i <= n,
            n == c.len(),
            archive_contents(archive) == c,
            entries@.len() == i,
            forall|j: int| 0 <= j < i ==> (#[trigger] entries@[j] is Some <==> c[j].0 is Some)
                && (entries@[j] matches Some(e) ==> e@ == entry_of(c[j].0.unwrap())),
        decreases n - i,
    {
        match read_stored_entry(&mut archive, i) {
            Ok(s) => entries.push(Some(entry_of_stored(s))),
            Err(_) => entries.push(None),
        }
        i = i + 1;
    }
    Ok((archive, entries))
}

/// Writes the new archive for the source `a`: for each of its entries, in
/// order, the next of `processed` where the entry is readable
/// (`readable[i]`), deflated with its time and permission bits, else the
/// entry's stored form copied as it is, else nothing.
pub fn write_archive(a: &mut SourceArchive, readable: &Vec<bool>, processed: &Vec<Entry>) -> (r: Result<Vec<u8>, zip::result::ZipError>)
    requires
        readable@.len() == archive_contents(*old(a)).len(),
        forall|i: int| 0 <= i < readable@.len() ==> #[trigger] readable@[i] == archive_contents(*old(a))[i].0 is Some,
        processed@.len() == readable_model(archive_contents(*old(a))).len(),
    ensures
        archive_contents(*final(a)) == archive_contents(*old(a)),
        entries_fit(entries_model(processed@)) ==> r is Ok,
        r matches Ok(b) ==> b@ == archive_bytes(archive_contents(*old(a)), entries_model(processed@)),
{
    let ghost c = archive_contents(*a);
    let ghost p = entries_model(processed@);
    let mut w = new_target();
    let mut i: usize = 0;
    let mut k: usize = 0;
    while i < readable.len()
        invariant
            i <= readable@.len(),
            readable@.len() == c.len(),
            archive_contents(*a) == c,
            c == archive_contents(*old(a)),
            forall|j: int| 0 <= j < readable@.len() ==> #[trigger] readable@[j] == c[j].0 is Some,
            p == entries_model(processed@),
            p.len() == readable_model(c).len(),
            k == readable_model(c.subrange(0, i as int)).len(),
            k <= p.len(),
            written(w) == Some(present(output_slots(c.subrange(0, i as int), p.subrange(0, k as int)))),
            entries_fit(p) ==> last_fits(written(w).unwrap()),
        decreases readable@.len() - i,
    {
        proof {
            assert(c.subrange(0, i + 1).drop_last() =~= c.subrange(0, i as int));
            lemma_readable_prefix(c, i + 1);
        }
        if readable[i] {
            let len = processed.len();
            let e = &processed[k];
            let ghost before = written(w).unwrap();
            let ghost kk = k as int;
            proof {
                assert(p.subrange(0, kk + 1).drop_last() =~= p.subrange(0, kk));
                if entries_fit(p) {
                    assert(p[kk].data.len() <= ENTRY_SIZE_LIMIT);
                }
            }
            k = k + 1;
            start_deflated_entry(&mut w, &e.name, e.modified, e.mode)?;
            write_entry_data(&mut w, &e.data)?;
            proof {
                let ws = written(w).unwrap();
                let xs = output_slots(c.subrange(0, i as int), p.subrange(0, kk));
                let x = Ok::<(Seq<char>, Seq<u8>, u16, u16, u32), Seq<u8>>(stored_of(p[kk]));
                assert(ws.last()->Ok_0.1 =~= p[kk].data);
                assert(ws =~= before.push(x));
                assert(output_slots(c.subrange(0, i + 1), p.subrange(0, kk + 1)) == xs.push(Some(x)));
                assert(xs.push(Some(x)).drop_last() =~= xs);
                assert(ws =~= present(output_slots(c.subrange(0, i + 1), p.subrange(0, k as int))));
            }
        } else {
            let ghost before = written(w).unwrap();
            let _copied = copy_stored_entry(&mut w, a, i)?;
            proof {
                let xs = output_slots(c.subrange(0, i as int), p.subrange(0, k as int));
                let y = match c[i as int].1 {
                    Some(raw) => Some(Err::<(Seq<char>, Seq<u8>, u16, u16, u32), Seq<u8>>(raw)),
                    None => None,
                };
                assert(c.subrange(0, i + 1).last() == c[i as int]);
                assert(output_slots(c.subrange(0, i + 1), p.subrange(0, k as int)) == xs.push(y));
                assert(xs.push(y).drop_last() =~= xs);
                assert(written(w).unwrap() =~= present(xs.push(y)));
            }
        }
        i = i + 1;
    }
    proof {
        assert(c.subrange(0, i as int) =~= c);
        assert(p.subrange(0, k as int) =~= p);
    }
    finish_target(&mut w)
}

/// Writes `entries`, in their order, into a new archive, each deflated and
/// with its own time and permission bits, and returns the archive's bytes.
pub fn write_entries(entries: &Vec<Entry>) -> (r: Result<Vec<u8>, zip::result::ZipError>)
    ensures
        entries_fit(entries_model(entries@)) ==> r is Ok,
        r matches Ok(b) ==> b@ == entries_bytes(entries_model(entries@)),
{
    let ghost m = entries_model(entries@).map_values(|e: EntryModel| Ok(stored_of(e)));
    let mut w = new_target();
    let mut i: usize = 0;
    while i < entries.len()
        invariant
            i <= entries.len(),
            m.len() == entries@.len(),
            forall|j: int| 0 <= j < m.len() ==> #[trigger] m[j] == Ok::<(Seq<char>, Seq<u8>, u16, u16, u32), Seq<u8>>(stored_of(entries@[j]@)),
            written(w) == Some(m.subrange(0, i as int)),
            entries_fit(entries_model(entries@)) ==> last_fits(m.subrange(0, i as int)),
        decreases entries.len() - i,
    {
        let e = &entries[i];
        proof {
            assert(entries_fit(entries_model(entries@)) ==> entries_model(entries@)[i as int].data.len() <= ENTRY_SIZE_LIMIT);
        }
        start_deflated_entry(&mut w, &e.name, e.modified, e.mode)?;
        write_entry_data(&mut w, &e.data)?;
        i = i + 1;
        proof {
            let ws = written(w).unwrap();
            assert(ws.last()->Ok_0.1 =~= entries@[i - 1].data@);
            assert(ws =~= m.subrange(0, i as int));
        }
    }
    assert(m.subrange(0, i as int) =~= m);
    finish_target(&mut w)
}

} // verus!
