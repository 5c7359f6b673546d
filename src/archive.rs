use vstd::prelude::*;

use std::io::Cursor;
use std::io::Write;
use zip::result::ZipError;
use zip::write::SimpleFileOptions;
use zip::{CompressionMethod, ZipArchive, ZipWriter};

use crate::error::{Operation, TransferError};
use crate::paths::{beneath, directory_marker, is_plain_name, join_rel, lemma_beneath_join, lemma_join_last, marker_of, rel_join};
use vstd::string::StrSliceExecFns;
use crate::stream::ByteSource;

verus! {

/// An archive being written by zip::ZipWriter into an in-memory cursor.
#[verifier::external_body]
pub struct ZipOut {
    inner: ZipWriter<Cursor<Vec<u8>>>,
}

#[verifier::external_type_specification]
#[verifier::external_body]
#[verifier::reject_recursive_types(R)]
pub struct ExZipArchive<R>(ZipArchive<R>);

#[verifier::external_type_specification]
#[verifier::external_body]
#[verifier::reject_recursive_types(T)]
pub struct ExCursor<T>(Cursor<T>);

#[verifier::external_type_specification]
#[verifier::external_body]
pub struct ExZipError(ZipError);

/// Permission bits recorded for every entry.
pub const ENTRY_MODE: u32 = 0o644;

/// The compression method of every entry: deflate.
pub const ENTRY_METHOD: u16 = 8;

/// The longest entry name, in characters, whose UTF-8 form surely fits
/// the format's 16-bit name length.
pub const NAME_LIMIT: usize = 16383;

/// The entries a zip writer holds, in order: name, whether it is a
/// directory, and the bytes written to it.
pub uninterp spec fn zip_out_entries(z: ZipOut) -> Seq<(Seq<char>, bool, Seq<u8>)>;

/// Whether a zip writer has a file entry open for writing.
pub uninterp spec fn zip_out_writing(z: ZipOut) -> bool;

/// What zip reads from `bytes`: the entries (name, whether a directory,
/// uncompressed content), or `None` where the bytes are no archive.
pub uninterp spec fn zip_read_of(bytes: Seq<u8>) -> Option<Seq<(Seq<char>, bool, Seq<u8>)>>;

/// The entries of an opened archive.
pub uninterp spec fn zip_archive_entries(a: ZipArchive<Cursor<Vec<u8>>>) -> Seq<(Seq<char>, bool, Seq<u8>)>;

/// Some entry among `entries` is named `name`.
pub open spec fn has_name(entries: Seq<(Seq<char>, bool, Seq<u8>)>, name: Seq<char>) -> bool {
    exists|i: int| 0 <= i < entries.len() && #[trigger] entries[i].0 == name
}

/// A name zip stores and reads back as a directory: it ends in `/`.
pub open spec fn dir_name_ok(name: Seq<char>) -> bool {
    0 < name.len() <= NAME_LIMIT && name.last() == '/'
}

/// A name zip stores and reads back as a file: it ends in neither `/` nor `\`.
pub open spec fn file_name_ok(name: Seq<char>) -> bool {
    0 < name.len() <= NAME_LIMIT && name.last() != '/' && name.last() != '\\'
}

/// Every entry's name fits its kind, and no name occurs twice.
pub open spec fn well_named(entries: Seq<(Seq<char>, bool, Seq<u8>)>) -> bool {
    &&& forall|i: int|
        0 <= i < entries.len() ==> if (#[trigger] entries[i]).1 {
            dir_name_ok(entries[i].0)
        } else {
            file_name_ok(entries[i].0)
        }
    &&& forall|i: int, j: int|
        0 <= i < entries.len() && 0 <= j < entries.len() && i != j ==> #[trigger] entries[i].0
            != #[trigger] entries[j].0
}

/// Relies on zip::ZipWriter::new over an empty in-memory cursor: no
/// entries, none open.
#[verifier::external_body]
fn zip_writer_new() -> (r: ZipOut)
    ensures
        zip_out_entries(r) == Seq::<(Seq<char>, bool, Seq<u8>)>::empty(),
        !zip_out_writing(r),
{
    ZipOut { inner: ZipWriter::new(Cursor::new(Vec::new())) }
}

/// Relies on zip::ZipWriter::add_directory: it appends a directory entry
/// and refuses exactly a name already present (writes into memory do not
/// fail, and large-file records lift the size limit on the entry it closes).
#[verifier::external_body]
#[allow(deprecated)]
fn zip_add_directory(zip: &mut ZipOut, name: &str, mode: u32, method: u16) -> (r: Result<(), ZipError>)
    requires
        method == 0 || method == 8,
        dir_name_ok(name@),
    ensures
        (r is Ok) == !has_name(zip_out_entries(*old(zip)), name@),
        r is Ok ==> zip_out_entries(*final(zip)) == zip_out_entries(*old(zip)).push((name@, true, Seq::empty()))
            && !zip_out_writing(*final(zip)),
        r is Err ==> zip_out_entries(*final(zip)) == zip_out_entries(*old(zip)),
{
    let options = SimpleFileOptions::default().compression_method(CompressionMethod::from_u16(method)).unix_permissions(mode).large_file(true);
    zip.inner.add_directory(name, options)
}

/// Relies on zip::ZipWriter::start_file: it appends an empty file entry,
/// open for writing, and refuses exactly a name already present.
#[verifier::external_body]
#[allow(deprecated)]
fn zip_start_file(zip: &mut ZipOut, name: &str, mode: u32, method: u16) -> (r: Result<(), ZipError>)
    requires
        method == 0 || method == 8,
        file_name_ok(name@),
    ensures
        (r is Ok) == !has_name(zip_out_entries(*old(zip)), name@),
        r is Ok ==> zip_out_entries(*final(zip)) == zip_out_entries(*old(zip)).push((name@, false, Seq::empty()))
            && zip_out_writing(*final(zip)),
        r is Err ==> zip_out_entries(*final(zip)) == zip_out_entries(*old(zip)),
{
    let options = SimpleFileOptions::default().compression_method(CompressionMethod::from_u16(method)).unix_permissions(mode).large_file(true);
    zip.inner.start_file(name, options)
}

/// Relies on the `Write::write_all` impl of zip::ZipWriter, on the first `n`
/// bytes of `buf`: they go to the open file entry, started as a large file.
#[verifier::external_body]
fn zip_write_all(zip: &mut ZipOut, buf: &Vec<u8>, n: usize) -> (r: Result<(), ()>)
    requires
        0 < n <= buf@.len(),
    ensures
        zip_out_writing(*old(zip)) && zip_out_entries(*old(zip)).len() > 0 ==> r is Ok,
        r is Ok ==> {
            let old_es = zip_out_entries(*old(zip));
            &&& zip_out_writing(*old(zip))
            &&& old_es.len() > 0
            &&& zip_out_writing(*final(zip))
            &&& zip_out_entries(*final(zip)) == old_es.drop_last().push(
                (old_es.last().0, old_es.last().1, old_es.last().2 + buf@.take(n as int)),
            )
        },
{
    zip.inner.write_all(&buf[..n]).map_err(|_| ())
}

/// Relies on zip::ZipWriter::finish, which writes the central directory and
/// hands back the cursor: zip reads those bytes back as the entries written.
#[verifier::external_body]
fn zip_finish(zip: ZipOut) -> (r: Result<Vec<u8>, ZipError>)
    requires
        well_named(zip_out_entries(zip)),
    ensures
        r is Ok,
        r is Ok ==> zip_read_of(r->Ok_0@) == Some(zip_out_entries(zip)),
{
    zip.inner.finish().map(|c| c.into_inner())
}

/// Relies on zip::ZipArchive::new: it reads the central directory of
/// `bytes`, and fails exactly on data that is no archive.
#[verifier::external_body]
fn zip_archive_open(bytes: Vec<u8>) -> (r: Result<ZipArchive<Cursor<Vec<u8>>>, ZipError>)
    ensures
        (r is Ok) == (zip_read_of(bytes@) is Some),
        r is Ok ==> zip_archive_entries(r->Ok_0) == zip_read_of(bytes@)->Some_0,
{
    ZipArchive::new(Cursor::new(bytes))
}

/// Relies on zip::ZipArchive::len: the number of entries.
#[verifier::external_body]
fn zip_archive_len(archive: &ZipArchive<Cursor<Vec<u8>>>) -> (r: usize)
    ensures
        r == zip_archive_entries(*archive).len(),
{
    archive.len()
}

/// One entry of an archive under construction, as the library records it.
pub struct EntryModel {
    /// The archive-relative directory that holds the entry (empty at the root).
    pub parent: Seq<char>,
    pub name: Seq<char>,
    pub is_dir: bool,
    /// The bytes of a file entry; empty for a directory.
    pub content: Seq<u8>,
}

/// The archive-relative path of an entry.
pub open spec fn path_of(e: EntryModel) -> Seq<char> {
    rel_join(e.parent, e.name)
}

/// `dir` is the root, or a directory entry among the first `upto` entries.
pub open spec fn marked_before(entries: Seq<EntryModel>, upto: int, dir: Seq<char>) -> bool {
    dir.len() == 0 || exists|j: int|
        0 <= j < upto && #[trigger] entries[j].is_dir && path_of(entries[j]) == dir
}

/// Every entry's directory is the root or was recorded before the entry.
pub open spec fn parents_precede(entries: Seq<EntryModel>) -> bool {
    forall|i: int| 0 <= i < entries.len() ==> marked_before(entries, i, #[trigger] entries[i].parent)
}

/// In an archive under construction the directory that holds an entry,
/// unless it is the root, has exactly one marker, and it stands before the
/// entry.
pub proof fn lemma_directories_precede(w: &ArchiveWriter, i: int, j: int)
    requires
        w.wf(),
        0 <= i < w.entries().len(),
        w.entries()[i].parent.len() > 0,
    ensures
        exists|k: int|
            0 <= k < i && #[trigger] w.entries()[k].is_dir && path_of(w.entries()[k]) == w.entries()[i].parent,
        0 <= j < w.entries().len() && w.entries()[j].is_dir && path_of(w.entries()[j]) == w.entries()[i].parent
            ==> j < i,
{
    let es = w.entries();
    assert(marked_before(es, i, es[i].parent));
    if 0 <= j < es.len() && es[j].is_dir && path_of(es[j]) == es[i].parent {
        let k = choose|k: int| 0 <= k < i && #[trigger] es[k].is_dir && path_of(es[k]) == es[i].parent;
        let c = container_of(es);
        assert(c[k] == zip_entry_of(es[k]));
        assert(c[j] == zip_entry_of(es[j]));
        assert(c[k].0 == c[j].0);
        assert(k == j);
    }
}

/// Every directory marker stands before every entry beneath that directory,
/// however deep.
pub proof fn lemma_markers_precede_descendants(w: &ArchiveWriter, i: int, j: int)
    requires
        w.wf(),
        0 <= i < w.entries().len(),
        0 <= j < w.entries().len(),
        w.entries()[j].is_dir,
        beneath(path_of(w.entries()[j]), path_of(w.entries()[i])),
    ensures
        j < i,
    decreases i,
{
    let es = w.entries();
    let e = es[i];
    assert(is_plain_name(es[i].name));
    lemma_beneath_join(path_of(es[j]), e.parent, e.name);
    assert(marked_before(es, i, e.parent));
    let k = choose|k: int| 0 <= k < i && #[trigger] es[k].is_dir && path_of(es[k]) == e.parent;
    if path_of(es[j]) == e.parent {
        let c = container_of(es);
        assert(c[k] == zip_entry_of(es[k]));
        assert(c[j] == zip_entry_of(es[j]));
        assert(c[k].0 == c[j].0);
    } else {
        lemma_markers_precede_descendants(w, k, j);
    }
}

proof fn lemma_marked_grows(entries: Seq<EntryModel>, upto: int, dir: Seq<char>, e: EntryModel)
    requires
        marked_before(entries, upto, dir),
        upto <= entries.len(),
    ensures
        marked_before(entries.push(e), upto, dir),
        marked_before(entries.push(e), upto + 1, dir),
{
    if dir.len() != 0 {
        let j = choose|j: int| 0 <= j < upto && #[trigger] entries[j].is_dir && path_of(entries[j]) == dir;
        assert(entries.push(e)[j] == entries[j]);
    }
}

proof fn lemma_push_entry(entries: Seq<EntryModel>, e: EntryModel)
    requires
        parents_precede(entries),
        marked_before(entries, entries.len() as int, e.parent),
    ensures
        parents_precede(entries.push(e)),
        forall|d: Seq<char>|
            marked_before(entries, entries.len() as int, d) ==> #[trigger] marked_before(
                entries.push(e),
                entries.len() as int + 1,
                d,
            ),
{
    let es = entries.push(e);
    assert forall|i: int| 0 <= i < es.len() implies marked_before(es, i, #[trigger] es[i].parent) by {
        if i < entries.len() {
            let p = entries[i].parent;
            assert(marked_before(entries, i, p));
            if p.len() != 0 {
                let j = choose|j: int| 0 <= j < i && #[trigger] entries[j].is_dir && path_of(entries[j]) == p;
                assert(es[j] == entries[j]);
            }
        } else {
            lemma_marked_grows(entries, entries.len() as int, e.parent, e);
        }
    }
    assert forall|d: Seq<char>| marked_before(entries, entries.len() as int, d) implies #[trigger] marked_before(
        es,
        entries.len() as int + 1,
        d,
    ) by {
        lemma_marked_grows(entries, entries.len() as int, d, e);
    }
}

/// The entry that zip records for `e`: a directory under its marker name.
pub open spec fn zip_entry_of(e: EntryModel) -> (Seq<char>, bool, Seq<u8>) {
    (if e.is_dir { marker_of(path_of(e)) } else { path_of(e) }, e.is_dir, e.content)
}

/// The entries that zip holds for the recorded `entries`.
pub open spec fn container_of(entries: Seq<EntryModel>) -> Seq<(Seq<char>, bool, Seq<u8>)> {
    entries.map_values(|e: EntryModel| zip_entry_of(e))
}

proof fn lemma_well_named_push(es: Seq<(Seq<char>, bool, Seq<u8>)>, x: (Seq<char>, bool, Seq<u8>))
    requires
        well_named(es),
        !has_name(es, x.0),
        if x.1 { dir_name_ok(x.0) } else { file_name_ok(x.0) },
    ensures
        well_named(es.push(x)),
{
    let ns = es.push(x);
    assert forall|i: int, j: int|
        0 <= i < ns.len() && 0 <= j < ns.len() && i != j implies #[trigger] ns[i].0 != #[trigger] ns[j].0 by {
        if i == es.len() {
            if ns[i].0 == ns[j].0 {
                assert(es[j].0 == x.0);
            }
        } else if j == es.len() {
            if ns[i].0 == ns[j].0 {
                assert(es[i].0 == x.0);
            }
        } else {
            assert(ns[i] == es[i] && ns[j] == es[j]);
        }
    }
    assert forall|i: int| 0 <= i < ns.len() implies if (#[trigger] ns[i]).1 {
        dir_name_ok(ns[i].0)
    } else {
        file_name_ok(ns[i].0)
    } by {
        if i < es.len() {
            assert(ns[i] == es[i]);
        }
    }
}

proof fn lemma_container_push(entries: Seq<EntryModel>, e: EntryModel)
    ensures
        container_of(entries.push(e)) == container_of(entries).push(zip_entry_of(e)),
{
    assert(container_of(entries.push(e)) =~= container_of(entries).push(zip_entry_of(e)));
}

/// Builds an archive container in memory, walking a source tree one
/// directory listing at a time.
///
/// The writer stands in one directory of the source (at first the root) and
/// keeps the directories whose listings are still to be visited.
pub struct ArchiveWriter {
    zip: Option<ZipOut>,
    current: String,
    pending: Vec<String>,
    entries: Ghost<Seq<EntryModel>>,
}

impl ArchiveWriter {
    /// The entries recorded so far, in order.
    pub closed spec fn entries(&self) -> Seq<EntryModel> {
        self.entries@
    }

    /// The archive-relative directory whose listing is being visited.
    pub closed spec fn current_dir(&self) -> Seq<char> {
        self.current@
    }

    /// The directories whose listings are still to be visited.
    pub closed spec fn pending_dirs(&self) -> Seq<Seq<char>> {
        self.pending@.map_values(|s: String| s@)
    }

    pub closed spec fn wf(&self) -> bool {
        &&& self.zip is Some
        &&& zip_out_entries(self.zip->Some_0) == container_of(self.entries@)
        &&& well_named(container_of(self.entries@))
        &&& forall|i: int| 0 <= i < self.entries@.len() ==> is_plain_name(#[trigger] self.entries@[i].name)
        &&& parents_precede(self.entries@)
        &&& marked_before(self.entries@, self.entries@.len() as int, self.current@)
        &&& forall|k: int|
            0 <= k < self.pending@.len() ==> marked_before(
                self.entries@,
                self.entries@.len() as int,
                #[trigger] self.pending@[k]@,
            )
    }

    /// An empty archive whose walk stands at the root.
    pub fn new() -> (r: ArchiveWriter)
        ensures
            r.wf(),
            r.entries() == Seq::<EntryModel>::empty(),
            r.current_dir() == Seq::<char>::empty(),
            r.pending_dirs() == Seq::<Seq<char>>::empty(),
    {
        let r = ArchiveWriter {
            zip: Some(zip_writer_new()),
            current: String::new(),
            pending: Vec::new(),
            entries: Ghost(Seq::empty()),
        };
        assert(r.pending@.map_values(|s: String| s@) =~= Seq::<Seq<char>>::empty());
        assert(container_of(r.entries@) =~= Seq::<(Seq<char>, bool, Seq<u8>)>::empty());
        assert(well_named(container_of(r.entries@)));
        r
    }

    /// Moves the walk to the next directory still to be listed, and returns
    /// its archive-relative path; `None` once every directory was visited.
    pub fn next_dir(&mut self) -> (r: Option<String>)
        requires
            old(self).wf(),
        ensures
            final(self).wf(),
            final(self).entries() == old(self).entries(),
            old(self).pending_dirs().len() == 0 ==> r is None && final(self).current_dir() == old(self).current_dir()
                && final(self).pending_dirs() == old(self).pending_dirs(),
            old(self).pending_dirs().len() > 0 ==> r is Some
                && r->Some_0@ == old(self).pending_dirs().last()
                && final(self).current_dir() == old(self).pending_dirs().last()
                && final(self).pending_dirs() == old(self).pending_dirs().drop_last(),
    {
        match self.pending.pop() {
            Some(d) => {
                self.current = d.clone();
                assert(self.pending@.map_values(|s: String| s@) =~= old(self).pending@.map_values(|s: String| s@).drop_last());
                assert(old(self).pending@[old(self).pending@.len() - 1] == d);
                Some(d)
            },
            None => None,
        }
    }

    /// Records the subdirectory `name` of the current directory: its marker
    /// entry is written now, and its listing is queued for a later visit.
    pub fn add_directory(&mut self, name: &str) -> (r: Result<(), TransferError>)
        requires
            old(self).wf(),
            is_plain_name(name@),
        ensures
            final(self).wf(),
            final(self).current_dir() == old(self).current_dir(),
            (r is Ok) == (!has_name(container_of(old(self).entries()), marker_of(rel_join(old(self).current_dir(), name@)))
                && marker_of(rel_join(old(self).current_dir(), name@)).len() <= NAME_LIMIT),
            r is Ok ==> final(self).entries() == old(self).entries().push(
                EntryModel { parent: old(self).current_dir(), name: name@, is_dir: true, content: Seq::empty() },
            ) && final(self).pending_dirs() == old(self).pending_dirs().push(rel_join(old(self).current_dir(), name@)),
            r is Err ==> r == Err::<(), TransferError>(TransferError::Io { operation: Operation::Write })
                && final(self).entries() == old(self).entries()
                && final(self).pending_dirs() == old(self).pending_dirs(),
    {
        let path = join_rel(self.current.as_str(), name);
        let marker = directory_marker(path.as_str());
        if marker.as_str().unicode_len() > NAME_LIMIT {
            return Err(TransferError::Io { operation: Operation::Write });
        }
        proof {
            reveal_strlit("/");
        }
        let res = match &mut self.zip {
            Some(z) => zip_add_directory(z, marker.as_str(), ENTRY_MODE, ENTRY_METHOD),
            None => {
                return Err(TransferError::Io { operation: Operation::Write });
            },
        };
        match res {
            Ok(()) => {
                let ghost e = EntryModel { parent: self.current@, name: name@, is_dir: true, content: Seq::empty() };
                let ghost old_entries = self.entries@;
                proof {
                    lemma_push_entry(old_entries, e);
                    lemma_container_push(old_entries, e);
                    lemma_well_named_push(container_of(old_entries), zip_entry_of(e));
                }
                self.entries = Ghost(old_entries.push(e));
                let ghost pend = self.pending@;
                self.pending.push(path);
                proof {
                    let es = self.entries@;
                    assert(es[old_entries.len() as int] == e);
                    assert(path_of(e) == path@);
                    assert(es[old_entries.len() as int].is_dir && path_of(es[old_entries.len() as int]) == path@);
                    assert(marked_before(es, es.len() as int, path@));
                    assert forall|k: int| 0 <= k < self.pending@.len() implies marked_before(
                        es, es.len() as int, #[trigger] self.pending@[k]@) by {
                        if k < pend.len() {
                            assert(self.pending@[k] == pend[k]);
                            assert(marked_before(old_entries, old_entries.len() as int, pend[k]@));
                        }
                    }
                    assert(self.pending@.map_values(|s: String| s@) =~= old(self).pending@.map_values(|s: String| s@).push(path@));
                }
                Ok(())
            },
            Err(_) => Err(TransferError::Io { operation: Operation::Write }),
        }
    }

    /// Records the file `name` of the current directory, with every byte
    /// that `source` still holds, read through a buffer of `buffer_size`
    /// bytes. After a failed read or write the writer is spent.
    pub fn add_file<S: ByteSource>(&mut self, name: &str, source: &mut S, buffer_size: usize) -> (r:
        Result<(), TransferError>)
        requires
            old(self).wf(),
            buffer_size > 0,
            is_plain_name(name@),
        ensures
            final(self).current_dir() == old(self).current_dir(),
            final(self).pending_dirs() == old(self).pending_dirs(),
            old(source).reliable() && !has_name(
                container_of(old(self).entries()),
                rel_join(old(self).current_dir(), name@),
            ) && file_name_ok(rel_join(old(self).current_dir(), name@)) ==> r is Ok,
            has_name(container_of(old(self).entries()), rel_join(old(self).current_dir(), name@))
                || !file_name_ok(rel_join(old(self).current_dir(), name@)) ==> r is Err,
            r is Ok ==> final(self).wf() && final(source).pending().len() == 0
                && final(self).entries() == old(self).entries().push(
                EntryModel { parent: old(self).current_dir(), name: name@, is_dir: false, content: old(source).pending() },
            ),
            r is Err ==> final(self).entries() == old(self).entries(),
    {
        let path = join_rel(self.current.as_str(), name);
        let name_len = name.unicode_len();
        proof {
            lemma_join_last(self.current@, name@);
        }
        if path.as_str().unicode_len() > NAME_LIMIT || name.get_char(name_len - 1) == '\\' {
            return Err(TransferError::Io { operation: Operation::Write });
        }
        let mut zip = match self.zip.take() {
            Some(z) => z,
            None => {
                return Err(TransferError::Io { operation: Operation::Write });
            },
        };
        if zip_start_file(&mut zip, path.as_str(), ENTRY_MODE, ENTRY_METHOD).is_err() {
            self.zip = Some(zip);
            return Err(TransferError::Io { operation: Operation::Write });
        }
        let ghost base = container_of(self.entries@);
        let ghost all = source.pending();
        let ghost mut done: Seq<u8> = Seq::empty();
        let mut buffer: Vec<u8> = vec![0u8; buffer_size];
        loop
            invariant
                buffer@.len() == buffer_size,
                buffer_size > 0,
                all == old(source).pending(),
                self.entries@ == old(self).entries@,
                self.current == old(self).current,
                self.pending == old(self).pending,
                base == container_of(self.entries@),
                zip_out_writing(zip),
                zip_out_entries(zip) == base.push((path@, false, done)),
                done + source.pending() == all,
                source.reliable() == old(source).reliable(),
            ensures
                source.pending().len() == 0,
            decreases source.pending().len(),
        {
            let ghost before = source.pending();
            let n = match source.read_chunk(&mut buffer) {
                Ok(n) => n,
                Err(e) => {
                    return Err(e);
                },
            };
            if n == 0 {
                break;
            }
            proof {
                assert(before =~= before.take(n as int) + before.skip(n as int));
                assert(done.len() + before.len() == all.len());
            }
            match zip_write_all(&mut zip, &buffer, n) {
                Ok(()) => {},
                Err(()) => {
                    return Err(TransferError::Io { operation: Operation::Write });
                },
            }
            proof {
                let es = base.push((path@, false, done));
                assert(es.drop_last() =~= base);
                done = done + buffer@.take(n as int);
                assert(done + source.pending() =~= all);
            }
        }
        self.zip = Some(zip);
        let ghost e = EntryModel { parent: self.current@, name: name@, is_dir: false, content: all };
        let ghost old_entries = self.entries@;
        proof {
            assert(done =~= all);
            assert(path_of(e) == path@);
            lemma_push_entry(old_entries, e);
            lemma_container_push(old_entries, e);
            lemma_well_named_push(container_of(old_entries), zip_entry_of(e));
            assert forall|k: int| 0 <= k < self.pending@.len() implies marked_before(
                old_entries.push(e), old_entries.len() as int + 1, #[trigger] self.pending@[k]@) by {
                assert(marked_before(old_entries, old_entries.len() as int, self.pending@[k]@));
            }
        }
        self.entries = Ghost(old_entries.push(e));
        Ok(())
    }

    /// Writes the archive's central directory and hands back its bytes,
    /// which zip reads back as exactly the recorded entries.
    pub fn finish(self) -> (r: Result<Vec<u8>, TransferError>)
        requires
            self.wf(),
        ensures
            r is Ok,
            zip_read_of(r->Ok_0@) == Some(container_of(self.entries())),
    {
        match self.zip {
            Some(z) => match zip_finish(z) {
                Ok(bytes) => Ok(bytes),
                Err(_) => Err(TransferError::Io { operation: Operation::Write }),
            },
            None => Err(TransferError::Io { operation: Operation::Write }),
        }
    }
}

/// A received archive container, checked to be readable.
pub struct ArchiveReader {
    archive: ZipArchive<Cursor<Vec<u8>>>,
}

impl ArchiveReader {
    /// The entries of the archive: name, whether a directory, content.
    pub closed spec fn entries(&self) -> Seq<(Seq<char>, bool, Seq<u8>)> {
        zip_archive_entries(self.archive)
    }

    /// Parses `bytes` as an archive; data that zip cannot read, malformed or
    /// cut short, is refused as corrupt.
    pub fn open(bytes: Vec<u8>) -> (r: Result<ArchiveReader, TransferError>)
        ensures
            (r is Ok) == (zip_read_of(bytes@) is Some),
            r is Ok ==> r->Ok_0.entries() == zip_read_of(bytes@)->Some_0,
            r is Err ==> r->Err_0 == TransferError::CorruptArchive,
    {
        match zip_archive_open(bytes) {
            Ok(archive) => Ok(ArchiveReader { archive }),
            Err(_) => Err(TransferError::CorruptArchive),
        }
    }

    /// The number of entries in the archive.
    pub fn entry_count(&self) -> (r: usize)
        ensures
            r == self.entries().len(),
    {
        zip_archive_len(&self.archive)
    }

    /// The parsed archive, for extraction onto a filesystem.
    pub fn into_archive(self) -> (r: ZipArchive<Cursor<Vec<u8>>>)
        ensures
            zip_archive_entries(r) == self.entries(),
    {
        self.archive
    }
}

/// An archive read back from what a writer produced holds exactly the
/// writer's entries, each under its archive path (a directory under its
/// marker), with its content.
pub proof fn lemma_archive_round_trip(entries: Seq<EntryModel>, bytes: Seq<u8>, i: int)
    requires
        zip_read_of(bytes) == Some(container_of(entries)),
        0 <= i < entries.len(),
    ensures
        zip_read_of(bytes) is Some,
        zip_read_of(bytes)->Some_0.len() == entries.len(),
        zip_read_of(bytes)->Some_0[i] == zip_entry_of(entries[i]),
        entries[i].is_dir ==> zip_read_of(bytes)->Some_0[i].0 == marker_of(path_of(entries[i])),
        !entries[i].is_dir ==> zip_read_of(bytes)->Some_0[i].0 == path_of(entries[i])
            && zip_read_of(bytes)->Some_0[i].2 == entries[i].content,
{
}

} // verus!
