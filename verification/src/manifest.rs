//! The executable-file enumerator's decisions. A package's file manifest
//! arrives as lines of `package path`; the front end pairs each path with
//! what the filesystem says about it at query time. An entry qualifies as
//! a work unit when the path still exists, is a regular file, and carries
//! at least one executable permission bit. Vanished entries are skipped
//! silently: a file removed between the manifest snapshot and the scan is
//! not an error.
use vstd::prelude::*;

use crate::bytes::SPACE;
use crate::bytes::find_byte;
use crate::bytes::find_from;
use crate::bytes::lemma_find_from;
use crate::bytes::copy_bytes;
use crate::bytes::subvec;

verus! {

/// One manifest entry together with the filesystem's answers about its path.
pub struct FileEntry {
    pub path: Vec<u8>,
    /// The path still exists on disk.
    pub exists: bool,
    /// The path is a regular file (not a directory or other object).
    pub is_file: bool,
    /// The file's permission bits.
    pub mode: u32,
}

/// The abstract value of a manifest entry.
pub struct FileEntryModel {
    pub path: Seq<u8>,
    pub exists: bool,
    pub is_file: bool,
    pub mode: u32,
}

impl View for FileEntry {
    type V = FileEntryModel;

    open spec fn view(&self) -> FileEntryModel {
        FileEntryModel {
            path: self.path@,
            exists: self.exists,
            is_file: self.is_file,
            mode: self.mode,
        }
    }
}

/// An entry that yields a unit of work: present, regular, and executable
/// by someone.
pub open spec fn qualifies(e: FileEntryModel) -> bool {
    e.exists && e.is_file && (e.mode & 0o111) != 0
}

/// The paths of the qualifying entries, in manifest order.
pub open spec fn spec_executable_paths(entries: Seq<FileEntryModel>) -> Seq<Seq<u8>>
    decreases entries.len(),
{
    if entries.len() == 0 {
        Seq::empty()
    } else {
        let rest = spec_executable_paths(entries.drop_last());
        if qualifies(entries.last()) {
            rest.push(entries.last().path)
        } else {
            rest
        }
    }
}

/// Law: entries that fail qualification — a directory, a file without any
/// executable bit, a vanished file — contribute nothing: a manifest of
/// such entries yields no work item at all.
pub proof fn lemma_nonqualifying_entries_yield_nothing(entries: Seq<FileEntryModel>)
    requires
        forall|i: int| 0 <= i < entries.len() ==> !qualifies(#[trigger] entries[i]),
    ensures
        spec_executable_paths(entries).len() == 0,
    decreases entries.len(),
{
    if entries.len() > 0 {
        assert(forall|i: int|
            0 <= i < entries.drop_last().len() ==> !qualifies(
                #[trigger] entries.drop_last()[i],
            ));
        lemma_nonqualifying_entries_yield_nothing(entries.drop_last());
    }
}

/// The path a manifest line names: the text between the first space and
/// the following space or line end. A line without a space names no path,
/// which breaks the manifest format and aborts the scan upstream.
pub open spec fn spec_manifest_path(l: Seq<u8>) -> Option<Seq<u8>> {
    let s1 = find_from(l, 0, SPACE);
    if s1 == l.len() {
        None
    } else {
        Some(l.subrange(s1 + 1, find_from(l, s1 + 1, SPACE)))
    }
}

/// Extracts the path from one manifest line.
pub fn manifest_path(line: &Vec<u8>) -> (r: Option<Vec<u8>>)
    ensures
        r is Some <==> spec_manifest_path(line@) is Some,
        r is Some ==> r->Some_0@ == spec_manifest_path(line@)->Some_0,
{
    proof {
        lemma_find_from(line@, 0, SPACE);
    }
    let s1 = find_byte(line, 0, SPACE);
    if s1 == line.len() {
        return None;
    }
    proof {
        lemma_find_from(line@, s1 + 1, SPACE);
    }
    let s2 = find_byte(line, s1 + 1, SPACE);
    Some(subvec(line, s1 + 1, s2))
}

/// Filters a package's manifest entries down to the paths that yield work
/// units, keeping manifest order. Directories, files without any executable
/// bit, and vanished files produce none.
pub fn executable_paths(entries: &Vec<FileEntry>) -> (r: Vec<Vec<u8>>)
    ensures
        r.deep_view() == spec_executable_paths(crate::seq_view(entries@)),
{
    let ghost ev = crate::seq_view(entries@);
    let mut r: Vec<Vec<u8>> = Vec::new();
    let mut i: usize = 0;
    while i < entries.len()
        invariant
            0 <= i <= entries@.len(),
            ev == crate::seq_view(entries@),
            r.deep_view() == spec_executable_paths(ev.subrange(0, i as int)),
        decreases entries@.len() - i,
    {
        let ghost prev = r.deep_view();
        proof {
            assert(ev.subrange(0, i + 1 as int).drop_last() =~= ev.subrange(0, i as int));
            assert(ev.subrange(0, i + 1 as int).last() == ev[i as int]);
        }
        let e = &entries[i];
        if e.exists && e.is_file && (e.mode & 0o111) != 0 {
            r.push(copy_bytes(&e.path));
            proof {
                assert(r.deep_view() =~~= prev.push(ev[i as int].path));
            }
        }
        i = i + 1;
    }
    proof {
        assert(ev.subrange(0, ev.len() as int) =~= ev);
    }
    r
}

} // verus!
