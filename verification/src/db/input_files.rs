//! Content records: immutable observations of content at a path, keyed by
//! (hash, path). Re-inserting an existing key is a no-op; records are never
//! mutated or deleted.

use vstd::prelude::*;

verus! {

/// The mathematical value of a content record.
pub ghost struct InputFileView {
    pub hash: Seq<char>,
    pub path: Seq<char>,
    pub contents: Seq<u8>,
    pub size: int,
    pub inline: bool,
}

/// A stored content record: the fingerprint and logical path of an observed
/// file, its bytes (empty when cached on disk instead), its size, and whether
/// the bytes are held inline.
#[derive(Debug, Clone)]
pub struct InputFile {
    pub hash: String,
    pub path: String,
    pub contents: Vec<u8>,
    pub size: i64,
    pub inline: bool,
}

impl View for InputFile {
    type V = InputFileView;

    open spec fn view(&self) -> InputFileView {
        InputFileView {
            hash: self.hash@,
            path: self.path@,
            contents: self.contents@,
            size: self.size as int,
            inline: self.inline,
        }
    }
}

/// A content record as handed to the store for insertion.
#[derive(Debug, Clone)]
pub struct InputFileIn {
    pub hash: String,
    pub path: String,
    pub contents: Vec<u8>,
    pub size: i64,
    pub inline: bool,
}

impl View for InputFileIn {
    type V = InputFileView;

    open spec fn view(&self) -> InputFileView {
        InputFileView {
            hash: self.hash@,
            path: self.path@,
            contents: self.contents@,
            size: self.size as int,
            inline: self.inline,
        }
    }
}

/// The views of a sequence of content records.
pub open spec fn file_views(s: Seq<InputFile>) -> Seq<InputFileView> {
    s.map_values(|x: InputFile| x@)
}

/// The views of a sequence of content-record inserts.
pub open spec fn file_in_views(s: Seq<InputFileIn>) -> Seq<InputFileView> {
    s.map_values(|x: InputFileIn| x@)
}

/// Does `files` hold a record keyed (`hash`, `path`)?
pub open spec fn has_file_key(files: Seq<InputFileView>, hash: Seq<char>, path: Seq<char>) -> bool {
    exists|i: int| 0 <= i < files.len() && #[trigger] files[i].hash == hash && files[i].path == path
}

/// One insert-or-ignore step on a sequence of content records.
pub open spec fn or_ignore_file(base: Seq<InputFileView>, f: InputFileView) -> Seq<InputFileView> {
    if has_file_key(base, f.hash, f.path) {
        base
    } else {
        base.push(f)
    }
}

/// Insert-or-ignore of a whole batch, in arrival order.
pub open spec fn or_ignore_files(base: Seq<InputFileView>, adds: Seq<InputFileView>) -> Seq<
    InputFileView,
>
    decreases adds.len(),
{
    if adds.len() == 0 {
        base
    } else {
        or_ignore_file(or_ignore_files(base, adds.drop_last()), adds.last())
    }
}

/// Every key of the base or of the batch is present after the batch is
/// inserted with ignored duplicates.
pub proof fn lemma_or_ignore_files_keys(
    base: Seq<InputFileView>,
    adds: Seq<InputFileView>,
    hash: Seq<char>,
    path: Seq<char>,
)
    requires
        has_file_key(base + adds, hash, path),
    ensures
        has_file_key(or_ignore_files(base, adds), hash, path),
    decreases adds.len(),
{
    if adds.len() == 0 {
        assert(base + adds =~= base);
    } else {
        let i = choose|i: int|
            0 <= i < (base + adds).len() && #[trigger] (base + adds)[i].hash == hash && (base
                + adds)[i].path == path;
        let prev = or_ignore_files(base, adds.drop_last());
        if i < (base + adds).len() - 1 {
            assert((base + adds.drop_last())[i].hash == hash);
            lemma_or_ignore_files_keys(base, adds.drop_last(), hash, path);
            let j = choose|j: int|
                0 <= j < prev.len() && #[trigger] prev[j].hash == hash && prev[j].path == path;
            if !has_file_key(prev, adds.last().hash, adds.last().path) {
                assert(prev.push(adds.last())[j].hash == hash);
            }
        } else {
            assert(adds.last().hash == hash && adds.last().path == path);
            if has_file_key(prev, hash, path) {
            } else {
                assert(prev.push(adds.last())[prev.len() as int].hash == hash);
            }
        }
    }
}

} // verus!
