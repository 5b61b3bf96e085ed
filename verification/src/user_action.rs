//! Batch metric computation: one record per file, dispatched by the user's
//! action.  The caller enumerates the files and reads their lengths or
//! contents (in parallel if it likes); this module turns that input into
//! records, all of them or none.

use vstd::prelude::*;

use crate::enums::UserAction;
use crate::hash::{rel_path_of, size, xxh3, xxh3_of, HashResult, RecordV};

verus! {

/// What the caller read for one file: its byte length (for the `Size`
/// action) or its whole content (for the `XXH3` action).
pub enum FileData {
    Length(u64),
    Content(Vec<u8>),
}

/// One enumerated file: its path as the enumerator produced it, and the
/// data read from it.
pub struct FileEntry {
    pub path: String,
    pub data: FileData,
}

/// Whether the data read for a file is the kind the action needs.
pub open spec fn data_matches(action: UserAction, e: FileEntry) -> bool {
    match (action, e.data) {
        (UserAction::Size, FileData::Length(_)) => true,
        (UserAction::XXH3, FileData::Content(_)) => true,
        _ => false,
    }
}

/// The record an entry yields: the byte length under `Size`, the content
/// fingerprint under `XXH3`, in both cases under the normalized relative
/// path.
pub open spec fn entry_record(action: UserAction, cwd: Seq<char>, e: FileEntry) -> RecordV {
    match e.data {
        FileData::Length(n) => RecordV {
            action: UserAction::Size,
            path: rel_path_of(e.path@, cwd),
            value: n,
        },
        FileData::Content(b) => RecordV {
            action: UserAction::XXH3,
            path: rel_path_of(e.path@, cwd),
            value: xxh3_of(b@),
        },
    }
}

/// Computes one record per file, all of them or none: the whole batch
/// succeeds exactly when the action is a stored metric and every entry
/// carries the matching kind of data, and then yields exactly one record
/// per input file, in input order.
pub fn get_hash_results(action: &UserAction, cwd: &str, files: &Vec<FileEntry>) -> (r: Result<
    Vec<HashResult>,
    String,
>)
    ensures
        r is Ok <==> (*action != UserAction::Check && forall|i: int|
            0 <= i < files@.len() ==> data_matches(*action, #[trigger] files@[i])),
        r is Ok ==> r->Ok_0@.len() == files@.len(),
        r is Ok ==> forall|i: int|
            0 <= i < files@.len() ==> #[trigger] r->Ok_0@[i]@ == entry_record(
                *action,
                cwd@,
                files@[i],
            ),
{
    if *action == UserAction::Check {
        return Err(String::from_str("the check action computes no stored metric"));
    }
    let mut out: Vec<HashResult> = Vec::new();
    let mut i: usize = 0;
    while i < files.len()
        invariant
            0 <= i <= files@.len(),
            *action != UserAction::Check,
            out@.len() == i,
            forall|k: int| 0 <= k < i ==> data_matches(*action, #[trigger] files@[k]),
            forall|k: int|
                0 <= k < i ==> #[trigger] out@[k]@ == entry_record(*action, cwd@, files@[k]),
        decreases files@.len() - i,
    {
        let entry = &files[i];
        match (*action, &entry.data) {
            (UserAction::Size, FileData::Length(n)) => {
                out.push(size(entry.path.as_str(), cwd, *n));
            },
            (UserAction::XXH3, FileData::Content(b)) => {
                out.push(xxh3(entry.path.as_str(), cwd, b.as_slice()));
            },
            _ => {
                assert(!data_matches(*action, files@[i as int]));
                return Err(String::from_str("file data does not match the requested action"));
            },
        }
        i += 1;
    }
    Ok(out)
}

} // verus!
