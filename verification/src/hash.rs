//! Records and per-file metric computation: the 64-bit XXH3 content
//! fingerprint, the byte-length metric, and the relative-path form a record
//! stores.  File contents and lengths are handed in by the caller; nothing
//! here touches the file system.

use vstd::prelude::*;

use crate::enums::UserAction;
use crate::text::{normalize_chars, normalize_str};

verus! {

/// The XXH3 64-bit fingerprint of a byte string.  The algorithm is a pure
/// function of the byte content; the value itself is stated only through
/// this name.
pub uninterp spec fn xxh3_of(bytes: Seq<u8>) -> u64;

/// Relies on `xxhash_rust::xxh3::xxh3_64`: computes the 64-bit XXH3
/// fingerprint of the input, a deterministic function of the bytes alone
/// (default seed and secret).
#[verifier::external_body]
pub fn xxh3_bytes(bytes: &[u8]) -> (r: u64)
    ensures
        r == xxh3_of(bytes@),
{
    xxhash_rust::xxh3::xxh3_64(bytes)
}

/// Law: the fingerprint metric is deterministic — the same content always
/// yields the same fingerprint, on every invocation.
pub proof fn lemma_metric_deterministic(b1: Seq<u8>, b2: Seq<u8>)
    requires
        b1 == b2,
    ensures
        xxh3_of(b1) == xxh3_of(b2),
{
}

/// The mathematical shape of one record: an action, a relative path, and
/// the 64-bit metric value.
pub ghost struct RecordV {
    pub action: UserAction,
    pub path: Seq<char>,
    pub value: u64,
}

/// One file's computed metric: the action that produced it, the file's path
/// relative to the scan root with forward-slash separators, and the value —
/// the byte length for `Size`, the fingerprint for `XXH3`.
#[derive(Debug)]
pub struct HashResult {
    pub action: UserAction,
    pub relative_path: String,
    pub value: u64,
}

impl View for HashResult {
    type V = RecordV;

    open spec fn view(&self) -> RecordV {
        RecordV { action: self.action, path: self.relative_path@, value: self.value }
    }
}

/// A sequence with its leading separators removed.
pub open spec fn drop_leading_slashes(s: Seq<char>) -> Seq<char>
    decreases s.len(),
{
    if s.len() > 0 && s[0] == '/' {
        drop_leading_slashes(s.drop_first())
    } else {
        s
    }
}

/// Whether `c` names a directory that `p` lies strictly inside, both
/// already normalized: `c` spells out a proper prefix of `p` and ends at a
/// separator boundary.
pub open spec fn extends_prefix(p: Seq<char>, c: Seq<char>) -> bool {
    p.len() > c.len() && p.take(c.len() as int) == c && ((c.len() > 0 && c.last() == '/') || p[
        c.len() as int
    ] == '/')
}

/// Strips a directory prefix from a path, both already normalized: when
/// the path lies strictly inside the prefix, the prefix and every
/// separator after it are removed, so the remainder never begins with a
/// separator.  A path that does not extend the prefix is returned whole.
pub open spec fn strip_prefix_chars(p: Seq<char>, c: Seq<char>) -> Seq<char> {
    if extends_prefix(p, c) {
        drop_leading_slashes(p.skip(c.len() as int))
    } else {
        p
    }
}

/// What remains after dropping leading separators: a suffix that does not
/// begin with one.
pub proof fn lemma_drop_leading_slashes(s: Seq<char>)
    ensures
        drop_leading_slashes(s).len() == 0 || drop_leading_slashes(s)[0] != '/',
        exists|j: int|
            0 <= j <= s.len() && drop_leading_slashes(s) == s.skip(j) && (forall|k: int|
                0 <= k < j ==> #[trigger] s[k] == '/'),
    decreases s.len(),
{
    if s.len() > 0 && s[0] == '/' {
        lemma_drop_leading_slashes(s.drop_first());
        let j0 = choose|j: int|
            0 <= j <= s.drop_first().len() && drop_leading_slashes(s.drop_first())
                == s.drop_first().skip(j) && (forall|k: int|
                0 <= k < j ==> #[trigger] s.drop_first()[k] == '/');
        assert(s.drop_first().skip(j0) =~= s.skip(j0 + 1));
        assert forall|k: int| 0 <= k < j0 + 1 implies #[trigger] s[k] == '/' by {
            if k >= 1 {
                assert(s.drop_first()[k - 1] == '/');
            }
        }
        assert(0 <= j0 + 1 <= s.len() && drop_leading_slashes(s) == s.skip(j0 + 1) && (forall|
            k: int,
        | 0 <= k < j0 + 1 ==> #[trigger] s[k] == '/'));
    } else {
        assert(s.skip(0) =~= s);
        assert(0 <= 0 <= s.len() && drop_leading_slashes(s) == s.skip(0) && (forall|k: int|
            0 <= k < 0 ==> #[trigger] s[k] == '/'));
    }
}

/// The stored relative path: separators normalized, then the root stripped.
pub open spec fn rel_path_of(path: Seq<char>, cwd: Seq<char>) -> Seq<char> {
    strip_prefix_chars(normalize_chars(path), normalize_chars(cwd))
}

/// Law: a stored relative path never begins with a separator — whenever
/// the path lies strictly inside the root, the stripped remainder is
/// either empty or starts with an ordinary character.
pub proof fn lemma_rel_path_no_leading_separator(path: Seq<char>, cwd: Seq<char>)
    requires
        extends_prefix(normalize_chars(path), normalize_chars(cwd)),
    ensures
        rel_path_of(path, cwd).len() == 0 || rel_path_of(path, cwd)[0] != '/',
{
    lemma_drop_leading_slashes(normalize_chars(path).skip(normalize_chars(cwd).len() as int));
}

/// Whether the first `n` characters of `a` spell out all of `b`.
fn prefix_eq(a: &str, b: &str, n: usize) -> (r: bool)
    requires
        n <= a@.len(),
        n == b@.len(),
    ensures
        r == (a@.take(n as int) == b@),
{
    let mut i: usize = 0;
    while i < n
        invariant
            0 <= i <= n,
            n <= a@.len(),
            n == b@.len(),
            forall|k: int| 0 <= k < i ==> a@[k] == b@[k],
        decreases n - i,
    {
        if a.get_char(i) != b.get_char(i) {
            assert(a@.take(n as int)[i as int] != b@[i as int]);
            return false;
        }
        i += 1;
    }
    assert(a@.take(n as int) =~= b@);
    true
}

/// Normalizes both paths and strips the root prefix together with every
/// separator that follows it.
pub fn relative_path_of(path: &str, cwd: &str) -> (r: String)
    ensures
        r@ == rel_path_of(path@, cwd@),
{
    let p = normalize_str(path);
    let c = normalize_str(cwd);
    let np = p.as_str().unicode_len();
    let nc = c.as_str().unicode_len();
    let pref = if np > nc {
        prefix_eq(p.as_str(), c.as_str(), nc)
    } else {
        false
    };
    if pref && ((nc > 0 && c.as_str().get_char(nc - 1) == '/') || p.as_str().get_char(nc) == '/') {
        assert(extends_prefix(p@, c@));
        let mut k: usize = nc;
        while k < np && p.as_str().get_char(k) == '/'
            invariant
                nc <= k <= np,
                np == p@.len(),
                forall|j: int| nc <= j < k ==> #[trigger] p@[j] == '/',
            decreases np - k,
        {
            k += 1;
        }
        proof {
            lemma_drop_slashes_is(p@.skip(nc as int), k - nc);
        }
        return p.as_str().substring_char(k, np).to_owned();
    }
    p
}

/// Dropping leading separators stops at the first ordinary character.
proof fn lemma_drop_slashes_is(s: Seq<char>, j: int)
    requires
        0 <= j <= s.len(),
        forall|k: int| 0 <= k < j ==> #[trigger] s[k] == '/',
        j < s.len() ==> s[j] != '/',
    ensures
        drop_leading_slashes(s) == s.skip(j),
    decreases j,
{
    if j == 0 {
        assert(s.skip(0) =~= s);
    } else {
        assert(s[0] == '/');
        assert forall|k: int| 0 <= k < j - 1 implies #[trigger] s.drop_first()[k] == '/' by {
            assert(s[k + 1] == '/');
        }
        if j - 1 < s.drop_first().len() {
            assert(s.drop_first()[j - 1] == s[j]);
        }
        lemma_drop_slashes_is(s.drop_first(), j - 1);
        assert(s.drop_first().skip(j - 1) =~= s.skip(j));
    }
}

/// Builds the `Size` record for a file: the byte length the caller read
/// from the file's metadata, under the normalized relative path.
pub fn size(path: &str, cwd: &str, file_length: u64) -> (r: HashResult)
    ensures
        r@ == (RecordV {
            action: UserAction::Size,
            path: rel_path_of(path@, cwd@),
            value: file_length,
        }),
{
    HashResult {
        action: UserAction::Size,
        relative_path: relative_path_of(path, cwd),
        value: file_length,
    }
}

/// Builds the `XXH3` record for a file: the fingerprint of the file's whole
/// content, under the normalized relative path.
pub fn xxh3(path: &str, cwd: &str, file_bytes: &[u8]) -> (r: HashResult)
    ensures
        r@ == (RecordV {
            action: UserAction::XXH3,
            path: rel_path_of(path@, cwd@),
            value: xxh3_of(file_bytes@),
        }),
{
    HashResult {
        action: UserAction::XXH3,
        relative_path: relative_path_of(path, cwd),
        value: xxh3_bytes(file_bytes),
    }
}

} // verus!
