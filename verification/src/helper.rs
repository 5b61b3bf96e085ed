//! Helpers around enumeration and manifest discovery: separator
//! normalization, filtering manifest files out of an enumerated list, and
//! picking the single manifest in a root.  The caller walks the file
//! system; these functions work on the names it found.

use vstd::prelude::*;

use crate::text::{normalize_chars, normalize_str};

verus! {

/// A path rendered with forward slashes whatever the platform wrote.
pub trait ToStringNormalised {
    /// The characters of the value's textual form, before normalization.
    spec fn chars_view(&self) -> Seq<char>;

    /// The textual form with every backslash replaced by a forward slash.
    fn to_string_normalised(&self) -> (r: String)
        ensures
            r@ == normalize_chars(self.chars_view()),
    ;
}

impl ToStringNormalised for String {
    open spec fn chars_view(&self) -> Seq<char> {
        self@
    }

    fn to_string_normalised(&self) -> (r: String) {
        normalize_str(self.as_str())
    }
}

/// A name that ends in the manifest suffix.
pub open spec fn is_manifest_name(s: Seq<char>) -> bool {
    s.len() >= 7 && s.skip(s.len() - 7) == ".hasher"@
}

/// Whether the name ends in the manifest suffix.
pub fn has_manifest_suffix(s: &str) -> (r: bool)
    ensures
        r == is_manifest_name(s@),
{
    let n = s.unicode_len();
    if n < 7 {
        return false;
    }
    let tail = s.substring_char(n - 7, n).to_owned();
    let pat = String::from_str(".hasher");
    let r = tail == pat;
    proof {
        assert(tail@ =~= s@.skip(s@.len() - 7));
    }
    r
}

/// Keeps, of an enumerated list of file names, those that are not manifest
/// files themselves; order is preserved.  The caller supplies the names its
/// walk of the root produced (regular files only) and applies its own
/// exclusion filter.
pub fn get_all_local_files(candidates: Vec<String>) -> (r: Vec<String>)
    ensures
        r@.map_values(|s: String| s@) == candidates@.map_values(|s: String| s@).filter(
            |p: Seq<char>| !is_manifest_name(p),
        ),
{
    broadcast use vstd::seq_lib::group_filter_ensures;

    let ghost views = candidates@.map_values(|s: String| s@);
    let ghost pred = |p: Seq<char>| !is_manifest_name(p);
    let mut r: Vec<String> = Vec::new();
    let mut i: usize = 0;
    proof {
        assert(views.take(0) =~= Seq::<Seq<char>>::empty());
        assert(Seq::<Seq<char>>::empty().filter(pred) =~= Seq::<Seq<char>>::empty()) by {
            Seq::<Seq<char>>::empty().lemma_filter_len(pred);
        }
        assert(r@.map_values(|s: String| s@) =~= Seq::<Seq<char>>::empty());
    }
    while i < candidates.len()
        invariant
            0 <= i <= candidates@.len(),
            views == candidates@.map_values(|s: String| s@),
            views.len() == candidates@.len(),
            pred == (|p: Seq<char>| !is_manifest_name(p)),
            r@.map_values(|s: String| s@) == views.take(i as int).filter(pred),
        decreases candidates@.len() - i,
    {
        let ghost r_old = r@.map_values(|s: String| s@);
        let keep = !has_manifest_suffix(candidates[i].as_str());
        if keep {
            let item = candidates[i].clone();
            proof {
                assert(item@ == views[i as int]);
            }
            r.push(item);
            proof {
                assert(r@.map_values(|s: String| s@) =~= r_old.push(views[i as int]));
            }
        }
        proof {
            assert(views.take(i as int + 1) =~= views.take(i as int).push(views[i as int]));
            views.take(i as int).lemma_filter_push(views[i as int], pred);
            assert(views.take(i as int).push(views[i as int]).filter(pred) == if pred(
                views[i as int],
            ) {
                views.take(i as int).filter(pred).push(views[i as int])
            } else {
                views.take(i as int).filter(pred)
            });
        }
        i += 1;
    }
    proof {
        assert(views.take(views.len() as int) =~= views);
    }
    r
}

/// Picks the manifest to verify against: demands exactly one candidate.
/// Zero or several manifests in a root leave the intent ambiguous, and the
/// caller must disambiguate; both are failures here.
pub fn get_hasher_file(candidates: &Vec<String>) -> (r: Result<String, String>)
    ensures
        r is Ok <==> candidates@.len() == 1,
        r is Ok ==> r->Ok_0@ == candidates@[0]@,
{
    if candidates.len() == 1 {
        Ok(candidates[0].clone())
    } else {
        Err(String::from_str("expected exactly one manifest file in the root"))
    }
}

} // verus!
