//! Paths as std's `Path` reads them. Repo-relative paths travel through
//! the library as strings; what std makes of their components is named
//! here rather than restated.

use vstd::prelude::*;

verus! {

/// `p` joined onto `base` as std's `Path::join` joins them.
pub uninterp spec fn path_join(base: Seq<char>, p: Seq<char>) -> Seq<char>;

/// Calls std's `Path::join`; the result is named, since std's rules for
/// separators, roots and prefixes are not restated here.
#[verifier::external_body]
pub fn join_path(base: &str, p: &str) -> (r: String)
    ensures
        r@ == path_join(base@, p@),
{
    std::path::Path::new(base).join(p).to_string_lossy().into_owned()
}

/// `p` without its final component, as std's `Path::parent` gives it.
pub uninterp spec fn path_parent(p: Seq<char>) -> Option<Seq<char>>;

/// Calls std's `Path::parent`; the result is named, since what counts as
/// a component is std's to say.
#[verifier::external_body]
pub fn parent_path(p: &str) -> (r: Option<String>)
    ensures
        match r {
            Some(q) => path_parent(p@) == Some(q@),
            None => path_parent(p@) is None,
        },
{
    std::path::Path::new(p).parent().map(|q| q.to_string_lossy().into_owned())
}

/// The extension of the file `p` names, as std's `Path::extension` finds
/// it: the part of the final component after its last `.`, unless that
/// component has no `.` or only a leading one.
pub uninterp spec fn path_extension(p: Seq<char>) -> Option<Seq<char>>;

/// Calls std's `Path::extension`; the result is named, not restated.
#[verifier::external_body]
pub fn extension_of(p: &str) -> (r: Option<String>)
    ensures
        match r {
            Some(e) => path_extension(p@) == Some(e@),
            None => path_extension(p@) is None,
        },
{
    std::path::Path::new(p).extension().map(|e| e.to_string_lossy().into_owned())
}

} // verus!
