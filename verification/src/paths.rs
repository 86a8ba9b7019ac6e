//! File paths as text, taken apart and put together by std.
use vstd::prelude::*;
use vstd::string::*;

verus! {

/// The text of the path that `std::path::Path::parent` gives.
pub uninterp spec fn path_parent(p: Seq<char>) -> Option<Seq<char>>;

/// The text of what `std::path::Path::file_name` gives.
pub uninterp spec fn path_name(p: Seq<char>) -> Option<Seq<char>>;

/// The text of what `std::path::Path::join` gives.
pub uninterp spec fn path_join(dir: Seq<char>, rest: Seq<char>) -> Seq<char>;

/// `std::path::Path::parent`: the path without its last component, if it has a
/// parent. What counts as a component is not spelled out here, the result only
/// gets a name.
#[verifier::external_body]
pub(crate) fn parent(p: &str) -> (r: Option<String>)
    ensures
        match r {
            Some(d) => path_parent(p@) == Some(d@),
            None => path_parent(p@) is None,
        },
{
    match std::path::Path::new(p).parent() {
        Some(d) => Some(d.to_string_lossy().into_owned()),
        None => None,
    }
}

/// `std::path::Path::file_name`: the last component, if it is a plain name.
/// What counts as a component is not spelled out here, the result only gets a
/// name.
#[verifier::external_body]
pub(crate) fn file_name(p: &str) -> (r: Option<String>)
    ensures
        match r {
            Some(n) => path_name(p@) == Some(n@),
            None => path_name(p@) is None,
        },
{
    match std::path::Path::new(p).file_name() {
        Some(n) => Some(n.to_string_lossy().into_owned()),
        None => None,
    }
}

/// `std::path::Path::join`: a path below a directory. How the two are joined
/// is not spelled out here, the result only gets a name.
#[verifier::external_body]
pub(crate) fn join(dir: &str, rest: &str) -> (r: String)
    ensures
        r@ == path_join(dir@, rest@),
{
    std::path::Path::new(dir).join(rest).to_string_lossy().into_owned()
}

} // verus!
