//! The hidden-path policy: which paths the index leaves out.

use vstd::prelude::*;

verus! {

/// The final component of a path, as `std::path::Path::file_name` parses it
/// on the target platform; `None` where the path has no such component.
pub uninterp spec fn path_file_name(path: Seq<char>) -> Option<Seq<char>>;

/// The one directory name that is hidden without a leading dot.
pub open spec fn library_name() -> Seq<char> {
    seq!['L', 'i', 'b', 'r', 'a', 'r', 'y']
}

/// A name is hidden when it begins with `.` or is exactly `Library`.
pub open spec fn hidden_name(name: Seq<char>) -> bool {
    (name.len() > 0 && name[0] == '.') || name == library_name()
}

/// A path is hidden when it has a final component and that component is a
/// hidden name.
pub open spec fn hidden_path(path: Seq<char>) -> bool {
    match path_file_name(path) {
        Some(name) => hidden_name(name),
        None => false,
    }
}

/// Calls `std::path::Path::file_name` on the path that `path` spells and
/// hands the component back as text. The contract only gives the result its
/// name, `path_file_name`; what the parser does with separators, `.` and
/// `..` is not stated here.
#[verifier::external_body]
fn file_name_of(path: &str) -> (name: Option<String>)
    ensures
        match name {
            Some(n) => path_file_name(path@) == Some(n@),
            None => path_file_name(path@).is_none(),
        },
{
    std::path::Path::new(path).file_name().map(|n| n.to_string_lossy().into_owned())
}

/// Decides whether a single path component is hidden.
pub fn is_hidden_name(name: &str) -> (hidden: bool)
    ensures
        hidden == hidden_name(name@),
{
    let len: usize = name.unicode_len();
    if len == 0 {
        return false;
    }
    let first = name.get_char(0);
    if first == '.' {
        return true;
    }
    if len != 7 {
        return false;
    }
    let same = first == 'L' && name.get_char(1) == 'i' && name.get_char(2) == 'b'
        && name.get_char(3) == 'r' && name.get_char(4) == 'a' && name.get_char(5) == 'r'
        && name.get_char(6) == 'y';
    proof {
        if same {
            assert(name@ =~= library_name());
        }
    }
    same
}

/// Decides whether a path is hidden: its final component begins with `.` or
/// is `Library`. A path without a final component is not hidden.
pub fn is_hidden_path(path: &str) -> (hidden: bool)
    ensures
        hidden == hidden_path(path@),
{
    match file_name_of(path) {
        Some(name) => is_hidden_name(name.as_str()),
        None => false,
    }
}

} // verus!
