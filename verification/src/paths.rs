//! The parts of a file path. The parent and the final component are what
//! the standard library's `Path` makes of the path on the platform the
//! library is built for; the extension is read off the final component.

use vstd::prelude::*;
use vstd::string::StrSliceExecFns;
use crate::text::chars_of;
use crate::types::opt_text;

verus! {

/// The path without its final component. This names what
/// `std::path::Path::parent` returns for the path.
pub uninterp spec fn path_parent(path: Seq<char>) -> Option<Seq<char>>;

/// The final component of the path. This names what
/// `std::path::Path::file_name` returns for the path.
pub uninterp spec fn path_file_name(path: Seq<char>) -> Option<Seq<char>>;

/// The position of the last dot of `name`, if it has one.
pub open spec fn last_dot(name: Seq<char>) -> Option<int>
    decreases name.len(),
{
    if name.len() == 0 {
        None
    } else if name.last() == '.' {
        Some(name.len() - 1)
    } else {
        last_dot(name.drop_last())
    }
}

/// The extension of a file name: what follows its last dot. A name without a
/// dot has none, nor has a name whose only dot comes first.
pub open spec fn extension_in(name: Seq<char>) -> Option<Seq<char>> {
    match last_dot(name) {
        None => None,
        Some(k) => if k == 0 {
            None
        } else {
            Some(name.skip(k + 1))
        },
    }
}

/// The extension of the path: that of its final component, if it has one.
pub open spec fn path_extension(path: Seq<char>) -> Option<Seq<char>> {
    match path_file_name(path) {
        None => None,
        Some(name) => extension_in(name),
    }
}

/// Trusted: calls `std::path::Path::parent` on the path and turns the
/// result back into text. The contract only gives the result its name.
#[verifier::external_body]
pub(crate) fn parent_of(path: &str) -> (r: Option<String>)
    ensures
        opt_text(r) == path_parent(path@),
{
    match std::path::Path::new(path).parent() {
        Some(p) => Some(p.to_string_lossy().into_owned()),
        None => None,
    }
}

/// Trusted: calls `std::path::Path::file_name` on the path and turns the
/// result back into text. The contract only gives the result its name.
#[verifier::external_body]
pub(crate) fn file_name_of(path: &str) -> (r: Option<String>)
    ensures
        opt_text(r) == path_file_name(path@),
{
    match std::path::Path::new(path).file_name() {
        Some(n) => Some(n.to_string_lossy().into_owned()),
        None => None,
    }
}

/// The extension of a file name.
pub fn extension_of_name(name: &str) -> (r: Option<String>)
    ensures
        opt_text(r) == extension_in(name@),
{
    let v = chars_of(name);
    let mut i: usize = v.len();
    assert(v@.take(i as int) =~= v@);
    while i > 0
        invariant
            i <= v.len(),
            v@ == name@,
            last_dot(v@) == last_dot(v@.take(i as int)),
        decreases i,
    {
        assert(v@.take(i as int).drop_last() =~= v@.take(i - 1));
        if v[i - 1] == '.' {
            if i - 1 == 0 {
                return None;
            }
            let rest = name.substring_char(i, v.len());
            assert(name@.skip(i as int) =~= name@.subrange(i as int, v.len() as int));
            return Some(rest.to_owned());
        }
        i -= 1;
    }
    None
}

/// The extension of a path: that of its final component.
pub fn extension_of(path: &str) -> (r: Option<String>)
    ensures
        opt_text(r) == path_extension(path@),
{
    match file_name_of(path) {
        Some(name) => extension_of_name(name.as_str()),
        None => None,
    }
}

} // verus!
