//! The collection directory that a run works on.

use vstd::prelude::*;
use vstd::string::StringExecFns;

verus! {

/// The refusal of a path that does not exist.
pub open spec fn missing_message(path: Seq<char>) -> Seq<char> {
    "The path '"@ + path + "' does not exist."@
}

/// The refusal of a path that is no directory.
pub open spec fn not_a_directory_message(path: Seq<char>) -> Seq<char> {
    "The path '"@ + path + "' is not a directory."@
}

/// Accepts the path of a collection, given what the file system says of it:
/// the path must exist and be a directory. A path that does not exist is
/// refused as missing, whatever else is said of it.
pub fn get_collection_path<'a>(path_str: &'a str, exists: bool, is_dir: bool) -> (r: Result<
    &'a str,
    String,
>)
    ensures
        (exists && is_dir) ==> r == Ok::<&str, String>(path_str),
        !exists ==> (match r {
            Err(message) => message@ == missing_message(path_str@),
            Ok(_) => false,
        }),
        (exists && !is_dir) ==> (match r {
            Err(message) => message@ == not_a_directory_message(path_str@),
            Ok(_) => false,
        }),
{
    if !exists {
        let mut message = String::from_str("The path '");
        message.append(path_str);
        message.append("' does not exist.");
        return Err(message);
    }
    if !is_dir {
        let mut message = String::from_str("The path '");
        message.append(path_str);
        message.append("' is not a directory.");
        return Err(message);
    }
    Ok(path_str)
}

} // verus!
