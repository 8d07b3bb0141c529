//! Checking the path of the input file before anything is read.

use vstd::prelude::*;
use vstd::string::StringExecFns;

verus! {

/// What is said of a path at which no file was found.
pub open spec fn missing_message(path: Seq<char>) -> Seq<char> {
    "\""@ + path + "\" does not exist"@
}

/// Accepts the path of the input file where one exists there, and says
/// that it does not exist otherwise. `exists` is what the file system
/// answered for `path`.
pub fn does_exist(path: &str, exists: bool) -> (r: Result<String, String>)
    ensures
        match r {
            Ok(accepted) => exists && accepted@ == path@,
            Err(message) => !exists && message@ == missing_message(path@),
        },
{
    if exists {
        Ok(String::from_str(path))
    } else {
        let mut message = String::from_str("\"");
        message.append(path);
        message.append("\" does not exist");
        Err(message)
    }
}

} // verus!
