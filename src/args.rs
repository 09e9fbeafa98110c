//! The run's arguments and their validation.

use vstd::prelude::*;
use vstd::string::StringExecFns;

verus! {

/// What a run is given: the folder of notes to read and the file to write.
pub struct CliArgs {
    /// Folder of notes to read.
    pub path: String,
    /// File to write the JSON graph to.
    pub output: String,
}

/// Why the arguments were refused.
pub enum ValidationErrors {
    /// The notes folder does not exist.
    BadPath(String),
}

impl ValidationErrors {
    /// The message shown to the user.
    pub fn message(&self) -> (r: String)
        ensures
            self matches ValidationErrors::BadPath(p) ==> r@ == "Path: "@ + p@ + " doesn't exist\n"@,
    {
        match self {
            ValidationErrors::BadPath(p) => {
                let r = String::from_str("Path: ").concat(p.as_str()).concat(" doesn't exist\n");
                proof {
                    reveal_strlit("Path: ");
                    reveal_strlit(" doesn't exist\n");
                }
                r
            },
        }
    }
}

impl CliArgs {
    /// Accepts the arguments when the notes folder exists; `path_exists` says
    /// whether a file system entry is found at `self.path`.
    pub fn is_valid(&self, path_exists: bool) -> (r: Result<(), ValidationErrors>)
        ensures
            path_exists ==> r is Ok,
            !path_exists ==> (r matches Err(ValidationErrors::BadPath(p)) && p@ == self.path@),
    {
        if path_exists {
            Ok(())
        } else {
            Err(ValidationErrors::BadPath(self.path.clone()))
        }
    }
}

} // verus!
