//! Settings of the storage client and the place where a fetched file goes.

use vstd::prelude::*;
use vstd::string::StringExecFns;

verus! {

/// The storage client's settings.
#[derive(Clone, Debug)]
pub struct Options {
    /// The directory that fetched files are written to.
    pub download_dir: String,
}

impl Options {
    /// Where the file `filename` goes: the download directory, a slash, and
    /// the name.
    pub fn download_path(&self, filename: &str) -> (path: String)
        ensures
            path@ == self.download_dir@ + seq!['/'] + filename@,
    {
        proof {
            reveal_strlit("/");
            assert("/"@ =~= seq!['/']);
        }
        self.download_dir.clone().concat("/").concat(filename)
    }
}

} // verus!
