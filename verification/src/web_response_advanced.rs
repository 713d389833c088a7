//! The handle for streaming a binary file as an HTTP response; the sending
//! itself is the caller's I/O.
use vstd::prelude::*;

verus! {

pub struct WebResponseAdvancedBinaryFile {
    pub file: String,
}

impl WebResponseAdvancedBinaryFile {
    pub fn new(file: &str) -> (r: WebResponseAdvancedBinaryFile)
        ensures
            r.file@ == file@,
    {
        WebResponseAdvancedBinaryFile { file: file.to_owned() }
    }
}

} // verus!
