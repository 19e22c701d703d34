//! The settings of the request log.

use vstd::prelude::*;

verus! {

/// Where the request log is written, and whether it is emptied at start
/// (else a separator line is appended to it).
pub struct Setup {
    output_file: String,
    flush: bool,
}

impl Setup {
    pub closed spec fn spec_output_file(&self) -> Seq<char> {
        self.output_file@
    }

    pub closed spec fn spec_flush(&self) -> bool {
        self.flush
    }

    /// Settings writing to `output_file`, emptying it at start when `flush`.
    pub fn new(output_file: String, flush: bool) -> (s: Setup)
        ensures
            s.spec_output_file() == output_file@,
            s.spec_flush() == flush,
    {
        Setup { output_file, flush }
    }

    /// The path of the log file.
    pub fn output_file(&self) -> (p: &str)
        ensures
            p@ == self.spec_output_file(),
    {
        self.output_file.as_str()
    }

    /// Whether the log file is emptied at start.
    pub fn flush(&self) -> (b: bool)
        ensures
            b == self.spec_flush(),
    {
        self.flush
    }
}

impl Default for Setup {
    /// The log `log/requests.log`, emptied at start.
    fn default() -> (s: Setup)
        ensures
            s.spec_output_file() == "log/requests.log"@,
            s.spec_flush(),
    {
        Setup { output_file: "log/requests.log".to_owned(), flush: true }
    }
}

} // verus!
