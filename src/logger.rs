use vstd::prelude::*;
use vstd::string::StringExecFns;

verus! {

/// A message waiting to be written to the log.
pub struct Logger {
    pub content: String,
}

impl Logger {
    /// A logger for `content`.
    pub fn new(content: String) -> (r: Self)
        ensures
            r.content == content,
    {
        Self { content }
    }

    /// The line that the log receives: the content, a space and a line break.
    pub fn entry_text(&self) -> (r: String)
        ensures
            r@ == self.content@ + " \n"@,
    {
        let mut line = String::from_str(self.content.as_str());
        line.append(" \n");
        line
    }
}

} // verus!
