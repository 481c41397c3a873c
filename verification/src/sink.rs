//! The output sink: renders one line of text for standard output by
//! appending the line terminator. Writing the rendered bytes is the
//! process's own concern; the rendering is pinned here.

use vstd::prelude::*;
use vstd::string::StringExecFns;

verus! {

/// The single-argument callable that serializes lines to standard output.
/// It carries no synchronization; concurrent callers must serialize access.
#[derive(Debug)]
pub struct OutputSink {}

impl OutputSink {
    pub fn new() -> OutputSink {
        OutputSink {  }
    }

    /// Renders a line exactly as it is written out: the text followed by
    /// the line terminator.
    pub fn render_line(&self, line: &str) -> (r: String)
        ensures
            r@ == line@ + "\n"@,
    {
        let mut s = String::from_str(line);
        s.append("\n");
        s
    }
}

} // verus!
