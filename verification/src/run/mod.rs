//! Error bookkeeping for a run of the interpreter.
use crate::text::push_decimal;
use vstd::prelude::*;
use vstd::string::StringExecFns;

verus! {

/// Remembers whether a run has reported an error.
#[derive(Debug)]
pub struct LoxInterpreter {
    pub had_error: bool,
}

/// The report line for an error on line `line`, at `where_at`.
pub open spec fn report_text(line: nat, where_at: Seq<char>, message: Seq<char>) -> Seq<char> {
    "[line "@ + crate::text::decimal(line) + "] Error "@ + where_at + ": "@ + message
}

impl LoxInterpreter {
    pub fn new() -> (r: Self)
        ensures
            !r.had_error,
    {
        Self { had_error: false }
    }

    /// Records an error on `line`; returns the line to show on standard
    /// error.
    pub fn error(&mut self, line: usize, message: &str) -> (r: String)
        ensures
            final(self).had_error,
            r@ == report_text(line as nat, ""@, message@),
    {
        self.report(line, "", message)
    }

    /// Records an error on `line` at `where_at`; returns the line to show on
    /// standard error.
    pub fn report(&mut self, line: usize, where_at: &str, message: &str) -> (r: String)
        ensures
            final(self).had_error,
            r@ == report_text(line as nat, where_at@, message@),
    {
        let mut out = String::new();
        out.append("[line ");
        push_decimal(&mut out, line);
        out.append("] Error ");
        out.append(where_at);
        out.append(": ");
        out.append(message);
        self.had_error = true;
        assert(out@ =~= report_text(line as nat, where_at@, message@));
        out
    }
}

} // verus!
