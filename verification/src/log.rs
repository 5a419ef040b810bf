//! The lines of the log.
use vstd::prelude::*;
use vstd::string::*;

verus! {

/// Writes the lines of the log.
#[derive(Debug, Clone, Copy)]
pub struct Logger {
    pub verbose: bool,
}

/// A line of the log: the time, the level and the message.
fn line(time: &str, level: &str, message: &str) -> (r: String)
    ensures
        r@ == time@ + level@ + message@,
{
    let mut out = time.to_owned();
    out.append(level);
    out.append(message);
    out
}

impl Logger {
    /// The line for something that went as it should.
    pub fn info(&self, time: &str, message: &str) -> (r: String)
        ensures
            r@ == time@ + " INFO  "@ + message@,
    {
        line(time, " INFO  ", message)
    }

    /// The line for something that may need attention.
    pub fn warn(&self, time: &str, message: &str) -> (r: String)
        ensures
            r@ == time@ + " WARN  "@ + message@,
    {
        line(time, " WARN  ", message)
    }

    /// The line for a failure.
    pub fn error(&self, time: &str, message: &str) -> (r: String)
        ensures
            r@ == time@ + " ERROR "@ + message@,
    {
        line(time, " ERROR ", message)
    }

    /// The line for a detail, which only a verbose log has.
    pub fn debug(&self, time: &str, message: &str) -> (r: Option<String>)
        ensures
            match r {
                Some(text) => self.verbose && text@ == time@ + " DEBUG "@ + message@,
                None => !self.verbose,
            },
    {
        if self.verbose {
            Some(line(time, " DEBUG ", message))
        } else {
            None
        }
    }
}

}
