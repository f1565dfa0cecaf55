//! Progress messages on standard error: whether they are shown, and how
//! they are rendered on a terminal and elsewhere.

use crate::text::append_str;
use owo_colors::OwoColorize;
use vstd::prelude::*;

verus! {

/// `s` rendered dimmed with ANSI escapes (`owo_colors`' `dimmed`).
#[verifier::external_body]
fn dimmed(s: &str) -> (r: String)
    ensures
        r@ == "\x1b[2m"@ + s@ + "\x1b[0m"@,
{
    s.dimmed().to_string()
}

/// Where progress messages go, and which ones are shown.
pub struct Logger {
    enabled: bool,
    is_term: bool,
    verbose: bool,
}

impl Logger {
    /// Whether messages are shown at all.
    pub closed spec fn shown(&self) -> bool {
        self.enabled
    }

    /// Whether verbose details are shown.
    pub closed spec fn is_verbose(&self) -> bool {
        self.verbose
    }

    /// Whether verbose details are shown.
    pub fn verbose(&self) -> (r: bool)
        ensures
            r == self.is_verbose(),
    {
        self.verbose
    }

    /// Whether messages are rendered for a terminal.
    pub closed spec fn on_terminal(&self) -> bool {
        self.is_term
    }

    /// A logger that shows messages, rendered for a terminal when `is_term`.
    pub fn new(verbose: bool, is_term: bool) -> (r: Logger)
        ensures
            r.shown(),
            r.on_terminal() == is_term,
            r.is_verbose() == verbose,
    {
        Logger { enabled: true, is_term, verbose }
    }

    /// A logger that shows nothing.
    pub fn silent() -> (r: Logger)
        ensures
            !r.shown(),
            !r.on_terminal(),
            !r.is_verbose(),
    {
        Logger { enabled: false, is_term: false, verbose: false }
    }

    /// The line that shows `msg`: a bullet and the message, both dimmed on a
    /// terminal; nothing when the logger is silent.
    pub fn line(&self, msg: &str) -> (r: Option<String>)
        ensures
            !self.shown() ==> r is None,
            self.shown() && self.on_terminal() ==> (r matches Some(l) && l@ == " "@ + "\x1b[2m"@
                + "•"@ + "\x1b[0m"@ + " "@ + "\x1b[2m"@ + msg@ + "\x1b[0m"@),
            self.shown() && !self.on_terminal() ==> (r matches Some(l) && l@ == " • "@ + msg@),
    {
        if !self.enabled {
            return None;
        }
        if self.is_term {
            let mut l = " ".to_owned();
            append_str(&mut l, dimmed("•").as_str());
            append_str(&mut l, " ");
            append_str(&mut l, dimmed(msg).as_str());
            Some(l)
        } else {
            let mut l = " • ".to_owned();
            append_str(&mut l, msg);
            Some(l)
        }
    }

    /// The line for a detail that only verbose runs show.
    pub fn debug_line(&self, msg: &str) -> (r: Option<String>)
        ensures
            !self.is_verbose() ==> r is None,
            self.is_verbose() && !self.shown() ==> r is None,
            self.is_verbose() && self.shown() && self.on_terminal() ==> (r matches Some(l) && l@
                == " "@ + "\x1b[2m"@ + "•"@ + "\x1b[0m"@ + " "@ + "\x1b[2m"@ + msg@ + "\x1b[0m"@),
            self.is_verbose() && self.shown() && !self.on_terminal() ==> (r matches Some(l) && l@
                == " • "@ + msg@),
    {
        if self.verbose {
            self.line(msg)
        } else {
            None
        }
    }
}

} // verus!
