//! The command line's options.

use vstd::prelude::*;

verus! {

/// The options the program accepts.
pub struct Args {
    /// The language of the interface.
    pub lang: Option<String>,
    /// Developer mode: start without the interface.
    pub dev: Option<bool>,
    /// Test mode.
    pub test: Option<bool>,
}

impl Args {
    /// Whether the interface is started: always, except in developer mode.
    pub fn shows_ui(&self) -> (r: bool)
        ensures
            r == !(self.dev == Some(true)),
    {
        match self.dev {
            Some(d) => !d,
            None => true,
        }
    }
}

} // verus!
