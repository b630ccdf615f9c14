//! Progress messages.

use vstd::prelude::*;
use crate::paint::{paint, Style};
#[allow(unused_imports)]
use crate::paint::shows;

verus! {

/// Writes progress messages, or keeps silent.
#[derive(Debug, Clone, Copy, PartialEq, Eq, Structural)]
pub struct Reporter {
    pub enabled: bool,
}

impl Reporter {
    /// A reporter that writes messages if it is enabled.
    pub fn new(enabled: bool) -> (r: Self)
        ensures
            r.enabled == enabled,
    {
        Reporter { enabled }
    }

    /// The reporter for the given flags: it is silent for `--quiet`, and for `--json`, whose output
    /// is for machines.
    pub fn for_flags(json: bool, quiet: bool) -> (r: Self)
        ensures
            r.enabled == (!json && !quiet),
    {
        Reporter::new(!json && !quiet)
    }

    /// What is written of a message; nothing where the reporter is silent.
    pub fn status(&self, message: &str) -> (r: Option<String>)
        ensures
            match r {
                Some(line) => self.enabled && shows(
                    Style::ItalicBrightBlack,
                    "nsysbench: "@ + message@,
                    line@,
                ),
                None => !self.enabled,
            },
    {
        if self.enabled {
            let mut text = "nsysbench: ".to_string();
            text.append(message);
            Some(paint(Style::ItalicBrightBlack, text.as_str()))
        } else {
            None
        }
    }
}

} // verus!
