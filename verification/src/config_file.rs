//! Saving the wizard's configuration to a file and reading it back: where
//! the dialogs start, the path the user typed, and what the wizard says
//! about the outcome. The passwords live in a second file beside the
//! first, so a configuration can be shared without carrying them.

use vstd::prelude::*;

use crate::download::file_name;
use crate::path::final_name;
use crate::text::{chars_of, chars_to_string, extend_str, trim, trimmed};

verus! {

/// Where the save and load dialogs start: the live session's home, which
/// is in RAM, so a saved configuration has to be copied somewhere lasting
/// to survive a reboot.
pub fn default_path() -> (r: String)
    ensures
        r@ == "/root/azfs-config.json"@,
{
    "/root/azfs-config.json".to_string()
}

/// What the last save or load did, shown on the review screen.
#[derive(Debug)]
pub struct ConfigFileStatus {
    last: String,
}

impl ConfigFileStatus {
    pub closed spec fn last(&self) -> Seq<char> {
        self.last@
    }

    /// Nothing saved or loaded yet.
    pub fn new() -> (r: ConfigFileStatus)
        ensures
            r.last() == Seq::<char>::empty(),
    {
        ConfigFileStatus { last: String::new() }
    }

    /// The outcome of the last save or load, empty until one happens.
    pub fn last_result(&self) -> (r: String)
        ensures
            r@ == self.last(),
    {
        self.last.clone()
    }

    /// Keep `message` as the last outcome, and hand it on.
    pub fn remember(&mut self, message: String) -> (r: String)
        ensures
            final(self).last() == message@,
            r@ == message@,
    {
        self.last = message.clone();
        message
    }
}

/// The reply to a save without a path.
pub const ENTER_SAVE_PATH: &'static str = "Enter a path to save the configuration to.";

/// The reply to a load without a path.
pub const ENTER_LOAD_PATH: &'static str = "Enter the path of a configuration to load.";

/// The path typed into a dialog, without surrounding blanks; `None` when
/// nothing but blanks was typed.
pub fn entered_path(input: &str) -> (r: Option<String>)
    ensures
        match r {
            Some(p) => p@ == trim(input@) && p@.len() > 0,
            None => trim(input@).len() == 0,
        },
{
    let t = trimmed(&chars_of(input));
    if t.len() == 0 {
        None
    } else {
        Some(chars_to_string(&t))
    }
}

/// How a written file is named in a message: its file name, or the whole
/// path when it has none.
pub open spec fn shown_name(path: Seq<char>) -> Seq<char> {
    match final_name(path) {
        Some(n) => n,
        None => path,
    }
}

/// What the wizard says after saving to `path`: the files written (the
/// configuration, then its passwords when they went to a file of their
/// own), or the failure.
pub open spec fn save_report(path: Seq<char>, outcome: Result<Seq<Seq<char>>, Seq<char>>) -> Seq<char> {
    match outcome {
        Ok(written) => if written.len() > 1 {
            "Saved "@ + path + " and its passwords in "@ + shown_name(written[1])
        } else {
            "Saved "@ + path
        },
        Err(e) => "Could not save "@ + path + ": "@ + e,
    }
}

pub fn export_message(path: &str, outcome: &Result<Vec<String>, String>) -> (r: String)
    ensures
        r@ == save_report(
            path@,
            match outcome {
                Ok(w) => Ok(w@.map_values(|s: String| s@)),
                Err(e) => Err(e@),
            },
        ),
{
    match outcome {
        Ok(written) => {
            let mut m = chars_of("Saved ");
            extend_str(&mut m, path);
            if written.len() > 1 {
                extend_str(&mut m, " and its passwords in ");
                let secrets = written[1].as_str();
                match file_name(secrets) {
                    Some(n) => extend_str(&mut m, n.as_str()),
                    None => extend_str(&mut m, secrets),
                }
                assert(written@.map_values(|s: String| s@)[1] == written@[1]@);
            }
            chars_to_string(&m)
        },
        Err(e) => {
            let mut m = chars_of("Could not save ");
            extend_str(&mut m, path);
            extend_str(&mut m, ": ");
            extend_str(&mut m, e.as_str());
            chars_to_string(&m)
        },
    }
}

/// What the wizard says after loading `path`: whether the passwords came
/// with it, from the file beside it or inside it, or must still be set.
pub open spec fn load_report(path: Seq<char>, secrets_beside: bool, has_secrets: bool) -> Seq<char> {
    if secrets_beside {
        "Loaded "@ + path + " with its passwords"@
    } else if has_secrets {
        "Loaded "@ + path
    } else {
        "Loaded "@ + path + ". It carries no passwords; set them before installing."@
    }
}

pub fn import_message(path: &str, secrets_beside: bool, has_secrets: bool) -> (r: String)
    ensures
        r@ == load_report(path@, secrets_beside, has_secrets),
{
    let mut m = chars_of("Loaded ");
    extend_str(&mut m, path);
    if secrets_beside {
        extend_str(&mut m, " with its passwords");
    } else if !has_secrets {
        extend_str(&mut m, ". It carries no passwords; set them before installing.");
    }
    chars_to_string(&m)
}

/// `Could not load <path>: <error>`.
pub fn import_failure_message(path: &str, error: &str) -> (r: String)
    ensures
        r@ == "Could not load "@ + path@ + ": "@ + error@,
{
    let mut m = chars_of("Could not load ");
    extend_str(&mut m, path);
    extend_str(&mut m, ": ");
    extend_str(&mut m, error);
    chars_to_string(&m)
}

} // verus!
