//! The errors that profile operations report, and their messages.
use vstd::prelude::*;

use crate::text::{decimal, u64_to_decimal};

verus! {

/// Why a profile operation was refused.
#[derive(Debug)]
pub enum ProfileError {
    /// A label was empty once trimmed.
    LabelEmpty,
    /// The label already names another profile.
    LabelExists(String),
    /// No profile carries the label.
    LabelNotFound(String),
    /// The label names a profile that is not among the candidates.
    LabelNoMatch(String),
    /// No saved profile has the id.
    IdNoMatch(String),
    /// The credentials do not identify a complete account.
    IncompleteAccount,
    /// A config-aware save found no config file at the path.
    ConfigNotFound(String),
    /// The selected profile's credentials could not be read, for the reason given.
    SelectedInvalid(String),
    /// The selected profile is not saved.
    ProfileNotFound,
    /// A profile that manages `config.toml` (id) lacks its saved config (path).
    SavedConfigMissing(String, String),
    /// An import bundle has a format version other than 1.
    ImportVersion(u8),
    /// An import bundle names a profile id twice.
    ImportDuplicateId(String),
    /// An imported profile id is already saved.
    ProfileExists(String),
    /// An imported profile id is not a single plain path component.
    ImportUnsafeId(String),
    /// An imported profile id is reserved.
    ImportReservedId(String),
    /// An exported profile manages `config.toml` but carries no config.
    ImportMissingConfig(String),
    /// An exported profile carries neither tokens nor an API key.
    ImportMissingTokens(String),
    /// An exported profile's credentials are incomplete.
    ImportIncomplete(String),
    /// A saved profile's credentials file (id) is not JSON (the parse error).
    ExportInvalidJson(String, String),
    /// A managed config key (path, key) is empty or not top-level.
    ConfigKeyInvalid(String, String),
    /// The managed config keys field (path, field) is not an array.
    ConfigKeysNotArray(String, String),
    /// The managed config keys field (path, field) holds a non-string.
    ConfigKeysNotStrings(String, String),
    /// An interactive action needs a terminal.
    TtyRequired(String),
    /// The user cancelled.
    Cancelled,
    /// Deleting without a terminal needs the confirmation given up front.
    DeleteConfirmRequired,
    /// A load without a terminal would lose the unsaved current profile.
    CurrentNotSaved,
    /// A prompt (what it asked for) failed with the message given.
    PromptFailed(String, String),
}

/// The message reported for `e`.
pub open spec fn message_of(e: ProfileError) -> Seq<char> {
    match e {
        ProfileError::LabelEmpty => "Label cannot be empty."@,
        ProfileError::LabelExists(l) => "Label '"@ + l@ + "' already exists."@,
        ProfileError::LabelNotFound(l) => "Label '"@ + l@ + "' was not found."@,
        ProfileError::LabelNoMatch(l) => "Label '"@ + l@ + "' matches no saved profile."@,
        ProfileError::IdNoMatch(id) => "Profile id '"@ + id@ + "' matches no saved profile."@,
        ProfileError::IncompleteAccount => "The credentials do not identify a complete account."@,
        ProfileError::ConfigNotFound(p) => "Error: Config file not found: "@ + p@,
        ProfileError::SelectedInvalid(m) => "Selected profile is invalid: "@ + m@,
        ProfileError::ProfileNotFound => "Profile not found."@,
        ProfileError::SavedConfigMissing(id, p) => "Error: Saved profile '"@ + id@
            + "' includes config.toml but "@ + p@ + " is missing."@,
        ProfileError::ImportVersion(v) => "Error: Import file version "@ + decimal(v as nat)
            + " is not supported."@,
        ProfileError::ImportDuplicateId(id) => "Error: Import bundle contains duplicate profile id '"@
            + id@ + "'."@,
        ProfileError::ProfileExists(id) => "Error: Profile '"@ + id@ + "' already exists."@,
        ProfileError::ImportUnsafeId(id) => "Error: Imported profile id '"@ + id@ + "' is not safe."@,
        ProfileError::ImportReservedId(id) => "Error: Imported profile id '"@ + id@ + "' is reserved."@,
        ProfileError::ImportMissingConfig(id) => "Error: Exported profile '"@ + id@
            + "' includes config.toml but no config_toml field."@,
        ProfileError::ImportMissingTokens(id) => "Error: Exported profile '"@ + id@
            + "' is missing tokens or API key."@,
        ProfileError::ImportIncomplete(id) => "Error: Exported profile '"@ + id@ + "' is incomplete."@,
        ProfileError::ExportInvalidJson(id, m) => "Error: Saved profile '"@ + id@ + "' is invalid JSON: "@ + m@,
        ProfileError::ConfigKeyInvalid(p, k) => "CodexSwitch config "@ + p@ + " managed config key '"@
            + k@ + "' must be a non-empty top-level key."@,
        ProfileError::ConfigKeysNotArray(p, f) => "CodexSwitch config "@ + p@ + " field '"@ + f@
            + "' must be an array of top-level config keys."@,
        ProfileError::ConfigKeysNotStrings(p, f) => "CodexSwitch config "@ + p@ + " field '"@ + f@
            + "' must contain only strings."@,
        ProfileError::TtyRequired(a) => "Interactive "@ + a@ + " requires a TTY."@,
        ProfileError::Cancelled => "Cancelled."@,
        ProfileError::DeleteConfirmRequired => "Deleting without a TTY requires confirmation; pass --yes."@,
        ProfileError::CurrentNotSaved => "The current profile is not saved; save it first or pass --force."@,
        ProfileError::PromptFailed(what, m) => "Could not read the "@ + what@ + ": "@ + m@,
    }
}

/// `a` and `b` joined.
fn concat2(a: &str, b: &str) -> (s: String)
    ensures
        s@ == a@ + b@,
{
    let mut s = String::from_str(a);
    s.append(b);
    s
}

/// `a`, `b` and `c` joined.
fn concat3(a: &str, b: &str, c: &str) -> (s: String)
    ensures
        s@ == a@ + b@ + c@,
{
    let mut s = String::from_str(a);
    s.append(b);
    s.append(c);
    s
}

/// `a` to `e` joined.
fn concat5(a: &str, b: &str, c: &str, d: &str, e: &str) -> (s: String)
    ensures
        s@ == a@ + b@ + c@ + d@ + e@,
{
    let mut s = concat3(a, b, c);
    s.append(d);
    s.append(e);
    s
}

impl ProfileError {
    /// The message reported for the error.
    pub fn message(&self) -> (m: String)
        ensures
            m@ == message_of(*self),
    {
        match self {
            ProfileError::LabelEmpty => String::from_str("Label cannot be empty."),
            ProfileError::LabelExists(l) => concat3("Label '", l.as_str(), "' already exists."),
            ProfileError::LabelNotFound(l) => concat3("Label '", l.as_str(), "' was not found."),
            ProfileError::LabelNoMatch(l) => concat3("Label '", l.as_str(), "' matches no saved profile."),
            ProfileError::IdNoMatch(id) => concat3("Profile id '", id.as_str(), "' matches no saved profile."),
            ProfileError::IncompleteAccount => String::from_str(
                "The credentials do not identify a complete account.",
            ),
            ProfileError::ConfigNotFound(p) => concat2("Error: Config file not found: ", p.as_str()),
            ProfileError::SelectedInvalid(m) => concat2("Selected profile is invalid: ", m.as_str()),
            ProfileError::ProfileNotFound => String::from_str("Profile not found."),
            ProfileError::SavedConfigMissing(id, p) => concat5(
                "Error: Saved profile '",
                id.as_str(),
                "' includes config.toml but ",
                p.as_str(),
                " is missing.",
            ),
            ProfileError::ImportVersion(v) => {
                let d = u64_to_decimal(*v as u64);
                concat3("Error: Import file version ", d.as_str(), " is not supported.")
            },
            ProfileError::ImportDuplicateId(id) => concat3(
                "Error: Import bundle contains duplicate profile id '",
                id.as_str(),
                "'.",
            ),
            ProfileError::ProfileExists(id) => concat3("Error: Profile '", id.as_str(), "' already exists."),
            ProfileError::ImportUnsafeId(id) => concat3(
                "Error: Imported profile id '",
                id.as_str(),
                "' is not safe.",
            ),
            ProfileError::ImportReservedId(id) => concat3(
                "Error: Imported profile id '",
                id.as_str(),
                "' is reserved.",
            ),
            ProfileError::ImportMissingConfig(id) => concat3(
                "Error: Exported profile '",
                id.as_str(),
                "' includes config.toml but no config_toml field.",
            ),
            ProfileError::ImportMissingTokens(id) => concat3(
                "Error: Exported profile '",
                id.as_str(),
                "' is missing tokens or API key.",
            ),
            ProfileError::ImportIncomplete(id) => concat3(
                "Error: Exported profile '",
                id.as_str(),
                "' is incomplete.",
            ),
            ProfileError::ExportInvalidJson(id, m) => {
                let mut t = concat3("Error: Saved profile '", id.as_str(), "' is invalid JSON: ");
                t.append(m.as_str());
                t
            },
            ProfileError::ConfigKeyInvalid(p, k) => concat5(
                "CodexSwitch config ",
                p.as_str(),
                " managed config key '",
                k.as_str(),
                "' must be a non-empty top-level key.",
            ),
            ProfileError::ConfigKeysNotArray(p, f) => concat5(
                "CodexSwitch config ",
                p.as_str(),
                " field '",
                f.as_str(),
                "' must be an array of top-level config keys.",
            ),
            ProfileError::ConfigKeysNotStrings(p, f) => concat5(
                "CodexSwitch config ",
                p.as_str(),
                " field '",
                f.as_str(),
                "' must contain only strings.",
            ),
            ProfileError::TtyRequired(a) => concat3("Interactive ", a.as_str(), " requires a TTY."),
            ProfileError::Cancelled => String::from_str("Cancelled."),
            ProfileError::DeleteConfirmRequired => String::from_str(
                "Deleting without a TTY requires confirmation; pass --yes.",
            ),
            ProfileError::CurrentNotSaved => String::from_str(
                "The current profile is not saved; save it first or pass --force.",
            ),
            ProfileError::PromptFailed(what, m) => {
                let mut s = concat3("Could not read the ", what.as_str(), ": ");
                s.append(m.as_str());
                s
            },
        }
    }
}

} // verus!
