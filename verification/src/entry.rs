//! The entry model: one rankable, executable search result, together with the
//! action its execution performs.

use vstd::prelude::*;

verus! {

/// What executing an entry does. The launcher itself only decides *what* to
/// run; performing the action is the caller's job.
pub enum EntryAction {
    /// Spawn a program: an argument vector, an optional working directory,
    /// and whether the program must run inside a terminal emulator.
    Launch { argv: Vec<String>, working_dir: Option<String>, needs_terminal: bool },
    /// Copy a computed result to the clipboard.
    CopyText { value: String },
    /// Connect to a wireless network.
    ConnectWifi { ssid: String, secured: bool, psk_supported: bool },
}

/// The outcome of executing an entry: either the spawn/copy/connect failed,
/// or it succeeded and the session window should close.
#[derive(Clone, Copy, PartialEq, Eq, Structural, Debug)]
pub enum EntryExecuteResult {
    ExecuteFailed,
    CloseWindow,
}

/// One rankable, executable search result. Immutable after construction; all
/// mutable behaviour (frequency, favorites) is keyed by `id` and lives in the
/// stores, never in the entry itself.
pub struct Entry {
    /// Stable identifier, unique across the entries of one source refresh.
    pub id: String,
    /// The text shown for this entry.
    pub text: String,
    /// An optional subtle description shown next to the text.
    pub description: Option<String>,
    /// An optional icon handle (a resolved icon path).
    pub icon: Option<String>,
    /// Precomputed text the fuzzy matcher scores against; never shown.
    pub searchable: String,
    /// What executing this entry does.
    pub action: EntryAction,
}

impl Entry {
    /// Only application entries can be pinned as favorites; math results and
    /// networks have no stable identity across refreshes.
    pub open spec fn spec_can_favorite(&self) -> bool {
        self.action is Launch
    }

    /// Whether this entry can be pinned as a favorite.
    pub fn can_favorite(&self) -> (r: bool)
        ensures
            r == self.spec_can_favorite(),
    {
        matches!(self.action, EntryAction::Launch { .. })
    }

    /// The entry's stable identifier.
    pub fn id(&self) -> (r: &str)
        ensures
            r@ == self.id@,
    {
        self.id.as_str()
    }

    /// The entry's display text.
    pub fn text(&self) -> (r: &str)
        ensures
            r@ == self.text@,
    {
        self.text.as_str()
    }

    /// The entry's optional description.
    pub fn description(&self) -> (r: &Option<String>)
        ensures
            r == self.description,
    {
        &self.description
    }

    /// The entry's optional icon handle.
    pub fn icon(&self) -> (r: &Option<String>)
        ensures
            r == self.icon,
    {
        &self.icon
    }

    /// The text the fuzzy matcher runs against.
    pub fn searchable(&self) -> (r: &str)
        ensures
            r@ == self.searchable@,
    {
        self.searchable.as_str()
    }
}

} // verus!
