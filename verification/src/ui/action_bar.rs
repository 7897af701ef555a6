use vstd::prelude::*;

verus! {

/// The row of actions above the table.
pub struct ActionBar;

/// What the action bar reports.
#[derive(Clone, Copy, Debug, PartialEq, Eq, Structural)]
pub enum Message {
    Generate,
    Save,
    Undo,
    AddEmployee,
    EditEmployee,
    DeleteEmployee,
    Report,
    Import,
    Export,
}

/// Whether the action bar offers an action: generating, saving and undoing only while the
/// month may be changed, editing and deleting only with an employee selected, the rest always.
pub open spec fn offers(msg: Message, has_selection: bool, is_read_only: bool) -> bool {
    match msg {
        Message::Generate | Message::Save | Message::Undo => !is_read_only,
        Message::EditEmployee | Message::DeleteEmployee => has_selection,
        Message::AddEmployee | Message::Report | Message::Import | Message::Export => true,
    }
}

impl ActionBar {
    /// Whether the button of an action is enabled; see [`offers`].
    pub fn is_enabled(msg: Message, has_selection: bool, is_read_only: bool) -> (r: bool)
        ensures
            r == offers(msg, has_selection, is_read_only),
    {
        match msg {
            Message::Generate | Message::Save | Message::Undo => !is_read_only,
            Message::EditEmployee | Message::DeleteEmployee => has_selection,
            Message::AddEmployee | Message::Report | Message::Import | Message::Export => true,
        }
    }
}

} // verus!
