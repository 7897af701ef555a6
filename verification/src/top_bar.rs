use vstd::prelude::*;

verus! {

/// The bar above the table: the month, navigation and search.
pub struct TopBar;

/// What the top bar reports.
#[derive(Clone, Debug)]
pub enum Message {
    PreviousDate,
    NextDate,
    SearchChanged(String),
    NotificationPressed,
    ProfilePressed,
}

} // verus!
