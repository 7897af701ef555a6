use vstd::prelude::*;
use crate::attendance_table::AttendanceStatus;
use crate::text::{is_blank, str_is_blank};

verus! {

/// The dialog that is open over the table, if any.
#[derive(Clone, Debug)]
pub enum Modal {
    /// No dialog is open.
    Closed,
    AddEmployee(EmployeeForm),
    EditEmployee(usize, EmployeeForm),
    DeleteEmployee(usize),
}

/// The fields of the add and edit dialogs.
#[derive(Clone, Debug)]
pub struct EmployeeForm {
    pub name: String,
    pub role: Option<String>,
    pub sex: Option<String>,
    pub days_per_week: Option<u8>,
    pub mentee: Option<String>,
    pub mentor: Option<String>,
    /// Fixed office days: office where set, remote where not.
    pub attendance: [AttendanceStatus; 5],
}

impl EmployeeForm {
    /// A form can be submitted once it has a name that is not blank, a role, a sex and a
    /// number of days.
    pub fn is_valid(&self) -> (r: bool)
        ensures
            r == (!is_blank(self.name@) && self.role is Some && self.sex is Some
                && self.days_per_week is Some),
    {
        !str_is_blank(self.name.as_str()) && self.role.is_some() && self.sex.is_some()
            && self.days_per_week.is_some()
    }
}

impl Default for EmployeeForm {
    /// An empty form: no name, role, sex or days, "None" for mentee and mentor, and every day
    /// remote.
    fn default() -> (r: Self)
        ensures
            r.name@.len() == 0,
            r.role is None,
            r.sex is None,
            r.days_per_week is None,
            r.mentee matches Some(m) && m@ == "None"@,
            r.mentor matches Some(m) && m@ == "None"@,
            r.attendance@ == seq![AttendanceStatus::Remote; 5],
    {
        let r = EmployeeForm {
            name: String::new(),
            role: None,
            sex: None,
            days_per_week: None,
            mentee: Some(String::from_str("None")),
            mentor: Some(String::from_str("None")),
            attendance: [AttendanceStatus::Remote; 5],
        };
        assert(r.attendance@ =~= seq![AttendanceStatus::Remote; 5]);
        r
    }
}

/// What the dialogs report.
#[derive(Clone, Debug)]
pub enum Message {
    Cancel,
    SubmitAdd,
    SubmitEdit(usize),
    ConfirmDelete(usize),
    NameChanged(String),
    RoleSelected(String),
    SexSelected(String),
    DaysChanged(u8),
    MenteeSelected(String),
    MentorSelected(String),
    ToggleDay(usize),
    OverlayPressed,
}

} // verus!
