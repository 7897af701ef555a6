use vstd::prelude::*;
use crate::types::Weekday;
use crate::mentorship::texts;

verus! {

/// Where an employee works on a day of the shown month: in the office, remote, or not
/// scheduled at all.
#[derive(Clone, Copy, Debug, PartialEq, Eq, Structural)]
pub enum AttendanceStatus {
    Office,
    Remote,
    NA,
}

/// An employee as the table shows it.
#[derive(Debug)]
pub struct Employee {
    pub id: i32,
    pub name: String,
    pub role: String,
    pub sex: String,
    pub days_per_week: u8,
    pub fixed_days: Vec<Weekday>,
    pub mentee: Vec<String>,
    pub mentor: Option<String>,
    /// Monday to Friday.
    pub attendance: [AttendanceStatus; 5],
    /// Earlier months: a label and the week of that month.
    pub past_attendance: Vec<(String, [AttendanceStatus; 5])>,
}

/// The value of a shown employee.
pub struct EmployeeRowView {
    pub id: i32,
    pub name: Seq<char>,
    pub role: Seq<char>,
    pub sex: Seq<char>,
    pub days_per_week: u8,
    pub fixed_days: Seq<Weekday>,
    pub mentee: Seq<Seq<char>>,
    pub mentor: Option<Seq<char>>,
    pub attendance: Seq<AttendanceStatus>,
    pub past_attendance: Seq<(Seq<char>, Seq<AttendanceStatus>)>,
}

/// The text of an optional string.
pub open spec fn opt_text(s: Option<String>) -> Option<Seq<char>> {
    match s {
        Some(t) => Some(t@),
        None => None,
    }
}

/// The value of a list of past weeks.
pub open spec fn past_view(p: Seq<(String, [AttendanceStatus; 5])>) -> Seq<(Seq<char>, Seq<AttendanceStatus>)> {
    p.map_values(|x: (String, [AttendanceStatus; 5])| (x.0@, x.1@))
}

impl View for Employee {
    type V = EmployeeRowView;

    open spec fn view(&self) -> EmployeeRowView {
        EmployeeRowView {
            id: self.id,
            name: self.name@,
            role: self.role@,
            sex: self.sex@,
            days_per_week: self.days_per_week,
            fixed_days: self.fixed_days@,
            mentee: texts(self.mentee@),
            mentor: opt_text(self.mentor),
            attendance: self.attendance@,
            past_attendance: past_view(self.past_attendance@),
        }
    }
}

/// A copy of a list of strings.
pub fn clone_strings(v: &Vec<String>) -> (r: Vec<String>)
    ensures
        texts(r@) == texts(v@),
{
    let mut out: Vec<String> = Vec::new();
    let mut i: usize = 0;
    while i < v.len()
        invariant
            i <= v.len(),
            texts(out@) == texts(v@.take(i as int)),
        decreases v.len() - i,
    {
        out.push(v[i].clone());
        proof {
            assert(texts(v@.take(i as int + 1)) =~= texts(v@.take(i as int)).push(v@[i as int]@));
        }
        i = i + 1;
    }
    assert(v@.take(v.len() as int) =~= v@);
    out
}

fn clone_past(v: &Vec<(String, [AttendanceStatus; 5])>) -> (r: Vec<(String, [AttendanceStatus; 5])>)
    ensures
        past_view(r@) == past_view(v@),
{
    let mut out: Vec<(String, [AttendanceStatus; 5])> = Vec::new();
    let mut i: usize = 0;
    while i < v.len()
        invariant
            i <= v.len(),
            past_view(out@) == past_view(v@.take(i as int)),
        decreases v.len() - i,
    {
        let label = v[i].0.clone();
        let week = v[i].1;
        out.push((label, week));
        proof {
            assert(past_view(v@.take(i as int + 1)) =~= past_view(v@.take(i as int)).push(
                (v@[i as int].0@, v@[i as int].1@),
            ));
            assert(past_view(out@) =~= past_view(v@.take(i as int)).push(
                (v@[i as int].0@, v@[i as int].1@),
            ));
        }
        i = i + 1;
    }
    assert(v@.take(v.len() as int) =~= v@);
    out
}

impl Clone for Employee {
    fn clone(&self) -> (r: Self)
        ensures
            r@ == self@,
    {
        let mentor = match &self.mentor {
            Some(m) => Some(m.clone()),
            None => None,
        };
        let days = self.fixed_days.clone();
        assert(days@ =~= self.fixed_days@);
        Employee {
            id: self.id,
            name: self.name.clone(),
            role: self.role.clone(),
            sex: self.sex.clone(),
            days_per_week: self.days_per_week,
            fixed_days: days,
            mentee: clone_strings(&self.mentee),
            mentor,
            attendance: self.attendance,
            past_attendance: clone_past(&self.past_attendance),
        }
    }
}

/// The values of a list of shown employees.
pub open spec fn rows_view(v: Seq<Employee>) -> Seq<EmployeeRowView> {
    v.map_values(|e: Employee| e@)
}

/// The employees of the shown month, with at most one selected.
#[derive(Debug)]
pub struct AttendanceTable {
    pub employees: Vec<Employee>,
    pub selected_employee: Option<usize>,
}

/// What the table reports.
#[derive(Clone, Copy, Debug, PartialEq, Eq, Structural)]
pub enum Message {
    /// Select a row, or clear the selection when the row is already selected.
    SelectEmployee(usize),
    /// Clear the selection if it is still this row.
    AutoDeselect(usize),
}

impl AttendanceTable {
    /// An empty table with nothing selected.
    pub fn new() -> (r: Self)
        ensures
            r.employees@.len() == 0,
            r.selected_employee is None,
    {
        AttendanceTable { employees: Vec::new(), selected_employee: None }
    }

    /// The number of employees shown.
    pub fn len(&self) -> (r: usize)
        ensures
            r == self.employees@.len(),
    {
        self.employees.len()
    }

    /// Applies a message; the rows are not touched. Selecting a row that was not selected
    /// returns it: the caller clears the selection with `AutoDeselect` after fifteen seconds.
    pub fn update(&mut self, message: Message) -> (r: Option<usize>)
        ensures
            final(self).employees@ == old(self).employees@,
            match message {
                Message::SelectEmployee(i) => if old(self).selected_employee == Some(i) {
                    final(self).selected_employee is None && r is None
                } else {
                    final(self).selected_employee == Some(i) && r == Some(i)
                },
                Message::AutoDeselect(i) => r is None && final(self).selected_employee == (
                if old(self).selected_employee == Some(i) {
                    None
                } else {
                    old(self).selected_employee
                }),
            },
    {
        match message {
            Message::SelectEmployee(idx) => {
                if self.selected_employee == Some(idx) {
                    self.selected_employee = None;
                    None
                } else {
                    self.selected_employee = Some(idx);
                    Some(idx)
                }
            },
            Message::AutoDeselect(idx) => {
                if self.selected_employee == Some(idx) {
                    self.selected_employee = None;
                }
                None
            },
        }
    }
}

} // verus!
