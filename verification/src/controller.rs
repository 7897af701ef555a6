use vstd::prelude::*;
use std::collections::HashMap;
use std::time::Instant;
use crate::employee::{Employee as CoreEmployee, EmployeeView};
use crate::types::{Sex, Role, Weekday, weekday_at, parse_sex, parse_role};
use crate::schedule::{MonthlySchedule, MonthlyScheduleView, PastSchedules, same_content};
use crate::engine::{Engine, input_fits, input_in_range, schedule_ok, day_view_emps};
use crate::ui::attendance_table::{AttendanceStatus, AttendanceTable, Employee, EmployeeRowView, Message as TableMessage};
use crate::ui::modals::{EmployeeForm, Modal, is_form_of, is_empty_form};
use crate::ui::toasts::{Status, Toast};
use crate::roster::{month_exists, month_before, month_after, previous_month, next_month, rows_for, shown_rows, shown, apply_schedule_to_ui, with_week, week_in, calculate_report, current_month_label, employee_report, schedules_view, report_of, report_matches, month_year_label};
use crate::text::{trim, trim_str, eq_ignoring_ascii_case, eq_ignore_ascii_case_str, concat_str};
use crate::mentorship::texts;

verus! {

/// The fixed days that a week of the form marks as office days, Monday first, among its first
/// `n` days.
pub open spec fn office_days(week: Seq<AttendanceStatus>, n: int) -> Seq<Weekday>
    decreases n,
{
    if n <= 0 {
        Seq::empty()
    } else if week[n - 1] == AttendanceStatus::Office {
        office_days(week, n - 1).push(weekday_at(n - 1))
    } else {
        office_days(week, n - 1)
    }
}

/// The fixed days that a form marks, Monday first.
pub fn fixed_days_of(attendance: &[AttendanceStatus; 5]) -> (r: Vec<Weekday>)
    ensures
        r@ == office_days(attendance@, 5),
{
    let mut days: Vec<Weekday> = Vec::new();
    let mut d: usize = 0;
    while d < 5
        invariant
            d <= 5,
            attendance@.len() == 5,
            days@ == office_days(attendance@, d as int),
        decreases 5 - d,
    {
        if attendance[d] == AttendanceStatus::Office {
            days.push(Weekday::from_index(d));
        }
        d = d + 1;
    }
    days
}

/// The text of an optional choice, or `fallback` when nothing is chosen.
pub open spec fn chosen(s: Option<String>, fallback: Seq<char>) -> Seq<char> {
    match s {
        Some(t) => t@,
        None => fallback,
    }
}

/// The sex that a text names, or male when it names none.
pub open spec fn sex_or_male(s: Seq<char>) -> Sex {
    match parse_sex(s) {
        Some(x) => x,
        None => Sex::Male,
    }
}

/// The role that a text names, or full-stack engineer when it names none.
pub open spec fn role_or_full_stack(s: Seq<char>) -> Role {
    match parse_role(s) {
        Some(r) => r,
        None => Role::FullStackEngineer,
    }
}

fn sex_from_choice(s: &Option<String>, fallback: &str) -> (r: Sex)
    ensures
        r == sex_or_male(
            match s {
                Some(t) => t@,
                None => fallback@,
            },
        ),
{
    let text = match s {
        Some(t) => t.as_str(),
        None => fallback,
    };
    match Sex::from_str(text) {
        Ok(x) => x,
        Err(_) => Sex::Male,
    }
}

fn role_from_choice(s: &Option<String>, fallback: &str) -> (r: Role)
    ensures
        r == role_or_full_stack(
            match s {
                Some(t) => t@,
                None => fallback@,
            },
        ),
{
    let text = match s {
        Some(t) => t.as_str(),
        None => fallback,
    };
    match Role::from_str(text) {
        Ok(x) => x,
        Err(_) => Role::FullStackEngineer,
    }
}

/// The employee that the add form describes: sex "Male" and role "Full-stack Engineer" when
/// none is chosen (or what is chosen names none), no days when none are chosen, the form's
/// office days as fixed days, a mentor when the mentor field reads "Yes", and no mentee link.
pub open spec fn new_employee_from(form: EmployeeForm) -> EmployeeView {
    EmployeeView {
        id: 0,
        name: form.name@,
        sex: sex_or_male(chosen(form.sex, "Male"@)),
        role: role_or_full_stack(chosen(form.role, "Full-stack Engineer"@)),
        required_days: (match form.days_per_week {
            Some(d) => d,
            None => 0u8,
        }) as i32,
        fixed_days: office_days(form.attendance@, 5),
        is_mentor: form.mentor is Some && form.mentor->0@ == "Yes"@,
        is_mentee: false,
        mentor_id: None,
    }
}

/// The employee that the add form describes; see [`new_employee_from`].
pub fn employee_from_form(form: &EmployeeForm) -> (r: CoreEmployee)
    ensures
        r@ == new_employee_from(*form),
{
    let sex = sex_from_choice(&form.sex, "Male");
    let role = role_from_choice(&form.role, "Full-stack Engineer");
    let days: u8 = match form.days_per_week {
        Some(d) => d,
        None => 0,
    };
    let fixed_days = fixed_days_of(&form.attendance);
    proof {
        reveal_strlit("Yes");
    }
    let is_mentor = match &form.mentor {
        Some(m) => crate::text::eq_str(m.as_str(), "Yes"),
        None => false,
    };
    CoreEmployee::new(form.name.clone(), sex, role, days as i32, fixed_days, is_mentor, false, None)
}

/// An employee changed by the edit form: name, sex, role, days and fixed days are taken from
/// the form (an unchosen sex or role, or one that names none, becomes male or full-stack
/// engineer); id and mentor links stay.
pub open spec fn edited_employee(e: EmployeeView, form: EmployeeForm) -> EmployeeView {
    EmployeeView {
        name: form.name@,
        sex: sex_or_male(chosen(form.sex, Seq::empty())),
        role: role_or_full_stack(chosen(form.role, Seq::empty())),
        required_days: (match form.days_per_week {
            Some(d) => d,
            None => 0u8,
        }) as i32,
        fixed_days: office_days(form.attendance@, 5),
        ..e
    }
}

/// Applies the edit form to an employee of the store; see [`edited_employee`].
pub fn apply_form(e: &mut CoreEmployee, form: &EmployeeForm)
    ensures
        final(e)@ == edited_employee(old(e)@, *form),
{
    e.name = form.name.clone();
    e.sex = sex_from_choice(&form.sex, "");
    e.role = role_from_choice(&form.role, "");
    let days: u8 = match form.days_per_week {
        Some(d) => d,
        None => 0,
    };
    e.required_days = days as i32;
    e.fixed_days = fixed_days_of(&form.attendance);
    proof {
        reveal_strlit("");
        assert(""@ =~= Seq::<char>::empty());
    }
}

/// Another shown employee (any but the one with id `except`) already has this name, once
/// both are trimmed and ASCII case is ignored.
pub open spec fn name_taken_by(rows: Seq<EmployeeRowView>, name: Seq<char>, except: Option<i32>) -> bool {
    exists|i: int|
        0 <= i < rows.len() && except != Some(#[trigger] rows[i].id) && eq_ignoring_ascii_case(
            trim(rows[i].name),
            trim(name),
        )
}

/// Whether another shown employee already has this name; see [`name_taken_by`].
pub fn name_taken(employees: &Vec<Employee>, name: &str, except: Option<i32>) -> (r: bool)
    ensures
        r == name_taken_by(shown(employees@), name@, except),
{
    let wanted = trim_str(name);
    let mut i: usize = 0;
    while i < employees.len()
        invariant
            i <= employees.len(),
            wanted@ == trim(name@),
            forall|j: int|
                0 <= j < i ==> !(except != Some(#[trigger] shown(employees@)[j].id) && eq_ignoring_ascii_case(
                    trim(shown(employees@)[j].name),
                    trim(name@),
                )),
        decreases employees.len() - i,
    {
        let e = &employees[i];
        let other = match except {
            Some(x) => e.id != x,
            None => true,
        };
        assert(shown(employees@)[i as int] == e@);
        if other && eq_ignore_ascii_case_str(trim_str(e.name.as_str()), wanted) {
            assert(except != Some(shown(employees@)[i as int].id) && eq_ignoring_ascii_case(
                trim(shown(employees@)[i as int].name),
                trim(name@),
            ));
            return true;
        }
        i = i + 1;
    }
    false
}

/// What toggling a fixed day in the form does: office and remote swap, and a day that is not
/// set becomes an office day.
pub open spec fn toggled(s: AttendanceStatus) -> AttendanceStatus {
    match s {
        AttendanceStatus::Office => AttendanceStatus::Remote,
        AttendanceStatus::Remote => AttendanceStatus::Office,
        AttendanceStatus::NA => AttendanceStatus::Office,
    }
}

/// Toggles a fixed day in the form; see [`toggled`].
pub fn toggle_form_day(s: AttendanceStatus) -> (r: AttendanceStatus)
    ensures
        r == toggled(s),
{
    match s {
        AttendanceStatus::Office => AttendanceStatus::Remote,
        AttendanceStatus::Remote => AttendanceStatus::Office,
        AttendanceStatus::NA => AttendanceStatus::Office,
    }
}

/// The value of a notification.
pub struct ToastView {
    pub id: u64,
    pub title: Seq<char>,
    pub body: Seq<char>,
    pub status: Status,
    pub created_at: Instant,
}

pub open spec fn toast_view(t: Toast) -> ToastView {
    ToastView { id: t.id, title: t.title@, body: t.body@, status: t.status, created_at: t.created_at }
}

pub open spec fn toasts_view(v: Seq<Toast>) -> Seq<ToastView> {
    v.map_values(|t: Toast| toast_view(t))
}

/// The notifications without those with id `id`.
pub open spec fn without_id(v: Seq<ToastView>, id: u64) -> Seq<ToastView>
    decreases v.len(),
{
    if v.len() == 0 {
        Seq::empty()
    } else if v.last().id == id {
        without_id(v.drop_last(), id)
    } else {
        without_id(v.drop_last(), id).push(v.last())
    }
}

/// The state of the roster window: the shown month and its employees, the schedule being
/// worked on, the open dialog and the notifications. The store and the screen are handled
/// outside; what they give is passed in.
pub struct AppState {
    pub is_dark: bool,
    pub search_query: String,
    pub year: i32,
    pub month: u32,
    pub attendance_table: AttendanceTable,
    pub modal: Modal,
    pub toasts: Vec<Toast>,
    pub toast_counter: u64,
    pub current_schedule: Option<MonthlySchedule>,
    /// A later month has a saved schedule, so this one may not be changed.
    pub is_locked: bool,
}

/// Every field but the notifications is the same.
pub open spec fn same_but_toasts(a: AppState, b: AppState) -> bool {
    &&& a.is_dark == b.is_dark
    &&& a.search_query == b.search_query
    &&& a.year == b.year
    &&& a.month == b.month
    &&& a.attendance_table == b.attendance_table
    &&& a.modal == b.modal
    &&& a.current_schedule == b.current_schedule
    &&& a.is_locked == b.is_locked
}

/// `b` is `a` with one more notification, with the next id: the given texts and kind, made
/// at `now`.
pub open spec fn toasted(a: AppState, b: AppState, title: Seq<char>, body: Seq<char>, status: Status, now: Instant) -> bool {
    &&& b.toast_counter == a.toast_counter + 1
    &&& toasts_view(b.toasts@) == toasts_view(a.toasts@).push(
        ToastView { id: b.toast_counter, title, body, status, created_at: now },
    )
}

/// The notifications are the same.
pub open spec fn same_toasts(a: AppState, b: AppState) -> bool {
    a.toasts == b.toasts && a.toast_counter == b.toast_counter
}

/// `b` is the dialog `a` with its form changed by `g` when it is an add or edit dialog, and
/// `a` itself otherwise.
pub open spec fn form_changed(a: Modal, b: Modal, g: spec_fn(EmployeeForm) -> EmployeeForm) -> bool {
    match a {
        Modal::AddEmployee(f) => b == Modal::AddEmployee(g(f)),
        Modal::EditEmployee(i, f) => b == Modal::EditEmployee(i, g(f)),
        _ => b == a,
    }
}

/// `g` is `f` with `name` added to its mentees, unless it is there already.
pub open spec fn mentee_added(f: EmployeeForm, g: EmployeeForm, name: Seq<char>) -> bool {
    &&& g.name == f.name
    &&& g.role == f.role
    &&& g.sex == f.sex
    &&& g.days_per_week == f.days_per_week
    &&& g.mentor == f.mentor
    &&& g.attendance == f.attendance
    &&& g.available_employees == f.available_employees
    &&& texts(g.mentee@) == if texts(f.mentee@).contains(name) {
        texts(f.mentee@)
    } else {
        texts(f.mentee@).push(name)
    }
}

/// `g` is `f` with fixed day `d` toggled (see [`toggled`]).
pub open spec fn day_toggled(f: EmployeeForm, g: EmployeeForm, d: int) -> bool {
    &&& g.name == f.name
    &&& g.role == f.role
    &&& g.sex == f.sex
    &&& g.days_per_week == f.days_per_week
    &&& g.mentee == f.mentee
    &&& g.mentor == f.mentor
    &&& g.available_employees == f.available_employees
    &&& g.attendance@ == f.attendance@.update(d, toggled(f.attendance@[d]))
}

/// The outcome of submitting the add dialog.
pub enum AddStep {
    /// No add dialog is open.
    Ignored,
    /// The name is taken; a notification with this id says so.
    Refused(u64),
    /// The employee to store.
    Create(CoreEmployee),
}

/// The outcome of submitting the edit dialog.
pub enum EditStep {
    /// The dialog was closed: it was not an edit dialog, or the row is gone.
    Closed,
    /// The name is taken; a notification with this id says so.
    Refused(u64),
    /// Look up the stored employee with this id.
    Lookup(i32),
}

impl AppState {
    /// The shown month is one that chrono has, and a schedule being worked on has a list
    /// for every weekday.
    pub open spec fn wf(&self) -> bool {
        &&& month_exists(self.year, self.month)
        &&& self.current_schedule matches Some(s) ==> s.wf()
    }

    /// Whether the state is well formed; see [`AppState::wf`].
    pub fn check_wf(&self) -> (r: bool)
        ensures
            r == self.wf(),
    {
        crate::roster::is_chrono_month(self.year, self.month) && match &self.current_schedule {
            Some(s) => s.schedules.len() == 5,
            None => true,
        }
    }

    /// The rows of the table, as values.
    pub open spec fn rows(&self) -> Seq<EmployeeRowView> {
        shown(self.attendance_table.employees@)
    }

    /// The schedule being worked on, as a value.
    pub open spec fn schedule_view(&self) -> Option<MonthlyScheduleView> {
        match self.current_schedule {
            Some(s) => Some(s@),
            None => None,
        }
    }

    /// A window showing the month `year`-`month` with nothing loaded yet.
    pub fn new(year: i32, month: u32) -> (r: Self)
        requires
            month_exists(year, month),
        ensures
            r.wf(),
            r.year == year,
            r.month == month,
            !r.is_dark,
            r.search_query@.len() == 0,
            r.rows().len() == 0,
            r.attendance_table.selected_employee is None,
            r.modal is Closed,
            r.toasts@.len() == 0,
            r.toast_counter == 0,
            r.current_schedule is None,
            !r.is_locked,
    {
        AppState {
            is_dark: false,
            search_query: String::new(),
            year,
            month,
            attendance_table: AttendanceTable::new(),
            modal: Modal::Closed,
            toasts: Vec::new(),
            toast_counter: 0,
            current_schedule: None,
            is_locked: false,
        }
    }

    /// Shows a notification with the next id, which it returns; the caller dismisses it after
    /// five seconds.
    pub fn show_toast(&mut self, title: String, body: String, status: Status, now: Instant) -> (id: u64)
        requires
            old(self).toast_counter < u64::MAX,
        ensures
            id == old(self).toast_counter + 1,
            final(self).toast_counter == id,
            toasts_view(final(self).toasts@) == toasts_view(old(self).toasts@).push(
                ToastView { id, title: title@, body: body@, status, created_at: now },
            ),
            final(self).is_dark == old(self).is_dark,
            final(self).search_query == old(self).search_query,
            final(self).year == old(self).year,
            final(self).month == old(self).month,
            final(self).attendance_table == old(self).attendance_table,
            final(self).modal == old(self).modal,
            final(self).current_schedule == old(self).current_schedule,
            final(self).is_locked == old(self).is_locked,
    {
        self.toast_counter = self.toast_counter + 1;
        let id = self.toast_counter;
        let ghost before = self.toasts@;
        let ghost (t, b) = (title@, body@);
        self.toasts.push(Toast { id, title, body, status, created_at: now });
        proof {
            assert(toasts_view(self.toasts@) =~= toasts_view(before).push(
                ToastView { id, title: t, body: b, status, created_at: now },
            ));
        }
        id
    }

    /// Removes the notifications with id `id` (when it times out or is closed).
    pub fn dismiss_toast(&mut self, id: u64)
        ensures
            toasts_view(final(self).toasts@) == without_id(toasts_view(old(self).toasts@), id),
            final(self).toast_counter == old(self).toast_counter,
            final(self).is_dark == old(self).is_dark,
            final(self).search_query == old(self).search_query,
            final(self).year == old(self).year,
            final(self).month == old(self).month,
            final(self).attendance_table == old(self).attendance_table,
            final(self).modal == old(self).modal,
            final(self).current_schedule == old(self).current_schedule,
            final(self).is_locked == old(self).is_locked,
    {
        let ghost ov = toasts_view(self.toasts@);
        let mut kept: Vec<Toast> = Vec::new();
        let mut i: usize = 0;
        while i < self.toasts.len()
            invariant
                i <= self.toasts.len(),
                ov == toasts_view(self.toasts@),
                toasts_view(kept@) == without_id(ov.take(i as int), id),
            decreases self.toasts.len() - i,
        {
            proof {
                assert(ov.take(i as int + 1).drop_last() =~= ov.take(i as int));
            }
            if self.toasts[i].id != id {
                let ghost before = kept@;
                let t = self.toasts[i].clone();
                kept.push(t);
                proof {
                    assert(toasts_view(kept@) =~= toasts_view(before).push(ov[i as int]));
                }
            }
            i = i + 1;
        }
        proof {
            assert(ov.take(self.toasts.len() as int) =~= ov);
        }
        self.toasts = kept;
    }

    /// Shows the employees read from the store, with their weeks in the schedule being worked
    /// on.
    pub fn refresh_employees(&mut self, found: &Vec<CoreEmployee>)
        requires
            old(self).wf(),
        ensures
            final(self).wf(),
            final(self).rows() == shown_rows(found@.map_values(|e: CoreEmployee| e@), old(self).schedule_view()),
            final(self).attendance_table.selected_employee == old(self).attendance_table.selected_employee,
            final(self).is_dark == old(self).is_dark,
            final(self).search_query == old(self).search_query,
            final(self).year == old(self).year,
            final(self).month == old(self).month,
            final(self).modal == old(self).modal,
            final(self).current_schedule == old(self).current_schedule,
            final(self).is_locked == old(self).is_locked,
            same_toasts(*old(self), *final(self)),
    {
        let rows = rows_for(found, &self.current_schedule);
        self.attendance_table.employees = rows;
    }

    /// Takes the saved schedule of the shown month, if any, and whether a later month has one
    /// (what the store answered; nothing when it could not be asked). The caller then shows
    /// the employees again.
    pub fn load_schedule(&mut self, found: Option<MonthlySchedule>, has_future: Option<bool>)
        requires
            old(self).wf(),
            found matches Some(s) ==> s.wf(),
        ensures
            final(self).wf(),
            final(self).current_schedule == found,
            final(self).is_locked == (has_future == Some(true)),
            final(self).is_dark == old(self).is_dark,
            final(self).search_query == old(self).search_query,
            final(self).year == old(self).year,
            final(self).month == old(self).month,
            final(self).attendance_table == old(self).attendance_table,
            final(self).modal == old(self).modal,
            same_toasts(*old(self), *final(self)),
    {
        self.current_schedule = found;
        self.is_locked = match has_future {
            Some(b) => b,
            None => false,
        };
    }

    /// Sets the search text; the caller then shows the matching employees.
    pub fn search_changed(&mut self, query: String)
        ensures
            final(self).search_query == query,
            final(self).is_dark == old(self).is_dark,
            final(self).year == old(self).year,
            final(self).month == old(self).month,
            final(self).attendance_table == old(self).attendance_table,
            final(self).modal == old(self).modal,
            final(self).current_schedule == old(self).current_schedule,
            final(self).is_locked == old(self).is_locked,
            same_toasts(*old(self), *final(self)),
    {
        self.search_query = query;
    }

    /// Switches between the light and the dark theme.
    pub fn toggle_theme(&mut self)
        ensures
            final(self).is_dark == !old(self).is_dark,
            final(self).search_query == old(self).search_query,
            final(self).year == old(self).year,
            final(self).month == old(self).month,
            final(self).attendance_table == old(self).attendance_table,
            final(self).modal == old(self).modal,
            final(self).current_schedule == old(self).current_schedule,
            final(self).is_locked == old(self).is_locked,
            same_toasts(*old(self), *final(self)),
    {
        self.is_dark = !self.is_dark;
    }

    /// Shows the month before; the caller then loads it.
    pub fn previous_date(&mut self)
        requires
            old(self).wf(),
            month_exists(month_before(old(self).year, old(self).month).0, month_before(old(self).year, old(self).month).1),
        ensures
            final(self).wf(),
            (final(self).year, final(self).month) == month_before(old(self).year, old(self).month),
            final(self).is_dark == old(self).is_dark,
            final(self).search_query == old(self).search_query,
            final(self).attendance_table == old(self).attendance_table,
            final(self).modal == old(self).modal,
            final(self).current_schedule == old(self).current_schedule,
            final(self).is_locked == old(self).is_locked,
            same_toasts(*old(self), *final(self)),
    {
        let (y, m) = previous_month(self.year, self.month);
        self.year = y;
        self.month = m;
    }

    /// Shows the month after; the caller then loads it.
    pub fn next_date(&mut self)
        requires
            old(self).wf(),
            month_exists(month_after(old(self).year, old(self).month).0, month_after(old(self).year, old(self).month).1),
        ensures
            final(self).wf(),
            (final(self).year, final(self).month) == month_after(old(self).year, old(self).month),
            final(self).is_dark == old(self).is_dark,
            final(self).search_query == old(self).search_query,
            final(self).attendance_table == old(self).attendance_table,
            final(self).modal == old(self).modal,
            final(self).current_schedule == old(self).current_schedule,
            final(self).is_locked == old(self).is_locked,
            same_toasts(*old(self), *final(self)),
    {
        let (y, m) = next_month(self.year, self.month);
        self.year = y;
        self.month = m;
    }

    /// Closes the open dialog.
    pub fn close_modal(&mut self)
        ensures
            final(self).modal is Closed,
            final(self).is_dark == old(self).is_dark,
            final(self).search_query == old(self).search_query,
            final(self).year == old(self).year,
            final(self).month == old(self).month,
            final(self).attendance_table == old(self).attendance_table,
            final(self).current_schedule == old(self).current_schedule,
            final(self).is_locked == old(self).is_locked,
            same_toasts(*old(self), *final(self)),
    {
        self.modal = Modal::Closed;
    }

    /// Opens the add dialog with an empty form.
    pub fn open_add_form(&mut self)
        ensures
            final(self).modal matches Modal::AddEmployee(f) && is_empty_form(f),
            final(self).is_dark == old(self).is_dark,
            final(self).search_query == old(self).search_query,
            final(self).year == old(self).year,
            final(self).month == old(self).month,
            final(self).attendance_table == old(self).attendance_table,
            final(self).current_schedule == old(self).current_schedule,
            final(self).is_locked == old(self).is_locked,
            same_toasts(*old(self), *final(self)),
    {
        self.modal = Modal::AddEmployee(EmployeeForm::default());
    }

    /// Opens the edit dialog for the selected employee, if one is selected and shown.
    pub fn open_edit_form(&mut self)
        ensures
            match old(self).attendance_table.selected_employee {
                Some(i) if i < old(self).rows().len() => final(self).modal matches Modal::EditEmployee(j, f)
                    && j == i && is_form_of(f, old(self).rows()[i as int]),
                _ => final(self).modal == old(self).modal,
            },
            final(self).is_dark == old(self).is_dark,
            final(self).search_query == old(self).search_query,
            final(self).year == old(self).year,
            final(self).month == old(self).month,
            final(self).attendance_table == old(self).attendance_table,
            final(self).current_schedule == old(self).current_schedule,
            final(self).is_locked == old(self).is_locked,
            same_toasts(*old(self), *final(self)),
    {
        if let Some(idx) = self.attendance_table.selected_employee {
            if idx < self.attendance_table.employees.len() {
                let form = EmployeeForm::from(&self.attendance_table.employees[idx]);
                self.modal = Modal::EditEmployee(idx, form);
            }
        }
    }

    /// Asks to confirm deleting the selected employee, if one is selected.
    pub fn open_delete_confirmation(&mut self)
        ensures
            match old(self).attendance_table.selected_employee {
                Some(i) => final(self).modal == Modal::DeleteEmployee(i),
                None => final(self).modal == old(self).modal,
            },
            final(self).is_dark == old(self).is_dark,
            final(self).search_query == old(self).search_query,
            final(self).year == old(self).year,
            final(self).month == old(self).month,
            final(self).attendance_table == old(self).attendance_table,
            final(self).current_schedule == old(self).current_schedule,
            final(self).is_locked == old(self).is_locked,
            same_toasts(*old(self), *final(self)),
    {
        if let Some(idx) = self.attendance_table.selected_employee {
            self.modal = Modal::DeleteEmployee(idx);
        }
    }

    /// Opens a report: that of the selected employee, given the most recent schedules of the
    /// store (newest first) when they could be read, or the general report of the shown month
    /// when nobody is selected.
    pub fn open_report(&mut self, recent: Option<Vec<MonthlySchedule>>)
        requires
            old(self).wf(),
            recent matches Some(v) ==> forall|k: int| 0 <= k < v@.len() ==> (#[trigger] v@[k]).wf(),
        ensures
            final(self).wf(),
            match old(self).attendance_table.selected_employee {
                Some(i) => if i < old(self).rows().len() {
                    final(self).modal matches Modal::EmployeeReport(e, label) && (e@, label@) == report_of(
                        old(self).rows()[i as int],
                        match recent {
                            Some(v) => Some(schedules_view(v@)),
                            None => None,
                        },
                        month_year_label(old(self).year, old(self).month),
                    )
                } else {
                    final(self).modal == old(self).modal
                },
                None => final(self).modal matches Modal::GeneralReport(c) && report_matches(
                    c,
                    old(self).rows(),
                    month_year_label(old(self).year, old(self).month),
                ),
            },
            final(self).is_dark == old(self).is_dark,
            final(self).search_query == old(self).search_query,
            final(self).year == old(self).year,
            final(self).month == old(self).month,
            final(self).attendance_table == old(self).attendance_table,
            final(self).current_schedule == old(self).current_schedule,
            final(self).is_locked == old(self).is_locked,
            same_toasts(*old(self), *final(self)),
    {
        let label = current_month_label(self.year, self.month);
        match self.attendance_table.selected_employee {
            Some(idx) => {
                if idx < self.attendance_table.employees.len() {
                    let (e, l) = match &recent {
                        Some(v) => employee_report(&self.attendance_table.employees[idx], Some(v), label),
                        None => employee_report(&self.attendance_table.employees[idx], None, label),
                    };
                    self.modal = Modal::EmployeeReport(e, l);
                }
            },
            None => {
                let data = calculate_report(&self.attendance_table.employees, label);
                self.modal = Modal::GeneralReport(data);
            },
        }
    }

    /// Makes a schedule for the shown month from the employees read from the store (nothing
    /// when they could not be read, or when they are beyond what generation takes), shows
    /// every week, and says so; with no employee shown it only says that there is none.
    pub fn generate(&mut self, stored: Option<Vec<CoreEmployee>>, now: Instant) -> (r: Option<u64>)
        requires
            old(self).wf(),
            old(self).toast_counter < u64::MAX,
        ensures
            final(self).wf(),
            if old(self).rows().len() == 0 {
                &&& r == Some(final(self).toast_counter)
                &&& toasted(*old(self), *final(self), "No Employees"@,
                    "Please add employees before generating a schedule."@, Status::Error, now)
                &&& same_but_toasts(*old(self), *final(self))
            } else if stored is Some && input_in_range(day_view_emps(stored->0@)) {
                &&& r == Some(final(self).toast_counter)
                &&& toasted(*old(self), *final(self), "Schedule Generated"@,
                    "New schedule has been generated (not saved yet)."@, Status::Success, now)
                &&& final(self).current_schedule matches Some(s) && s.wf() && (exists|p: PastSchedules|
                    p@ == Map::<i32, Vec<[bool; 5]>>::empty() && #[trigger] schedule_ok(
                        day_view_emps(stored->0@),
                        p,
                        old(self).year,
                        old(self).month,
                        s@,
                    )) && final(self).rows().len() == old(self).rows().len() && (forall|i: int|
                    0 <= i < old(self).rows().len() ==> #[trigger] final(self).rows()[i] == with_week(
                        old(self).rows()[i],
                        week_in(s@, old(self).rows()[i].id),
                    ))
                &&& final(self).attendance_table.selected_employee
                    == old(self).attendance_table.selected_employee
                &&& final(self).is_dark == old(self).is_dark
                &&& final(self).search_query == old(self).search_query
                &&& final(self).year == old(self).year
                &&& final(self).month == old(self).month
                &&& final(self).modal == old(self).modal
                &&& final(self).is_locked == old(self).is_locked
            } else {
                r is None && same_but_toasts(*old(self), *final(self)) && same_toasts(*old(self), *final(self))
            },
    {
        if self.attendance_table.employees.len() == 0 {
            let id = self.show_toast(
                String::from_str("No Employees"),
                String::from_str("Please add employees before generating a schedule."),
                Status::Error,
                now,
            );
            return Some(id);
        }
        match stored {
            Some(core) => {
                if !input_fits(core.as_slice()) {
                    return None;
                }
                let engine = Engine::new();
                let past: PastSchedules = HashMap::new();
                let schedule = engine.generate_schedule(core.as_slice(), &past, self.year, self.month);
                let ghost before = self.attendance_table.employees@;
                apply_schedule_to_ui(&mut self.attendance_table.employees, &schedule);
                proof {
                    assert forall|i: int| 0 <= i < before.len() implies #[trigger] shown(
                        self.attendance_table.employees@,
                    )[i] == with_week(shown(before)[i], week_in(schedule@, shown(before)[i].id)) by {
                        assert(shown(before)[i] == before[i]@);
                        assert(shown(self.attendance_table.employees@)[i] == self.attendance_table.employees@[i]@);
                    }
                }
                self.current_schedule = Some(schedule);
                let id = self.show_toast(
                    String::from_str("Schedule Generated"),
                    String::from_str("New schedule has been generated (not saved yet)."),
                    Status::Success,
                    now,
                );
                Some(id)
            },
            None => None,
        }
    }

    /// The first step of saving: with no schedule being worked on, says so and returns the
    /// notification's id; otherwise changes nothing (the caller then reads the saved schedule
    /// of that month).
    pub fn check_save(&mut self, now: Instant) -> (r: Option<u64>)
        requires
            old(self).toast_counter < u64::MAX,
        ensures
            same_but_toasts(*old(self), *final(self)),
            old(self).current_schedule is None ==> r == Some(final(self).toast_counter) && toasted(
                *old(self),
                *final(self),
                "No Schedule"@,
                "Please generate a schedule first."@,
                Status::Info,
                now,
            ),
            old(self).current_schedule is Some ==> r is None && same_toasts(*old(self), *final(self)),
    {
        if self.current_schedule.is_none() {
            let id = self.show_toast(
                String::from_str("No Schedule"),
                String::from_str("Please generate a schedule first."),
                Status::Info,
                now,
            );
            Some(id)
        } else {
            None
        }
    }

    /// The second step of saving, given the saved schedule of the month if there is one: when
    /// it has the same content, says so and returns the notification's id (nothing is to be
    /// stored); otherwise changes nothing and the caller stores the schedule.
    pub fn compare_saved(&mut self, existing: Option<MonthlySchedule>, now: Instant) -> (r: Option<u64>)
        requires
            old(self).wf(),
            old(self).toast_counter < u64::MAX,
            old(self).current_schedule is Some,
            existing matches Some(e) ==> e.wf(),
        ensures
            same_but_toasts(*old(self), *final(self)),
            (existing matches Some(e) && same_content(old(self).current_schedule->0@, e@)) ==> r == Some(
                final(self).toast_counter,
            ) && toasted(
                *old(self),
                *final(self),
                "Schedule Exists"@,
                "This exact schedule is already saved."@,
                Status::Info,
                now,
            ),
            !(existing matches Some(e) && same_content(old(self).current_schedule->0@, e@)) ==> r is None
                && same_toasts(*old(self), *final(self)),
    {
        let same = match (&self.current_schedule, &existing) {
            (Some(cur), Some(e)) => cur.is_same_content(e),
            _ => false,
        };
        if same {
            let id = self.show_toast(
                String::from_str("Schedule Exists"),
                String::from_str("This exact schedule is already saved."),
                Status::Info,
                now,
            );
            Some(id)
        } else {
            None
        }
    }

    /// The last step of saving: says whether the store took the schedule.
    pub fn finish_save(&mut self, result: Result<(), String>, now: Instant) -> (id: u64)
        requires
            old(self).toast_counter < u64::MAX,
        ensures
            id == final(self).toast_counter,
            same_but_toasts(*old(self), *final(self)),
            match result {
                Ok(_) => toasted(*old(self), *final(self), "Schedule Saved"@,
                    "Schedule successfully saved to database."@, Status::Success, now),
                Err(e) => toasted(*old(self), *final(self), "Save Failed"@, e@, Status::Error, now),
            },
    {
        match result {
            Ok(_) => self.show_toast(
                String::from_str("Schedule Saved"),
                String::from_str("Schedule successfully saved to database."),
                Status::Success,
                now,
            ),
            Err(e) => self.show_toast(String::from_str("Save Failed"), e, Status::Error, now),
        }
    }

    /// After the shown month was loaded again to undo changes: says whether a saved schedule
    /// came back.
    pub fn finish_undo(&mut self, now: Instant) -> (id: u64)
        requires
            old(self).toast_counter < u64::MAX,
        ensures
            id == final(self).toast_counter,
            same_but_toasts(*old(self), *final(self)),
            old(self).current_schedule is Some ==> toasted(*old(self), *final(self), "Changes Undone"@,
                "Reverted to the last saved schedule."@, Status::Success, now),
            old(self).current_schedule is None ==> toasted(*old(self), *final(self), "Changes Undone"@,
                "Reverted to empty state (no saved schedule)."@, Status::Info, now),
    {
        if self.current_schedule.is_some() {
            self.show_toast(
                String::from_str("Changes Undone"),
                String::from_str("Reverted to the last saved schedule."),
                Status::Success,
                now,
            )
        } else {
            self.show_toast(
                String::from_str("Changes Undone"),
                String::from_str("Reverted to empty state (no saved schedule)."),
                Status::Info,
                now,
            )
        }
    }

    /// Says that the PDF download started.
    pub fn download_pdf(&mut self, now: Instant) -> (id: u64)
        requires
            old(self).toast_counter < u64::MAX,
        ensures
            id == final(self).toast_counter,
            same_but_toasts(*old(self), *final(self)),
            toasted(*old(self), *final(self), "Download PDF"@, "PDF Download started..."@, Status::Success, now),
    {
        self.show_toast(
            String::from_str("Download PDF"),
            String::from_str("PDF Download started..."),
            Status::Success,
            now,
        )
    }

    /// Submits the add dialog: a name that another shown employee has (trimmed, ASCII case
    /// aside) is refused with a notification; otherwise the employee to store is returned.
    pub fn check_add(&mut self, now: Instant) -> (r: AddStep)
        requires
            old(self).toast_counter < u64::MAX,
        ensures
            same_but_toasts(*old(self), *final(self)),
            match old(self).modal {
                Modal::AddEmployee(f) => if name_taken_by(old(self).rows(), f.name@, None) {
                    r == AddStep::Refused(final(self).toast_counter) && toasted(
                        *old(self),
                        *final(self),
                        "Duplicate Name"@,
                        "An employee with this name already exists."@,
                        Status::Error,
                        now,
                    )
                } else {
                    r matches AddStep::Create(e) && e@ == new_employee_from(f) && same_toasts(*old(self), *final(self))
                },
                _ => r is Ignored && same_toasts(*old(self), *final(self)),
            },
    {
        let step = match &self.modal {
            Modal::AddEmployee(form) => {
                if name_taken(&self.attendance_table.employees, form.name.as_str(), None) {
                    None
                } else {
                    Some(Some(employee_from_form(form)))
                }
            },
            _ => Some(None),
        };
        match step {
            None => {
                let id = self.show_toast(
                    String::from_str("Duplicate Name"),
                    String::from_str("An employee with this name already exists."),
                    Status::Error,
                    now,
                );
                AddStep::Refused(id)
            },
            Some(Some(e)) => AddStep::Create(e),
            Some(None) => AddStep::Ignored,
        }
    }

    /// After the store was asked to add the employee named `name`: closes the dialog and says
    /// so, or shows the store's error (the dialog stays). On success the caller shows the
    /// employees again.
    pub fn finish_add(&mut self, result: Result<(), String>, name: &str, now: Instant) -> (id: u64)
        requires
            old(self).toast_counter < u64::MAX,
        ensures
            id == final(self).toast_counter,
            final(self).is_dark == old(self).is_dark,
            final(self).search_query == old(self).search_query,
            final(self).year == old(self).year,
            final(self).month == old(self).month,
            final(self).attendance_table == old(self).attendance_table,
            final(self).current_schedule == old(self).current_schedule,
            final(self).is_locked == old(self).is_locked,
            match result {
                Ok(_) => final(self).modal is Closed && toasted(*old(self), *final(self), "Employee Added"@,
                    name@ + " has been successfully added."@, Status::Success, now),
                Err(e) => final(self).modal == old(self).modal && toasted(*old(self), *final(self), "Error"@,
                    e@, Status::Error, now),
            },
    {
        match result {
            Ok(_) => {
                self.modal = Modal::Closed;
                self.show_toast(
                    String::from_str("Employee Added"),
                    concat_str(name, " has been successfully added."),
                    Status::Success,
                    now,
                )
            },
            Err(e) => self.show_toast(String::from_str("Error"), e, Status::Error, now),
        }
    }

    /// Submits the edit dialog for row `idx`: a name that another shown employee has is
    /// refused with a notification; otherwise the stored employee with the row's id is to be
    /// looked up. When no edit dialog is open or there is no such row, the dialog is closed.
    pub fn check_edit(&mut self, idx: usize, now: Instant) -> (r: EditStep)
        requires
            old(self).toast_counter < u64::MAX,
        ensures
            final(self).is_dark == old(self).is_dark,
            final(self).search_query == old(self).search_query,
            final(self).year == old(self).year,
            final(self).month == old(self).month,
            final(self).attendance_table == old(self).attendance_table,
            final(self).current_schedule == old(self).current_schedule,
            final(self).is_locked == old(self).is_locked,
            match old(self).modal {
                Modal::EditEmployee(_, f) => if idx < old(self).rows().len() {
                    if name_taken_by(old(self).rows(), f.name@, Some(old(self).rows()[idx as int].id)) {
                        r == EditStep::Refused(final(self).toast_counter) && final(self).modal == old(self).modal
                            && toasted(
                            *old(self),
                            *final(self),
                            "Duplicate Name"@,
                            "An employee with this name already exists."@,
                            Status::Error,
                            now,
                        )
                    } else {
                        r == EditStep::Lookup(old(self).rows()[idx as int].id) && final(self).modal == old(self).modal
                            && same_toasts(*old(self), *final(self))
                    }
                } else {
                    r is Closed && final(self).modal is Closed && same_toasts(*old(self), *final(self))
                },
                _ => r is Closed && final(self).modal is Closed && same_toasts(*old(self), *final(self)),
            },
    {
        let step = match &self.modal {
            Modal::EditEmployee(_, form) => {
                if idx < self.attendance_table.employees.len() {
                    let id = self.attendance_table.employees[idx].id;
                    assert(id == self.rows()[idx as int].id);
                    if name_taken(&self.attendance_table.employees, form.name.as_str(), Some(id)) {
                        Some(None)
                    } else {
                        Some(Some(id))
                    }
                } else {
                    None
                }
            },
            _ => None,
        };
        match step {
            Some(None) => {
                let id = self.show_toast(
                    String::from_str("Duplicate Name"),
                    String::from_str("An employee with this name already exists."),
                    Status::Error,
                    now,
                );
                EditStep::Refused(id)
            },
            Some(Some(id)) => EditStep::Lookup(id),
            None => {
                self.modal = Modal::Closed;
                EditStep::Closed
            },
        }
    }

    /// Applies the open edit dialog to the stored employee that was looked up, which the
    /// caller then stores; when there is none (or no edit dialog is open), closes the dialog.
    pub fn apply_edit(&mut self, found: Option<CoreEmployee>) -> (r: Option<CoreEmployee>)
        ensures
            final(self).is_dark == old(self).is_dark,
            final(self).search_query == old(self).search_query,
            final(self).year == old(self).year,
            final(self).month == old(self).month,
            final(self).attendance_table == old(self).attendance_table,
            final(self).current_schedule == old(self).current_schedule,
            final(self).is_locked == old(self).is_locked,
            same_toasts(*old(self), *final(self)),
            match (old(self).modal, found) {
                (Modal::EditEmployee(_, f), Some(e)) => r matches Some(x) && x@ == edited_employee(e@, f)
                    && final(self).modal == old(self).modal,
                _ => r is None && final(self).modal is Closed,
            },
    {
        match (&self.modal, found) {
            (Modal::EditEmployee(_, form), Some(e)) => {
                let mut e = e;
                apply_form(&mut e, form);
                Some(e)
            },
            _ => {
                self.modal = Modal::Closed;
                None
            },
        }
    }

    /// After the store was asked to update the employee named `name`: closes the dialog and
    /// says so, or shows the store's error (the dialog stays). On success the caller shows the
    /// employees again.
    pub fn finish_edit(&mut self, result: Result<(), String>, name: &str, now: Instant) -> (id: u64)
        requires
            old(self).toast_counter < u64::MAX,
        ensures
            id == final(self).toast_counter,
            final(self).is_dark == old(self).is_dark,
            final(self).search_query == old(self).search_query,
            final(self).year == old(self).year,
            final(self).month == old(self).month,
            final(self).attendance_table == old(self).attendance_table,
            final(self).current_schedule == old(self).current_schedule,
            final(self).is_locked == old(self).is_locked,
            match result {
                Ok(_) => final(self).modal is Closed && toasted(*old(self), *final(self), "Employee Updated"@,
                    name@ + "'s details have been updated."@, Status::Success, now),
                Err(e) => final(self).modal == old(self).modal && toasted(*old(self), *final(self), "Error"@,
                    e@, Status::Error, now),
            },
    {
        match result {
            Ok(_) => {
                self.modal = Modal::Closed;
                self.show_toast(
                    String::from_str("Employee Updated"),
                    concat_str(name, "'s details have been updated."),
                    Status::Success,
                    now,
                )
            },
            Err(e) => self.show_toast(String::from_str("Error"), e, Status::Error, now),
        }
    }

    /// Confirms deleting row `idx`: returns the id and name of the employee to delete, or
    /// closes the dialog when there is no such row.
    pub fn check_delete(&mut self, idx: usize) -> (r: Option<(i32, String)>)
        ensures
            final(self).is_dark == old(self).is_dark,
            final(self).search_query == old(self).search_query,
            final(self).year == old(self).year,
            final(self).month == old(self).month,
            final(self).attendance_table == old(self).attendance_table,
            final(self).current_schedule == old(self).current_schedule,
            final(self).is_locked == old(self).is_locked,
            same_toasts(*old(self), *final(self)),
            if idx < old(self).rows().len() {
                r matches Some(p) && p.0 == old(self).rows()[idx as int].id && p.1@ == old(self).rows()[idx as int].name
                    && final(self).modal == old(self).modal
            } else {
                r is None && final(self).modal is Closed
            },
    {
        if idx < self.attendance_table.employees.len() {
            let e = &self.attendance_table.employees[idx];
            assert(e@ == self.rows()[idx as int]);
            Some((e.id, e.name.clone()))
        } else {
            self.modal = Modal::Closed;
            None
        }
    }

    /// After the store was asked to delete the employee named `name`: on success the schedule
    /// being worked on is dropped (the employees changed), the selection is cleared, the
    /// dialog closes and a notification says so, and the caller then shows the employees
    /// again; on failure the store's error is shown and the dialog stays.
    pub fn finish_delete(&mut self, result: Result<(), String>, name: &str, now: Instant) -> (id: u64)
        requires
            old(self).wf(),
            old(self).toast_counter < u64::MAX,
        ensures
            final(self).wf(),
            id == final(self).toast_counter,
            final(self).is_dark == old(self).is_dark,
            final(self).search_query == old(self).search_query,
            final(self).year == old(self).year,
            final(self).month == old(self).month,
            final(self).attendance_table.employees == old(self).attendance_table.employees,
            final(self).is_locked == old(self).is_locked,
            match result {
                Ok(_) => {
                    &&& final(self).current_schedule is None
                    &&& final(self).attendance_table.selected_employee is None
                    &&& final(self).modal is Closed
                    &&& toasted(*old(self), *final(self), "Employee Deleted"@, name@ + " has been removed."@,
                        Status::Success, now)
                },
                Err(e) => {
                    &&& final(self).current_schedule == old(self).current_schedule
                    &&& final(self).attendance_table.selected_employee
                        == old(self).attendance_table.selected_employee
                    &&& final(self).modal == old(self).modal
                    &&& toasted(*old(self), *final(self), "Error"@, e@, Status::Error, now)
                },
            },
    {
        match result {
            Ok(_) => {
                self.current_schedule = None;
                self.attendance_table.selected_employee = None;
                self.modal = Modal::Closed;
                self.show_toast(
                    String::from_str("Employee Deleted"),
                    concat_str(name, " has been removed."),
                    Status::Success,
                    now,
                )
            },
            Err(e) => self.show_toast(String::from_str("Error"), e, Status::Error, now),
        }
    }

    /// Passes a message to the table; see [`AttendanceTable::update`].
    pub fn table_message(&mut self, message: TableMessage) -> (r: Option<usize>)
        requires
            old(self).wf(),
        ensures
            final(self).wf(),
            final(self).attendance_table.employees@ == old(self).attendance_table.employees@,
            match message {
                TableMessage::SelectEmployee(i) => if old(self).attendance_table.selected_employee == Some(i) {
                    final(self).attendance_table.selected_employee is None && r is None
                } else {
                    final(self).attendance_table.selected_employee == Some(i) && r == Some(i)
                },
                TableMessage::AutoDeselect(i) => r is None && final(self).attendance_table.selected_employee == (
                if old(self).attendance_table.selected_employee == Some(i) {
                    None
                } else {
                    old(self).attendance_table.selected_employee
                }),
            },
            final(self).is_dark == old(self).is_dark,
            final(self).search_query == old(self).search_query,
            final(self).year == old(self).year,
            final(self).month == old(self).month,
            final(self).modal == old(self).modal,
            final(self).current_schedule == old(self).current_schedule,
            final(self).is_locked == old(self).is_locked,
            same_toasts(*old(self), *final(self)),
    {
        self.attendance_table.update(message)
    }

    /// Sets the name in the open form.
    pub fn form_name_changed(&mut self, name: String)
        ensures
            form_changed(old(self).modal, final(self).modal, |f: EmployeeForm| EmployeeForm { name: name, ..f }),
            final(self).is_dark == old(self).is_dark,
            final(self).search_query == old(self).search_query,
            final(self).year == old(self).year,
            final(self).month == old(self).month,
            final(self).attendance_table == old(self).attendance_table,
            final(self).current_schedule == old(self).current_schedule,
            final(self).is_locked == old(self).is_locked,
            same_toasts(*old(self), *final(self)),
    {
        match &mut self.modal {
            Modal::AddEmployee(form) => {
                form.name = name;
            },
            Modal::EditEmployee(_, form) => {
                form.name = name;
            },
            _ => {},
        }
    }

    /// Sets the role in the open form.
    pub fn form_role_selected(&mut self, role: String)
        ensures
            form_changed(old(self).modal, final(self).modal, |f: EmployeeForm| EmployeeForm { role: Some(role), ..f }),
            final(self).is_dark == old(self).is_dark,
            final(self).search_query == old(self).search_query,
            final(self).year == old(self).year,
            final(self).month == old(self).month,
            final(self).attendance_table == old(self).attendance_table,
            final(self).current_schedule == old(self).current_schedule,
            final(self).is_locked == old(self).is_locked,
            same_toasts(*old(self), *final(self)),
    {
        match &mut self.modal {
            Modal::AddEmployee(form) => {
                form.role = Some(role);
            },
            Modal::EditEmployee(_, form) => {
                form.role = Some(role);
            },
            _ => {},
        }
    }

    /// Sets the sex in the open form.
    pub fn form_sex_selected(&mut self, sex: String)
        ensures
            form_changed(old(self).modal, final(self).modal, |f: EmployeeForm| EmployeeForm { sex: Some(sex), ..f }),
            final(self).is_dark == old(self).is_dark,
            final(self).search_query == old(self).search_query,
            final(self).year == old(self).year,
            final(self).month == old(self).month,
            final(self).attendance_table == old(self).attendance_table,
            final(self).current_schedule == old(self).current_schedule,
            final(self).is_locked == old(self).is_locked,
            same_toasts(*old(self), *final(self)),
    {
        match &mut self.modal {
            Modal::AddEmployee(form) => {
                form.sex = Some(sex);
            },
            Modal::EditEmployee(_, form) => {
                form.sex = Some(sex);
            },
            _ => {},
        }
    }

    /// Sets the number of office days in the open form.
    pub fn form_days_changed(&mut self, days: u8)
        ensures
            form_changed(old(self).modal, final(self).modal, |f: EmployeeForm| EmployeeForm { days_per_week: Some(days), ..f }),
            final(self).is_dark == old(self).is_dark,
            final(self).search_query == old(self).search_query,
            final(self).year == old(self).year,
            final(self).month == old(self).month,
            final(self).attendance_table == old(self).attendance_table,
            final(self).current_schedule == old(self).current_schedule,
            final(self).is_locked == old(self).is_locked,
            same_toasts(*old(self), *final(self)),
    {
        match &mut self.modal {
            Modal::AddEmployee(form) => {
                form.days_per_week = Some(days);
            },
            Modal::EditEmployee(_, form) => {
                form.days_per_week = Some(days);
            },
            _ => {},
        }
    }

    /// Sets the mentor in the open form.
    pub fn form_mentor_selected(&mut self, mentor: String)
        ensures
            form_changed(old(self).modal, final(self).modal, |f: EmployeeForm| EmployeeForm { mentor: Some(mentor), ..f }),
            final(self).is_dark == old(self).is_dark,
            final(self).search_query == old(self).search_query,
            final(self).year == old(self).year,
            final(self).month == old(self).month,
            final(self).attendance_table == old(self).attendance_table,
            final(self).current_schedule == old(self).current_schedule,
            final(self).is_locked == old(self).is_locked,
            same_toasts(*old(self), *final(self)),
    {
        match &mut self.modal {
            Modal::AddEmployee(form) => {
                form.mentor = Some(mentor);
            },
            Modal::EditEmployee(_, form) => {
                form.mentor = Some(mentor);
            },
            _ => {},
        }
    }

    /// Adds a mentee to the open form, unless it is listed already.
    pub fn form_mentee_selected(&mut self, mentee: String)
        ensures
            match old(self).modal {
                Modal::AddEmployee(f) => final(self).modal matches Modal::AddEmployee(g) && mentee_added(f, g, mentee@),
                Modal::EditEmployee(i, f) => final(self).modal matches Modal::EditEmployee(j, g) && j == i
                    && mentee_added(f, g, mentee@),
                _ => final(self).modal == old(self).modal,
            },
            final(self).is_dark == old(self).is_dark,
            final(self).search_query == old(self).search_query,
            final(self).year == old(self).year,
            final(self).month == old(self).month,
            final(self).attendance_table == old(self).attendance_table,
            final(self).current_schedule == old(self).current_schedule,
            final(self).is_locked == old(self).is_locked,
            same_toasts(*old(self), *final(self)),
    {
        match &mut self.modal {
            Modal::AddEmployee(form) => {
                add_mentee(&mut form.mentee, mentee);
            },
            Modal::EditEmployee(_, form) => {
                add_mentee(&mut form.mentee, mentee);
            },
            _ => {},
        }
    }

    /// Toggles a fixed day in the open form (see [`toggled`]); a day past Friday is ignored.
    pub fn form_toggle_day(&mut self, day_idx: usize)
        ensures
            day_idx < 5 ==> match old(self).modal {
                Modal::AddEmployee(f) => final(self).modal matches Modal::AddEmployee(g) && day_toggled(f, g, day_idx as int),
                Modal::EditEmployee(i, f) => final(self).modal matches Modal::EditEmployee(j, g) && j == i
                    && day_toggled(f, g, day_idx as int),
                _ => final(self).modal == old(self).modal,
            },
            day_idx >= 5 ==> final(self).modal == old(self).modal,
            final(self).is_dark == old(self).is_dark,
            final(self).search_query == old(self).search_query,
            final(self).year == old(self).year,
            final(self).month == old(self).month,
            final(self).attendance_table == old(self).attendance_table,
            final(self).current_schedule == old(self).current_schedule,
            final(self).is_locked == old(self).is_locked,
            same_toasts(*old(self), *final(self)),
    {
        if day_idx < 5 {
            match &mut self.modal {
                Modal::AddEmployee(form) => {
                    let t = toggle_form_day(form.attendance[day_idx]);
                    form.attendance.set(day_idx, t);
                },
                Modal::EditEmployee(_, form) => {
                    let t = toggle_form_day(form.attendance[day_idx]);
                    form.attendance.set(day_idx, t);
                },
                _ => {},
            }
        }
    }
}

/// Adds a name to a list of mentees unless it is there already.
fn add_mentee(list: &mut Vec<String>, name: String)
    ensures
        texts(final(list)@) == if texts(old(list)@).contains(name@) {
            texts(old(list)@)
        } else {
            texts(old(list)@).push(name@)
        },
{
    let mut i: usize = 0;
    while i < list.len()
        invariant
            i <= list.len(),
            forall|j: int| 0 <= j < i ==> (#[trigger] list@[j])@ != name@,
        decreases list.len() - i,
    {
        if crate::text::eq_str(list[i].as_str(), name.as_str()) {
            assert(texts(list@)[i as int] == name@);
            return;
        }
        i = i + 1;
    }
    proof {
        assert forall|j: int| 0 <= j < texts(list@).len() implies texts(list@)[j] != name@ by {
            assert(texts(list@)[j] == list@[j]@);
        }
    }
    let ghost before = list@;
    list.push(name);
    assert(texts(list@) =~= texts(before).push(list@[before.len() as int]@));
}

} // verus!
