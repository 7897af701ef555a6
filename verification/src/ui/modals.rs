use vstd::prelude::*;
use crate::ui::attendance_table::{AttendanceStatus, Employee, EmployeeRowView, clone_strings, opt_text};
use crate::types::{Weekday, weekday_at};
use crate::text::{is_blank, str_is_blank, concat_str};
use crate::mentorship::texts;

verus! {

/// The counts behind the general report of a month.
#[derive(Clone, Debug)]
pub struct ReportCounts {
    /// The month, as "January 2025".
    pub date: String,
    pub total_employees: usize,
    pub total_males: usize,
    pub total_females: usize,
    pub males_per_day: [usize; 5],
    pub females_per_day: [usize; 5],
    /// For each weekday, the roles in the office and how many of each, in order of first
    /// appearance.
    pub roles_per_day: Vec<Vec<(String, usize)>>,
    /// For each weekday, how many are in the office.
    pub daily_attendance: [usize; 5],
    /// For each weekday, how many work remotely.
    pub daily_remote: [usize; 5],
    pub day_most_attendance: String,
    pub day_least_attendance: String,
}

/// The dialog that is open over the table, if any.
#[derive(Clone, Debug)]
pub enum Modal {
    /// No dialog is open.
    Closed,
    AddEmployee(EmployeeForm),
    EditEmployee(usize, EmployeeForm),
    DeleteEmployee(usize),
    GeneralReport(ReportCounts),
    EmployeeReport(Employee, String),
    Settings,
    ConfirmResetApp,
    ConfirmResetSchedules,
    ConfirmResetEmployees,
}

/// The fields of the add and edit dialogs.
#[derive(Clone, Debug)]
pub struct EmployeeForm {
    pub name: String,
    pub role: Option<String>,
    pub sex: Option<String>,
    pub days_per_week: Option<u8>,
    pub mentee: Vec<String>,
    pub mentor: Option<String>,
    /// Fixed office days: office where set.
    pub attendance: [AttendanceStatus; 5],
    pub available_employees: Vec<String>,
}

/// The form's week for a list of fixed days: office on those days, not set on the others.
pub open spec fn fixed_week(days: Seq<Weekday>) -> Seq<AttendanceStatus> {
    Seq::new(
        5,
        |d: int|
            if days.contains(weekday_at(d)) {
                AttendanceStatus::Office
            } else {
                AttendanceStatus::NA
            },
    )
}

/// `f` is the edit form of the shown employee `e`: its fields, and its fixed days as office
/// days.
pub open spec fn is_form_of(f: EmployeeForm, e: EmployeeRowView) -> bool {
    &&& f.name@ == e.name
    &&& opt_text(f.role) == Some(e.role)
    &&& opt_text(f.sex) == Some(e.sex)
    &&& f.days_per_week == Some(e.days_per_week)
    &&& texts(f.mentee@) == e.mentee
    &&& opt_text(f.mentor) == e.mentor
    &&& f.attendance@ == fixed_week(e.fixed_days)
    &&& f.available_employees@.len() == 0
}

/// `f` is an empty form: nothing chosen and no fixed day.
pub open spec fn is_empty_form(f: EmployeeForm) -> bool {
    &&& f.name@.len() == 0
    &&& f.role is None
    &&& f.sex is None
    &&& f.days_per_week is None
    &&& f.mentee@.len() == 0
    &&& f.mentor is None
    &&& f.attendance@ == seq![AttendanceStatus::NA; 5]
    &&& f.available_employees@.len() == 0
}

impl EmployeeForm {
    /// A form can be submitted once it has a name that is not blank, a role, a sex and a
    /// number of days.
    pub fn is_valid(&self) -> (r: bool)
        ensures
            r == (!is_blank(self.name@) && self.role is Some && self.sex is Some
                && self.days_per_week is Some),
    {
        !str_is_blank(self.name.as_str()) && self.role.is_some() && self.sex.is_some()
            && self.days_per_week.is_some()
    }

    /// The edit form of a shown employee: its fields, and its fixed days as office days.
    pub fn from(e: &Employee) -> (r: Self)
        ensures
            is_form_of(r, e@),
    {
        let mut attendance = [AttendanceStatus::NA; 5];
        let mut i: usize = 0;
        while i < e.fixed_days.len()
            invariant
                i <= e.fixed_days.len(),
                attendance@.len() == 5,
                forall|d: int|
                    0 <= d < 5 ==> (#[trigger] attendance@[d]) == (if e.fixed_days@.take(i as int).contains(
                        weekday_at(d),
                    ) {
                        AttendanceStatus::Office
                    } else {
                        AttendanceStatus::NA
                    }),
            decreases e.fixed_days.len() - i,
        {
            let idx = e.fixed_days[i].index();
            attendance.set(idx, AttendanceStatus::Office);
            proof {
                let before = e.fixed_days@.take(i as int);
                let after = e.fixed_days@.take(i as int + 1);
                assert(after =~= before.push(e.fixed_days@[i as int]));
                assert forall|d: int| 0 <= d < 5 implies after.contains(weekday_at(d)) == (
                before.contains(weekday_at(d)) || d == idx) by {
                    if d == idx {
                        assert(after[i as int] == weekday_at(d));
                    }
                    if after.contains(weekday_at(d)) && !before.contains(weekday_at(d)) {
                        let k = choose|k: int| 0 <= k < after.len() && after[k] == weekday_at(d);
                        if k < i {
                            assert(before[k] == weekday_at(d));
                        }
                        assert(weekday_at(d).spec_index() == d);
                    }
                    if before.contains(weekday_at(d)) {
                        let k = choose|k: int| 0 <= k < before.len() && before[k] == weekday_at(d);
                        assert(after[k] == weekday_at(d));
                    }
                }
            }
            i = i + 1;
        }
        proof {
            assert(e.fixed_days@.take(e.fixed_days.len() as int) =~= e.fixed_days@);
            assert(attendance@ =~= fixed_week(e.fixed_days@));
        }
        let mentor = match &e.mentor {
            Some(m) => Some(m.clone()),
            None => None,
        };
        EmployeeForm {
            name: e.name.clone(),
            role: Some(e.role.clone()),
            sex: Some(e.sex.clone()),
            days_per_week: Some(e.days_per_week),
            mentee: clone_strings(&e.mentee),
            mentor,
            attendance,
            available_employees: Vec::new(),
        }
    }
}

impl Default for EmployeeForm {
    /// An empty form: nothing chosen and no fixed day.
    fn default() -> (r: Self)
        ensures
            is_empty_form(r),
    {
        let r = EmployeeForm {
            name: String::new(),
            role: None,
            sex: None,
            days_per_week: None,
            mentee: Vec::new(),
            mentor: None,
            attendance: [AttendanceStatus::NA; 5],
            available_employees: Vec::new(),
        };
        assert(r.attendance@ =~= seq![AttendanceStatus::NA; 5]);
        r
    }
}

/// What the dialogs report.
#[derive(Clone, Debug)]
pub enum Message {
    Cancel,
    SubmitAdd,
    SubmitEdit(usize),
    ConfirmDelete(usize),
    NameChanged(String),
    RoleSelected(String),
    SexSelected(String),
    DaysChanged(u8),
    MenteeSelected(String),
    MenteeRemoved(String),
    MentorSelected(String),
    ToggleDay(usize),
    OverlayPressed,
    Close,
    DownloadPdf,
    ResetApp,
    ResetSchedules,
    ResetEmployees,
    ConfirmResetAppAction,
    ConfirmResetSchedulesAction,
    ConfirmResetEmployeesAction,
}

/// The short name of weekday `d` (Monday is 0).
pub open spec fn short_day(d: int) -> Seq<char> {
    if d == 0 {
        "Mon"@
    } else if d == 1 {
        "Tue"@
    } else if d == 2 {
        "Wed"@
    } else if d == 3 {
        "Thu"@
    } else {
        "Fri"@
    }
}

/// The short names of the office days among the first `n` days of a week, joined with spaces.
pub open spec fn office_day_names(week: Seq<AttendanceStatus>, n: int) -> Seq<char>
    decreases n,
{
    if n <= 0 {
        Seq::<char>::empty()
    } else {
        let prev = office_day_names(week, n - 1);
        if week[n - 1] == AttendanceStatus::Office {
            if prev.len() == 0 {
                short_day(n - 1)
            } else {
                prev + " "@ + short_day(n - 1)
            }
        } else {
            prev
        }
    }
}

/// How a week reads in a report: the short names of the office days, or "Remote Week" when
/// there is none.
pub open spec fn week_text(week: Seq<AttendanceStatus>) -> Seq<char> {
    if office_day_names(week, 5).len() == 0 {
        "Remote Week"@
    } else {
        office_day_names(week, 5)
    }
}

fn short_day_text(d: usize) -> (r: &'static str)
    requires
        d < 5,
    ensures
        r@ == short_day(d as int),
        r@.len() > 0,
{
    proof {
        reveal_strlit("Mon");
        reveal_strlit("Tue");
        reveal_strlit("Wed");
        reveal_strlit("Thu");
        reveal_strlit("Fri");
    }
    if d == 0 {
        "Mon"
    } else if d == 1 {
        "Tue"
    } else if d == 2 {
        "Wed"
    } else if d == 3 {
        "Thu"
    } else {
        "Fri"
    }
}

/// How a week reads in a report; see [`week_text`].
pub fn format_days(attendance: &[AttendanceStatus; 5]) -> (r: String)
    ensures
        r@ == week_text(attendance@),
{
    let mut out = String::new();
    let mut d: usize = 0;
    while d < 5
        invariant
            d <= 5,
            attendance@.len() == 5,
            out@ == office_day_names(attendance@, d as int),
        decreases 5 - d,
    {
        if attendance[d] == AttendanceStatus::Office {
            let name = short_day_text(d);
            if out.unicode_len() == 0 {
                out = String::from_str(name);
            } else {
                let spaced = concat_str(out.as_str(), " ");
                out = concat_str(spaced.as_str(), name);
            }
        }
        d = d + 1;
    }
    if out.unicode_len() == 0 {
        String::from_str("Remote Week")
    } else {
        out
    }
}

} // verus!
