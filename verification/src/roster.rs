use vstd::prelude::*;
use crate::employee::{Employee as CoreEmployee, EmployeeView};
use crate::types::{sex_name, role_name};
use crate::schedule::{MonthlySchedule, MonthlyScheduleView, ids_of, day_view, has_id};
use crate::ui::attendance_table::{AttendanceStatus, Employee, EmployeeRowView, past_view};
use crate::ui::modals::ReportCounts;
use crate::text::nat_decimal;
use crate::excel::month_name;

verus! {

/// A year as chrono's "%Y" writes it: four digits, zero-padded, for the years 0 to 9999, and
/// for other years a sign ('+' or '-') followed by the digits, zero-padded to four.
pub open spec fn year_text(year: int) -> Seq<char> {
    let d = nat_decimal((if year < 0 { -year } else { year }) as nat);
    let padded = Seq::new(if d.len() < 4 { (4 - d.len()) as nat } else { 0nat }, |i: int| '0') + d;
    if 0 <= year <= 9999 {
        padded
    } else if year < 0 {
        seq!['-'] + padded
    } else {
        seq!['+'] + padded
    }
}

/// The label that chrono writes for the first day of a month with the format "%B %Y": the
/// month's full English name, a space and the year, as in "January 2025".
pub open spec fn month_year_label(year: i32, month: u32) -> Seq<char> {
    month_name(month as int) + " "@ + year_text(year as int)
}

/// Whether chrono has a date for the first day of this month: a month from 1 to 12 in a year
/// within chrono's range.
pub open spec fn month_exists(year: i32, month: u32) -> bool {
    1 <= month <= 12 && -262143 <= year <= 262142
}

/// Formats the first day of a month with "%B %Y" through `chrono::NaiveDate::from_ymd_opt`
/// and `format` (month names from chrono's English table, the year through its `%Y` rule);
/// nothing when chrono has no such date.
#[verifier::external_body]
fn month_label(year: i32, month: u32) -> (r: Option<String>)
    ensures
        r is Some <==> month_exists(year, month),
        r is Some ==> r->0@ == month_year_label(year, month),
{
    match chrono::NaiveDate::from_ymd_opt(year, month, 1) {
        Some(d) => Some(d.format("%B %Y").to_string()),
        None => None,
    }
}

/// Whether chrono has the first day of this month; see [`month_exists`].
pub fn is_chrono_month(year: i32, month: u32) -> (r: bool)
    ensures
        r == month_exists(year, month),
{
    1 <= month && month <= 12 && -262143 <= year && year <= 262142
}

/// The label of a month, or that of January 1970 (chrono's default date) when chrono has no
/// such month.
pub open spec fn label_or_default(year: i32, month: u32) -> Seq<char> {
    if month_exists(year, month) {
        month_year_label(year, month)
    } else {
        month_year_label(1970, 1)
    }
}

/// The label of a month as the report shows it; see [`label_or_default`].
pub fn report_month_label(year: i32, month: u32) -> (r: String)
    ensures
        r@ == label_or_default(year, month),
{
    match month_label(year, month) {
        Some(s) => s,
        None => match month_label(1970, 1) {
            Some(s) => s,
            None => String::new(),
        },
    }
}

/// The label of a month that chrono has, as the title bar shows it.
pub fn current_month_label(year: i32, month: u32) -> (r: String)
    requires
        month_exists(year, month),
    ensures
        r@ == month_year_label(year, month),
{
    match month_label(year, month) {
        Some(s) => s,
        None => String::new(),
    }
}

/// The month before, as the "previous" button moves.
pub open spec fn month_before(year: i32, month: u32) -> (i32, u32) {
    if month == 1 {
        ((year - 1) as i32, 12u32)
    } else {
        (year, (month - 1) as u32)
    }
}

/// The month after, as the "next" button moves.
pub open spec fn month_after(year: i32, month: u32) -> (i32, u32) {
    if month == 12 {
        ((year + 1) as i32, 1u32)
    } else {
        (year, (month + 1) as u32)
    }
}

/// The month before; the result is a month that chrono has.
pub fn previous_month(year: i32, month: u32) -> (r: (i32, u32))
    requires
        month_exists(year, month),
        month_exists(month_before(year, month).0, month_before(year, month).1),
    ensures
        r == month_before(year, month),
{
    if month == 1 {
        (year - 1, 12)
    } else {
        (year, month - 1)
    }
}

/// The month after; the result is a month that chrono has.
pub fn next_month(year: i32, month: u32) -> (r: (i32, u32))
    requires
        month_exists(year, month),
        month_exists(month_after(year, month).0, month_after(year, month).1),
    ensures
        r == month_after(year, month),
{
    if month == 12 {
        (year + 1, 1)
    } else {
        (year, month + 1)
    }
}

/// Where the employee with `id` stands on each weekday of a schedule: in the office when
/// listed that day, remote when the schedule was made for them, and not scheduled otherwise.
pub open spec fn week_in(s: MonthlyScheduleView, id: i32) -> Seq<AttendanceStatus> {
    Seq::new(
        5,
        |d: int|
            if ids_of(s.days[d]).contains(id) {
                AttendanceStatus::Office
            } else if s.included_employees.contains(id) {
                AttendanceStatus::Remote
            } else {
                AttendanceStatus::NA
            },
    )
}

/// A row with its week replaced.
pub open spec fn with_week(r: EmployeeRowView, week: Seq<AttendanceStatus>) -> EmployeeRowView {
    EmployeeRowView { attendance: week, ..r }
}

/// The row that the table shows for an employee of the store, before any schedule applies.
pub open spec fn ui_row(e: EmployeeView) -> EmployeeRowView {
    EmployeeRowView {
        id: e.id,
        name: e.name,
        role: role_name(e.role),
        sex: sex_name(e.sex),
        days_per_week: e.required_days as u8,
        fixed_days: e.fixed_days,
        mentee: Seq::empty(),
        mentor: None,
        attendance: seq![AttendanceStatus::NA; 5],
        past_attendance: Seq::empty(),
    }
}

/// Whether `x` is in the list.
pub fn contains_id(v: &Vec<i32>, x: i32) -> (r: bool)
    ensures
        r == v@.contains(x),
{
    let mut i: usize = 0;
    while i < v.len()
        invariant
            i <= v.len(),
            forall|j: int| 0 <= j < i ==> v@[j] != x,
        decreases v.len() - i,
    {
        if v[i] == x {
            return true;
        }
        i = i + 1;
    }
    false
}

/// The week of the employee with `id` in a schedule; see [`week_in`].
pub fn week_of(schedule: &MonthlySchedule, id: i32) -> (r: [AttendanceStatus; 5])
    requires
        schedule.wf(),
    ensures
        r@ == week_in(schedule@, id),
{
    let included = contains_id(&schedule.included_employees, id);
    let mut week = [AttendanceStatus::NA; 5];
    let mut d: usize = 0;
    while d < 5
        invariant
            d <= 5,
            schedule.wf(),
            week@.len() == 5,
            included == schedule@.included_employees.contains(id),
            forall|k: int| 0 <= k < d ==> week@[k] == (#[trigger] week_in(schedule@, id))[k],
        decreases 5 - d,
    {
        let on_day = has_id(&schedule.schedules[d], id);
        proof {
            assert(schedule@.days[d as int] == day_view(schedule.schedules@[d as int]@));
        }
        if on_day {
            week.set(d, AttendanceStatus::Office);
        } else if included {
            week.set(d, AttendanceStatus::Remote);
        } else {
            week.set(d, AttendanceStatus::NA);
        }
        d = d + 1;
    }
    assert(week@ =~= week_in(schedule@, id));
    week
}

/// The table row of an employee of the store: display names for role and sex, no mentor
/// links, and no week until a schedule applies.
pub fn core_to_ui_employee(e: CoreEmployee) -> (r: Employee)
    ensures
        r@ == ui_row(e@),
{
    let role = e.role.to_string();
    let sex = e.sex.to_string();
    let r = Employee {
        id: e.id,
        name: e.name,
        role,
        sex,
        days_per_week: e.required_days as u8,
        fixed_days: e.fixed_days,
        mentee: Vec::new(),
        mentor: None,
        attendance: [AttendanceStatus::NA; 5],
        past_attendance: Vec::new(),
    };
    assert(r@.attendance =~= seq![AttendanceStatus::NA; 5]);
    assert(r@.mentee =~= Seq::<Seq<char>>::empty());
    assert(r@.past_attendance =~= Seq::<(Seq<char>, Seq<AttendanceStatus>)>::empty());
    r
}

/// Gives every shown employee their week in `schedule`; nothing else changes.
pub fn apply_schedule_to_ui(ui_employees: &mut Vec<Employee>, schedule: &MonthlySchedule)
    requires
        schedule.wf(),
    ensures
        final(ui_employees)@.len() == old(ui_employees)@.len(),
        forall|i: int|
            0 <= i < old(ui_employees)@.len() ==> (#[trigger] final(ui_employees)@[i])@ == with_week(
                old(ui_employees)@[i]@,
                week_in(schedule@, old(ui_employees)@[i].id),
            ),
{
    let ghost before = ui_employees@;
    let mut i: usize = 0;
    while i < ui_employees.len()
        invariant
            schedule.wf(),
            ui_employees@.len() == before.len(),
            i <= before.len(),
            forall|j: int| 0 <= j < i ==> (#[trigger] ui_employees@[j])@ == with_week(
                before[j]@,
                week_in(schedule@, before[j].id),
            ),
            forall|j: int| i <= j < before.len() ==> (#[trigger] ui_employees@[j])@ == before[j]@,
        decreases before.len() - i,
    {
        let mut emp = ui_employees[i].clone();
        let week = week_of(schedule, emp.id);
        emp.attendance = week;
        ui_employees.set(i, emp);
        i = i + 1;
    }
}

/// The rows that the table shows for employees of the store, with their weeks in the current
/// schedule when there is one.
pub open spec fn shown_rows(core: Seq<EmployeeView>, schedule: Option<MonthlyScheduleView>) -> Seq<EmployeeRowView> {
    core.map_values(
        |e: EmployeeView|
            match schedule {
                Some(s) => with_week(ui_row(e), week_in(s, e.id)),
                None => ui_row(e),
            },
    )
}

/// The table rows for employees loaded from the store; see [`shown_rows`].
pub fn rows_for(core: &Vec<CoreEmployee>, schedule: &Option<MonthlySchedule>) -> (r: Vec<Employee>)
    requires
        schedule matches Some(s) ==> s.wf(),
    ensures
        r@.map_values(|e: Employee| e@) == shown_rows(
            core@.map_values(|e: CoreEmployee| e@),
            match schedule {
                Some(s) => Some(s@),
                None => None,
            },
        ),
{
    let ghost sv = match schedule {
        Some(s) => Some(s@),
        None => None::<MonthlyScheduleView>,
    };
    let ghost cv = core@.map_values(|e: CoreEmployee| e@);
    let mut rows: Vec<Employee> = Vec::new();
    let mut i: usize = 0;
    while i < core.len()
        invariant
            i <= core.len(),
            schedule matches Some(s) ==> s.wf(),
            sv == (match schedule {
                Some(s) => Some(s@),
                None => None::<MonthlyScheduleView>,
            }),
            cv == core@.map_values(|e: CoreEmployee| e@),
            rows@.map_values(|e: Employee| e@) == shown_rows(cv.take(i as int), sv),
        decreases core.len() - i,
    {
        let mut row = core_to_ui_employee(core[i].clone());
        assert(row@ == ui_row(cv[i as int]));
        match schedule {
            Some(s) => {
                let week = week_of(s, row.id);
                row.attendance = week;
                assert(row@ == with_week(ui_row(cv[i as int]), week_in(s@, cv[i as int].id)));
            },
            None => {},
        }
        let ghost rv = row@;
        let ghost prev = rows@.map_values(|e: Employee| e@);
        assert(rv == shown_rows(cv.take(i as int + 1), sv)[i as int]);
        rows.push(row);
        proof {
            assert(rows@.map_values(|e: Employee| e@) =~= prev.push(rv));
            assert(shown_rows(cv.take(i as int + 1), sv) =~= shown_rows(cv.take(i as int), sv).push(rv));
            assert(rows@.map_values(|e: Employee| e@) =~= shown_rows(cv.take(i as int + 1), sv));
        }
        i = i + 1;
    }
    assert(cv.take(core.len() as int) =~= cv);
    rows
}

/// The kinds of rows that the general report counts.
#[derive(Clone, Copy, Debug, PartialEq, Eq, Structural)]
pub enum RowKind {
    Male,
    Female,
    Office,
    Remote,
    MaleOffice,
    FemaleOffice,
}

/// Whether a row is of a kind, for weekday `d` where the kind looks at a day.
pub open spec fn row_is(k: RowKind, r: EmployeeRowView, d: int) -> bool {
    match k {
        RowKind::Male => r.sex == "Male"@,
        RowKind::Female => r.sex == "Female"@,
        RowKind::Office => r.attendance[d] == AttendanceStatus::Office,
        RowKind::Remote => r.attendance[d] == AttendanceStatus::Remote,
        RowKind::MaleOffice => r.attendance[d] == AttendanceStatus::Office && r.sex == "Male"@,
        RowKind::FemaleOffice => r.attendance[d] == AttendanceStatus::Office && r.sex == "Female"@,
    }
}

/// How many rows are of a kind.
pub open spec fn count_kind(rows: Seq<EmployeeRowView>, k: RowKind, d: int) -> nat
    decreases rows.len(),
{
    if rows.len() == 0 {
        0
    } else {
        count_kind(rows.drop_last(), k, d) + if row_is(k, rows.last(), d) { 1nat } else { 0nat }
    }
}

/// The position of `role` in a tally, if it is there.
pub open spec fn find_role(t: Seq<(Seq<char>, nat)>, role: Seq<char>) -> Option<int>
    decreases t.len(),
{
    if t.len() == 0 {
        None
    } else {
        match find_role(t.drop_last(), role) {
            Some(i) => Some(i),
            None => if t.last().0 == role {
                Some(t.len() - 1)
            } else {
                None
            },
        }
    }
}

/// A tally with one more of `role`: its count goes up, or it is added with one.
pub open spec fn bump(t: Seq<(Seq<char>, nat)>, role: Seq<char>) -> Seq<(Seq<char>, nat)> {
    match find_role(t, role) {
        Some(i) => t.update(i, (role, t[i].1 + 1)),
        None => t.push((role, 1nat)),
    }
}

/// The roles in the office on weekday `d` and how many of each, in order of first appearance.
pub open spec fn role_tally(rows: Seq<EmployeeRowView>, d: int) -> Seq<(Seq<char>, nat)>
    decreases rows.len(),
{
    if rows.len() == 0 {
        Seq::empty()
    } else {
        let t = role_tally(rows.drop_last(), d);
        if rows.last().attendance[d] == AttendanceStatus::Office {
            bump(t, rows.last().role)
        } else {
            t
        }
    }
}

/// The sum of the counts of a tally of roles.
pub open spec fn tally_total(t: Seq<(Seq<char>, nat)>) -> nat
    decreases t.len(),
{
    if t.len() == 0 {
        0
    } else {
        tally_total(t.drop_last()) + t.last().1
    }
}

proof fn lemma_find_role_in(t: Seq<(Seq<char>, nat)>, role: Seq<char>)
    ensures
        find_role(t, role) matches Some(i) ==> 0 <= i < t.len(),
    decreases t.len(),
{
    if t.len() > 0 {
        lemma_find_role_in(t.drop_last(), role);
    }
}

proof fn lemma_total_bump_at(t: Seq<(Seq<char>, nat)>, i: int, role: Seq<char>)
    requires
        0 <= i < t.len(),
    ensures
        tally_total(t.update(i, (role, t[i].1 + 1))) == tally_total(t) + 1,
    decreases t.len(),
{
    let u = t.update(i, (role, t[i].1 + 1));
    if i == t.len() - 1 {
        assert(u.drop_last() =~= t.drop_last());
    } else {
        lemma_total_bump_at(t.drop_last(), i, role);
        assert(u.drop_last() =~= t.drop_last().update(i, (role, t[i].1 + 1)));
    }
}

/// The role tally of a day counts every employee in the office that day once: its counts sum
/// to the day's office count.
pub proof fn law_role_tally_total(rows: Seq<EmployeeRowView>, d: int)
    ensures
        tally_total(role_tally(rows, d)) == count_kind(rows, RowKind::Office, d),
    decreases rows.len(),
{
    if rows.len() > 0 {
        law_role_tally_total(rows.drop_last(), d);
        let t = role_tally(rows.drop_last(), d);
        let role = rows.last().role;
        if rows.last().attendance[d] == AttendanceStatus::Office {
            lemma_find_role_in(t, role);
            match find_role(t, role) {
                Some(i) => {
                    lemma_total_bump_at(t, i, role);
                },
                None => {
                    assert(t.push((role, 1nat)).drop_last() =~= t);
                },
            }
        }
    }
}

/// `i` is the first of the first `n` positions whose count is the highest among them.
pub open spec fn is_first_max(c: Seq<nat>, n: int, i: int) -> bool {
    &&& 0 <= i < n
    &&& forall|j: int| 0 <= j < n ==> #[trigger] c[j] <= c[i]
    &&& forall|j: int| 0 <= j < i ==> #[trigger] c[j] < c[i]
}

/// `i` is the first of the first `n` positions whose count is the lowest among them.
pub open spec fn is_first_min(c: Seq<nat>, n: int, i: int) -> bool {
    &&& 0 <= i < n
    &&& forall|j: int| 0 <= j < n ==> #[trigger] c[j] >= c[i]
    &&& forall|j: int| 0 <= j < i ==> #[trigger] c[j] > c[i]
}

/// The first weekday with the highest count among the first `n`.
pub open spec fn busiest(c: Seq<nat>, n: int) -> int {
    choose|i: int| is_first_max(c, n, i)
}

/// The first weekday with the lowest count among the first `n`.
pub open spec fn quietest(c: Seq<nat>, n: int) -> int {
    choose|i: int| is_first_min(c, n, i)
}

proof fn lemma_first_max_unique(c: Seq<nat>, n: int, a: int)
    requires
        is_first_max(c, n, a),
    ensures
        busiest(c, n) == a,
{
    let b = busiest(c, n);
    assert(is_first_max(c, n, b));
    if b < a {
        assert(c[b] < c[a]);
        assert(c[a] <= c[b]);
    } else if a < b {
        assert(c[a] < c[b]);
        assert(c[b] <= c[a]);
    }
}

proof fn lemma_first_min_unique(c: Seq<nat>, n: int, a: int)
    requires
        is_first_min(c, n, a),
    ensures
        quietest(c, n) == a,
{
    let b = quietest(c, n);
    assert(is_first_min(c, n, b));
    if b < a {
        assert(c[b] > c[a]);
        assert(c[a] >= c[b]);
    } else if a < b {
        assert(c[a] > c[b]);
        assert(c[b] >= c[a]);
    }
}

/// The full name of weekday `d` (Monday is 0).
pub open spec fn day_name(d: int) -> Seq<char> {
    if d == 0 {
        "Monday"@
    } else if d == 1 {
        "Tuesday"@
    } else if d == 2 {
        "Wednesday"@
    } else if d == 3 {
        "Thursday"@
    } else {
        "Friday"@
    }
}

/// The office count of each weekday.
pub open spec fn office_counts(rows: Seq<EmployeeRowView>) -> Seq<nat> {
    Seq::new(5, |d: int| count_kind(rows, RowKind::Office, d))
}

/// The values of a tally of roles.
pub open spec fn tally_view(v: Seq<(String, usize)>) -> Seq<(Seq<char>, nat)> {
    v.map_values(|x: (String, usize)| (x.0@, x.1 as nat))
}

/// The values of the shown employees.
pub open spec fn shown(v: Seq<Employee>) -> Seq<EmployeeRowView> {
    v.map_values(|e: Employee| e@)
}

proof fn lemma_shown_take(v: Seq<Employee>, i: int)
    requires
        0 <= i < v.len(),
    ensures
        shown(v.take(i + 1)) == shown(v.take(i)).push(v[i]@),
        shown(v.take(i + 1)).drop_last() == shown(v.take(i)),
        shown(v.take(i + 1)).last() == v[i]@,
{
    assert(shown(v.take(i + 1)) =~= shown(v.take(i)).push(v[i]@));
}

/// Whether the shown employee is of a kind.
fn is_kind(e: &Employee, k: RowKind, d: usize) -> (r: bool)
    requires
        d < 5,
    ensures
        r == row_is(k, e@, d as int),
{
    proof {
        reveal_strlit("Male");
        reveal_strlit("Female");
    }
    match k {
        RowKind::Male => crate::text::eq_str(e.sex.as_str(), "Male"),
        RowKind::Female => crate::text::eq_str(e.sex.as_str(), "Female"),
        RowKind::Office => e.attendance[d] == AttendanceStatus::Office,
        RowKind::Remote => e.attendance[d] == AttendanceStatus::Remote,
        RowKind::MaleOffice => e.attendance[d] == AttendanceStatus::Office && crate::text::eq_str(
            e.sex.as_str(),
            "Male",
        ),
        RowKind::FemaleOffice => e.attendance[d] == AttendanceStatus::Office
            && crate::text::eq_str(e.sex.as_str(), "Female"),
    }
}

/// How many shown employees are of a kind.
pub fn count_of_kind(employees: &Vec<Employee>, k: RowKind, d: usize) -> (r: usize)
    requires
        d < 5,
    ensures
        r == count_kind(shown(employees@), k, d as int),
        r <= employees@.len(),
{
    let mut c: usize = 0;
    let mut i: usize = 0;
    while i < employees.len()
        invariant
            d < 5,
            i <= employees.len(),
            c <= i,
            c == count_kind(shown(employees@.take(i as int)), k, d as int),
        decreases employees.len() - i,
    {
        proof {
            lemma_shown_take(employees@, i as int);
        }
        if is_kind(&employees[i], k, d) {
            c = c + 1;
        }
        i = i + 1;
    }
    assert(employees@.take(employees.len() as int) =~= employees@);
    c
}

/// Where `role` is in a tally, if it is there.
fn find_role_exec(t: &Vec<(String, usize)>, role: &str) -> (r: Option<usize>)
    ensures
        match r {
            Some(i) => find_role(tally_view(t@), role@) == Some(i as int),
            None => find_role(tally_view(t@), role@) is None,
        },
{
    let mut i: usize = 0;
    while i < t.len()
        invariant
            i <= t.len(),
            find_role(tally_view(t@.take(i as int)), role@) is None,
        decreases t.len() - i,
    {
        proof {
            assert(tally_view(t@.take(i as int + 1)).drop_last() =~= tally_view(t@.take(i as int)));
        }
        if crate::text::eq_str(t[i].0.as_str(), role) {
            proof {
                assert(tally_view(t@.take(i as int + 1)) =~= tally_view(t@).take(i as int + 1));
                assert(find_role(tally_view(t@.take(i as int + 1)), role@) == Some(i as int));
                lemma_find_prefix_general(tally_view(t@), i as int + 1, role@);
            }
            return Some(i);
        }
        i = i + 1;
    }
    assert(t@.take(t.len() as int) =~= t@);
    None
}

/// A found role sits at the place found.
proof fn lemma_find_role_found(t: Seq<(Seq<char>, nat)>, role: Seq<char>)
    ensures
        find_role(t, role) matches Some(i) ==> 0 <= i < t.len() && t[i].0 == role,
    decreases t.len(),
{
    if t.len() > 0 {
        lemma_find_role_found(t.drop_last(), role);
    }
}

proof fn lemma_find_prefix_general(t: Seq<(Seq<char>, nat)>, k: int, role: Seq<char>)
    requires
        0 <= k <= t.len(),
        find_role(t.take(k), role) is Some,
    ensures
        find_role(t, role) == find_role(t.take(k), role),
    decreases t.len() - k,
{
    if k < t.len() {
        assert(t.take(k + 1).drop_last() =~= t.take(k));
        lemma_find_prefix_general(t, k + 1, role);
    } else {
        assert(t.take(k) =~= t);
    }
}

/// The roles in the office on weekday `d`; see [`role_tally`].
pub fn tally_roles(employees: &Vec<Employee>, d: usize) -> (r: Vec<(String, usize)>)
    requires
        d < 5,
    ensures
        tally_view(r@) == role_tally(shown(employees@), d as int),
{
    let mut t: Vec<(String, usize)> = Vec::new();
    let mut i: usize = 0;
    while i < employees.len()
        invariant
            d < 5,
            i <= employees.len(),
            tally_view(t@) == role_tally(shown(employees@.take(i as int)), d as int),
            forall|j: int| 0 <= j < t@.len() ==> (#[trigger] t@[j]).1 <= i,
        decreases employees.len() - i,
    {
        proof {
            lemma_shown_take(employees@, i as int);
        }
        if employees[i].attendance[d] == AttendanceStatus::Office {
            let role = employees[i].role.as_str();
            match find_role_exec(&t, role) {
                Some(k) => {
                    proof {
                        lemma_find_role_found(tally_view(t@), role@);
                    }
                    let ghost before = t@;
                    let count = t[k].1 + 1;
                    let name = t[k].0.clone();
                    t.set(k, (name, count));
                    proof {
                        assert(tally_view(t@) =~= tally_view(before).update(k as int, (role@, (before[k as int].1 + 1) as nat)));
                    }
                },
                None => {
                    let ghost before = t@;
                    t.push((employees[i].role.clone(), 1));
                    proof {
                        assert(tally_view(t@) =~= tally_view(before).push((role@, 1nat)));
                    }
                },
            }
        }
        i = i + 1;
    }
    assert(employees@.take(employees.len() as int) =~= employees@);
    t
}

/// The general report of the shown employees for the month labelled `date`.
pub open spec fn report_matches(r: ReportCounts, rows: Seq<EmployeeRowView>, date: Seq<char>) -> bool {
    &&& r.date@ == date
    &&& r.total_employees == rows.len()
    &&& r.total_males == count_kind(rows, RowKind::Male, 0)
    &&& r.total_females == count_kind(rows, RowKind::Female, 0)
    &&& r.roles_per_day@.len() == 5
    &&& forall|d: int| 0 <= d < 5 ==> {
        &&& r.males_per_day@[d] == count_kind(rows, RowKind::MaleOffice, d)
        &&& r.females_per_day@[d] == count_kind(rows, RowKind::FemaleOffice, d)
        &&& r.daily_attendance@[d] == count_kind(rows, RowKind::Office, d)
        &&& r.daily_remote@[d] == count_kind(rows, RowKind::Remote, d)
        &&& tally_view(#[trigger] r.roles_per_day@[d]@) == role_tally(rows, d)
    }
    &&& r.day_most_attendance@ == day_name(busiest(office_counts(rows), 5))
    &&& r.day_least_attendance@ == day_name(quietest(office_counts(rows), 5))
}

/// The full name of weekday `d` (Monday is 0).
pub fn weekday_label(d: usize) -> (r: String)
    requires
        d < 5,
    ensures
        r@ == day_name(d as int),
{
    day_name_text(d)
}

fn day_name_text(d: usize) -> (r: String)
    requires
        d < 5,
    ensures
        r@ == day_name(d as int),
{
    if d == 0 {
        String::from_str("Monday")
    } else if d == 1 {
        String::from_str("Tuesday")
    } else if d == 2 {
        String::from_str("Wednesday")
    } else if d == 3 {
        String::from_str("Thursday")
    } else {
        String::from_str("Friday")
    }
}

/// The counts of the general report of the shown employees; the percentages that the report
/// also shows are computed from them where it is drawn.
pub fn calculate_report(employees: &Vec<Employee>, date: String) -> (r: ReportCounts)
    ensures
        report_matches(r, shown(employees@), date@),
{
    let ghost rows = shown(employees@);
    let total_males = count_of_kind(employees, RowKind::Male, 0);
    let total_females = count_of_kind(employees, RowKind::Female, 0);
    let mut males_per_day = [0usize; 5];
    let mut females_per_day = [0usize; 5];
    let mut daily_attendance = [0usize; 5];
    let mut daily_remote = [0usize; 5];
    let mut roles_per_day: Vec<Vec<(String, usize)>> = Vec::new();
    let mut d: usize = 0;
    while d < 5
        invariant
            d <= 5,
            rows == shown(employees@),
            males_per_day@.len() == 5,
            females_per_day@.len() == 5,
            daily_attendance@.len() == 5,
            daily_remote@.len() == 5,
            roles_per_day@.len() == d,
            forall|k: int| 0 <= k < d ==> #[trigger] males_per_day@[k] == count_kind(rows, RowKind::MaleOffice, k),
            forall|k: int| 0 <= k < d ==> #[trigger] females_per_day@[k] == count_kind(rows, RowKind::FemaleOffice, k),
            forall|k: int| 0 <= k < d ==> #[trigger] daily_attendance@[k] == count_kind(rows, RowKind::Office, k),
            forall|k: int| 0 <= k < d ==> #[trigger] daily_remote@[k] == count_kind(rows, RowKind::Remote, k),
            forall|k: int| 0 <= k < d ==> tally_view(#[trigger] roles_per_day@[k]@) == role_tally(rows, k),
        decreases 5 - d,
    {
        males_per_day.set(d, count_of_kind(employees, RowKind::MaleOffice, d));
        females_per_day.set(d, count_of_kind(employees, RowKind::FemaleOffice, d));
        daily_attendance.set(d, count_of_kind(employees, RowKind::Office, d));
        daily_remote.set(d, count_of_kind(employees, RowKind::Remote, d));
        roles_per_day.push(tally_roles(employees, d));
        d = d + 1;
    }
    let ghost counts = office_counts(rows);
    assert forall|k: int| 0 <= k < 5 implies daily_attendance@[k] == #[trigger] counts[k] by {
        assert(daily_attendance@[k] == count_kind(rows, RowKind::Office, k));
    }
    let mut max_idx: usize = 0;
    let mut min_idx: usize = 0;
    let mut i: usize = 1;
    while i < 5
        invariant
            1 <= i <= 5,
            daily_attendance@.len() == 5,
            forall|k: int| 0 <= k < 5 ==> daily_attendance@[k] == #[trigger] counts[k],
            is_first_max(counts, i as int, max_idx as int),
            is_first_min(counts, i as int, min_idx as int),
            max_idx < i,
            min_idx < i,
        decreases 5 - i,
    {
        if daily_attendance[i] > daily_attendance[max_idx] {
            max_idx = i;
        }
        if daily_attendance[i] < daily_attendance[min_idx] {
            min_idx = i;
        }
        i = i + 1;
    }
    proof {
        lemma_first_max_unique(counts, 5, max_idx as int);
        lemma_first_min_unique(counts, 5, min_idx as int);
    }
    ReportCounts {
        date,
        total_employees: employees.len(),
        total_males,
        total_females,
        males_per_day,
        females_per_day,
        roles_per_day,
        daily_attendance,
        daily_remote,
        day_most_attendance: day_name_text(max_idx),
        day_least_attendance: day_name_text(min_idx),
    }
}

/// The employee with `id` takes part in a schedule: it was made for them, or lists them on
/// some day.
pub open spec fn appears_in(s: MonthlyScheduleView, id: i32) -> bool {
    s.included_employees.contains(id) || exists|d: int| 0 <= d < 5 && #[trigger] ids_of(s.days[d]).contains(id)
}

/// The weeks of earlier months that the employee with `id` took part in, each with its month's
/// label, in the order of the schedules.
pub open spec fn past_weeks(ss: Seq<MonthlyScheduleView>, id: i32) -> Seq<(Seq<char>, Seq<AttendanceStatus>)>
    decreases ss.len(),
{
    if ss.len() == 0 {
        Seq::empty()
    } else {
        let p = past_weeks(ss.drop_last(), id);
        if appears_in(ss.last(), id) {
            p.push((label_or_default(ss.last().year, ss.last().month), week_in(ss.last(), id)))
        } else {
            p
        }
    }
}

/// The schedules, as values.
pub open spec fn schedules_view(v: Seq<MonthlySchedule>) -> Seq<MonthlyScheduleView> {
    v.map_values(|s: MonthlySchedule| s@)
}

/// Whether the employee with `id` takes part in the schedule; see [`appears_in`].
pub fn takes_part(schedule: &MonthlySchedule, id: i32) -> (r: bool)
    requires
        schedule.wf(),
    ensures
        r == appears_in(schedule@, id),
{
    if contains_id(&schedule.included_employees, id) {
        return true;
    }
    let mut d: usize = 0;
    while d < 5
        invariant
            d <= 5,
            schedule.wf(),
            forall|k: int| 0 <= k < d ==> !(#[trigger] ids_of(schedule@.days[k])).contains(id),
        decreases 5 - d,
    {
        proof {
            assert(schedule@.days[d as int] == day_view(schedule.schedules@[d as int]@));
        }
        if has_id(&schedule.schedules[d], id) {
            return true;
        }
        d = d + 1;
    }
    false
}

/// What the report of one employee shows, given the most recent schedules of the store
/// (newest first) when they could be read: the employee with the week of the newest
/// schedule and the weeks of the earlier ones, and the label of the newest month. When
/// there is no schedule, every day is not scheduled and the label is `current`; when the
/// schedules could not be read, the employee is shown as the table has it.
pub open spec fn report_of(
    e: EmployeeRowView,
    recent: Option<Seq<MonthlyScheduleView>>,
    current: Seq<char>,
) -> (EmployeeRowView, Seq<char>) {
    match recent {
        None => (e, current),
        Some(ss) => if ss.len() == 0 {
            (EmployeeRowView { attendance: seq![AttendanceStatus::NA; 5], past_attendance: Seq::empty(), ..e }, current)
        } else {
            (
                EmployeeRowView {
                    attendance: week_in(ss[0], e.id),
                    past_attendance: past_weeks(ss.skip(1), e.id),
                    ..e
                },
                label_or_default(ss[0].year, ss[0].month),
            )
        },
    }
}

/// The report of one employee; see [`report_of`].
pub fn employee_report(employee: &Employee, recent: Option<&Vec<MonthlySchedule>>, current: String) -> (r: (
    Employee,
    String,
))
    requires
        recent matches Some(v) ==> forall|k: int| 0 <= k < v@.len() ==> (#[trigger] v@[k]).wf(),
    ensures
        (r.0@, r.1@) == report_of(
            employee@,
            match recent {
                Some(v) => Some(schedules_view(v@)),
                None => None,
            },
            current@,
        ),
{
    let mut e = employee.clone();
    match recent {
        None => (e, current),
        Some(schedules) => {
            if schedules.len() == 0 {
                e.attendance = [AttendanceStatus::NA; 5];
                e.past_attendance = Vec::new();
                proof {
                    assert(e@.attendance =~= seq![AttendanceStatus::NA; 5]);
                    assert(e@.past_attendance =~= Seq::<(Seq<char>, Seq<AttendanceStatus>)>::empty());
                }
                (e, current)
            } else {
                let ghost ss = schedules_view(schedules@);
                let latest = &schedules[0];
                let label = report_month_label(latest.year, latest.month);
                e.attendance = week_of(latest, e.id);
                let mut past: Vec<(String, [AttendanceStatus; 5])> = Vec::new();
                let mut i: usize = 1;
                while i < schedules.len()
                    invariant
                        1 <= i <= schedules.len(),
                        ss == schedules_view(schedules@),
                        forall|k: int| 0 <= k < schedules@.len() ==> (#[trigger] schedules@[k]).wf(),
                        past_view(past@) == past_weeks(ss.skip(1).take(i - 1), e.id),
                    decreases schedules.len() - i,
                {
                    let s = &schedules[i];
                    proof {
                        assert(ss.skip(1).take(i as int).drop_last() =~= ss.skip(1).take(i - 1));
                        assert(ss.skip(1).take(i as int).last() == s@);
                    }
                    if takes_part(s, e.id) {
                        let l = report_month_label(s.year, s.month);
                        let w = week_of(s, e.id);
                        let ghost before = past@;
                        past.push((l, w));
                        proof {
                            assert(past_view(past@) =~= past_view(before).push((l@, w@)));
                        }
                    }
                    i = i + 1;
                }
                proof {
                    assert(ss.skip(1).take(schedules.len() - 1) =~= ss.skip(1));
                }
                e.past_attendance = past;
                (e, label)
            }
        },
    }
}

} // verus!
