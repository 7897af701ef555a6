use vstd::prelude::*;
use crate::employee::EmployeeView;
use crate::schedule::{MonthlySchedule, ids_of, day_view, scheduled_ids, has_id};
use crate::text::{concat_str, int_decimal, nat_decimal, i64_to_string, u64_to_string};
use crate::roster::day_name;

verus! {

/// The English name of month `m` (1 is January), as `chrono::Month::name` gives it.
pub open spec fn month_name(m: int) -> Seq<char> {
    if m == 1 {
        "January"@
    } else if m == 2 {
        "February"@
    } else if m == 3 {
        "March"@
    } else if m == 4 {
        "April"@
    } else if m == 5 {
        "May"@
    } else if m == 6 {
        "June"@
    } else if m == 7 {
        "July"@
    } else if m == 8 {
        "August"@
    } else if m == 9 {
        "September"@
    } else if m == 10 {
        "October"@
    } else if m == 11 {
        "November"@
    } else {
        "December"@
    }
}

/// `chrono::Month::try_from(m)` followed by `Month::name`: the name of months 1 to 12, and
/// nothing for other numbers.
#[verifier::external_body]
fn chrono_month_name(m: u8) -> (r: Option<String>)
    ensures
        1 <= m <= 12 ==> r is Some && r->0@ == month_name(m as int),
        !(1 <= m <= 12) ==> r is None,
{
    match chrono::Month::try_from(m) {
        Ok(mo) => Some(mo.name().to_string()),
        Err(_) => None,
    }
}

/// The month part of the file name: the month's name, where the low byte of `month` is a
/// month number (the number is cut to a byte first), and "Month_" followed by the number
/// otherwise.
pub open spec fn file_month(month: u32) -> Seq<char> {
    let low = month % 256;
    if 1 <= low <= 12 {
        month_name(low as int)
    } else {
        "Month_"@ + nat_decimal(month as nat)
    }
}

/// The name of the spreadsheet file of a month's schedule.
pub open spec fn sheet_file_name(year: i32, month: u32) -> Seq<char> {
    "office_schedule_"@ + file_month(month) + "_"@ + int_decimal(year as int) + ".xlsx"@
}

/// `a` comes before `b` in the order of `String`'s `Ord`: character by character, a proper
/// prefix first.
pub open spec fn lex_lt(a: Seq<char>, b: Seq<char>) -> bool
    decreases a.len(),
{
    if a.len() == 0 {
        b.len() > 0
    } else if b.len() == 0 {
        false
    } else if a[0] != b[0] {
        (a[0] as int) < (b[0] as int)
    } else {
        lex_lt(a.skip(1), b.skip(1))
    }
}

proof fn lemma_lex_irreflexive(a: Seq<char>)
    ensures
        !lex_lt(a, a),
    decreases a.len(),
{
    if a.len() > 0 {
        lemma_lex_irreflexive(a.skip(1));
    }
}

proof fn lemma_lex_total(a: Seq<char>, b: Seq<char>)
    ensures
        a == b || lex_lt(a, b) || lex_lt(b, a),
    decreases a.len(),
{
    if a.len() > 0 && b.len() > 0 && a[0] == b[0] {
        lemma_lex_total(a.skip(1), b.skip(1));
        if a.skip(1) == b.skip(1) {
            assert(a =~= seq![a[0]] + a.skip(1));
            assert(b =~= seq![b[0]] + b.skip(1));
        }
    } else if a.len() == 0 && b.len() == 0 {
        assert(a =~= b);
    } else if a.len() > 0 && b.len() > 0 {
        assert((a[0] as int) != (b[0] as int));
    }
}

proof fn lemma_lex_trans(a: Seq<char>, b: Seq<char>, c: Seq<char>)
    requires
        lex_lt(a, b),
        lex_lt(b, c),
    ensures
        lex_lt(a, c),
    decreases a.len(),
{
    if a.len() > 0 && b.len() > 0 && c.len() > 0 && a[0] == b[0] && b[0] == c[0] {
        lemma_lex_trans(a.skip(1), b.skip(1), c.skip(1));
    }
}

proof fn lemma_lex_asym(a: Seq<char>, b: Seq<char>)
    requires
        lex_lt(a, b),
    ensures
        !lex_lt(b, a),
{
    if lex_lt(b, a) {
        lemma_lex_trans(a, b, a);
        lemma_lex_irreflexive(a);
    }
}

/// Whether `a` comes before `b`; see [`lex_lt`].
pub fn str_less(a: &str, b: &str) -> (r: bool)
    ensures
        r == lex_lt(a@, b@),
{
    let n = a.unicode_len();
    let m = b.unicode_len();
    let mut i: usize = 0;
    assert(a@.skip(0) =~= a@);
    assert(b@.skip(0) =~= b@);
    while i < n && i < m
        invariant
            n == a@.len(),
            m == b@.len(),
            i <= n,
            i <= m,
            lex_lt(a@, b@) == lex_lt(a@.skip(i as int), b@.skip(i as int)),
        decreases n - i,
    {
        let x = a.get_char(i);
        let y = b.get_char(i);
        proof {
            let sa = a@.skip(i as int);
            let sb = b@.skip(i as int);
            assert(sa[0] == x);
            assert(sb[0] == y);
            assert(sa.skip(1) =~= a@.skip(i as int + 1));
            assert(sb.skip(1) =~= b@.skip(i as int + 1));
        }
        if x != y {
            return (x as u32) < (y as u32);
        }
        i = i + 1;
    }
    i == n && i < m
}

/// One employee row of the sheet: the name, and whether the employee is in the office on
/// each weekday (marked "X").
pub struct SheetRow {
    pub id: i32,
    pub name: String,
    pub marks: [bool; 5],
}

/// What the spreadsheet of a month's schedule holds: its file name, a header row (a "Name"
/// column and the weekdays), a row with the number of employees listed each weekday, and one
/// row per employee listed on some day, in order of name.
pub struct ScheduleSheet {
    pub filename: String,
    pub header: Vec<String>,
    pub counts: Vec<String>,
    pub rows: Vec<SheetRow>,
}

/// The row of the employee with `id` for a schedule, named `name`.
pub open spec fn row_marks(days: Seq<Seq<EmployeeView>>, id: i32) -> Seq<bool> {
    Seq::new(5, |d: int| ids_of(days[d]).contains(id))
}

/// Some listing of the employee with `id` on the schedule carries `name`.
pub open spec fn listed_as(days: Seq<Seq<EmployeeView>>, id: i32, name: Seq<char>) -> bool {
    exists|d: int, k: int|
        0 <= d < 5 && 0 <= k < days[d].len() && #[trigger] days[d][k].id == id && days[d][k].name == name
}

/// The employee rows of a sheet are right for a schedule: one per employee listed on some day,
/// each under a name that a listing of the employee carries, with the days marked on which the
/// employee is listed, in order of name.
pub open spec fn rows_ok(days: Seq<Seq<EmployeeView>>, rows: Seq<SheetRow>) -> bool {
    &&& forall|i: int, j: int| 0 <= i < j < rows.len() ==> rows[i].id != rows[j].id
    &&& forall|id: i32| scheduled_ids(days).contains(id) <==> exists|i: int| 0 <= i < rows.len() && #[trigger] rows[i].id == id
    &&& forall|i: int| 0 <= i < rows.len() ==> listed_as(days, #[trigger] rows[i].id, rows[i].name@)
    &&& forall|i: int| 0 <= i < rows.len() ==> (#[trigger] rows[i]).marks@ == row_marks(days, rows[i].id)
    &&& forall|i: int, j: int| 0 <= i < j < rows.len() ==> !lex_lt(#[trigger] rows[j].name@, #[trigger] rows[i].name@)
}

/// The texts of a list of strings.
pub open spec fn texts_of(v: Seq<String>) -> Seq<Seq<char>> {
    v.map_values(|s: String| s@)
}

/// The header row of the sheet.
pub open spec fn sheet_header() -> Seq<Seq<char>> {
    seq!["Name"@, day_name(0), day_name(1), day_name(2), day_name(3), day_name(4)]
}

/// The number of employees listed on each weekday, as text.
pub open spec fn sheet_counts(days: Seq<Seq<EmployeeView>>) -> Seq<Seq<char>> {
    Seq::new(5, |d: int| nat_decimal(days[d].len()))
}

/// The file name of a month's sheet; see [`sheet_file_name`].
pub fn sheet_name_for(year: i32, month: u32) -> (r: String)
    ensures
        r@ == sheet_file_name(year, month),
{
    let low = (month % 256) as u8;
    let name = match chrono_month_name(low) {
        Some(n) => n,
        None => concat_str("Month_", u64_to_string(month as u64).as_str()),
    };
    let a = concat_str("office_schedule_", name.as_str());
    let b = concat_str(a.as_str(), "_");
    let c = concat_str(b.as_str(), i64_to_string(year as i64).as_str());
    concat_str(c.as_str(), ".xlsx")
}

/// The employee with `id` is listed on a day before `d`, or on day `d` before position `k`.
pub open spec fn seen_before(days: Seq<Seq<EmployeeView>>, d: int, k: int, id: i32) -> bool {
    exists|dd: int, kk: int|
        0 <= dd < 5 && 0 <= kk < days[dd].len() && (dd < d || (dd == d && kk < k)) && #[trigger] days[dd][kk].id == id
}

/// The part of [`rows_ok`] that holds while the rows are being collected.
pub open spec fn rows_so_far(days: Seq<Seq<EmployeeView>>, rows: Seq<SheetRow>, d: int, k: int) -> bool {
    &&& forall|i: int, j: int| 0 <= i < j < rows.len() ==> rows[i].id != rows[j].id
    &&& forall|id: i32| seen_before(days, d, k, id) <==> exists|i: int| 0 <= i < rows.len() && #[trigger] rows[i].id == id
    &&& forall|i: int| 0 <= i < rows.len() ==> listed_as(days, #[trigger] rows[i].id, rows[i].name@)
    &&& forall|i: int| 0 <= i < rows.len() ==> (#[trigger] rows[i]).marks@ == row_marks(days, rows[i].id)
    &&& forall|i: int, j: int| 0 <= i < j < rows.len() ==> !lex_lt(#[trigger] rows[j].name@, #[trigger] rows[i].name@)
}

fn has_row(rows: &Vec<SheetRow>, id: i32) -> (r: bool)
    ensures
        r == exists|i: int| 0 <= i < rows@.len() && #[trigger] rows@[i].id == id,
{
    let mut i: usize = 0;
    while i < rows.len()
        invariant
            i <= rows.len(),
            forall|j: int| 0 <= j < i ==> rows@[j].id != id,
        decreases rows.len() - i,
    {
        if rows[i].id == id {
            return true;
        }
        i = i + 1;
    }
    false
}

/// The weekdays on which the employee with `id` is listed; see [`row_marks`].
pub fn marks_for(schedule: &MonthlySchedule, id: i32) -> (r: [bool; 5])
    requires
        schedule.wf(),
    ensures
        r@ == row_marks(schedule@.days, id),
{
    marks_of(schedule, id)
}

fn marks_of(schedule: &MonthlySchedule, id: i32) -> (r: [bool; 5])
    requires
        schedule.wf(),
    ensures
        r@ == row_marks(schedule@.days, id),
{
    let mut marks = [false; 5];
    let mut d: usize = 0;
    while d < 5
        invariant
            d <= 5,
            schedule.wf(),
            marks@.len() == 5,
            forall|k: int| 0 <= k < d ==> marks@[k] == (#[trigger] row_marks(schedule@.days, id))[k],
        decreases 5 - d,
    {
        proof {
            assert(schedule@.days[d as int] == day_view(schedule.schedules@[d as int]@));
        }
        let on = has_id(&schedule.schedules[d], id);
        marks.set(d, on);
        d = d + 1;
    }
    assert(marks@ =~= row_marks(schedule@.days, id));
    marks
}

/// The first place whose name comes after `name` (the length when there is none).
fn insert_position(rows: &Vec<SheetRow>, name: &str) -> (p: usize)
    ensures
        p <= rows@.len(),
        forall|i: int| 0 <= i < p ==> !lex_lt(name@, #[trigger] rows@[i].name@),
        p < rows@.len() ==> lex_lt(name@, rows@[p as int].name@),
{
    let mut p: usize = 0;
    while p < rows.len()
        invariant
            p <= rows.len(),
            forall|i: int| 0 <= i < p ==> !lex_lt(name@, #[trigger] rows@[i].name@),
        decreases rows.len() - p,
    {
        if str_less(name, rows[p].name.as_str()) {
            return p;
        }
        p = p + 1;
    }
    p
}

/// Inserting a row at the place that [`insert_position`] finds keeps the rows in order of name.
proof fn lemma_insert_sorted(rows: Seq<SheetRow>, x: SheetRow, p: int)
    requires
        0 <= p <= rows.len(),
        forall|i: int, j: int| 0 <= i < j < rows.len() ==> !lex_lt(#[trigger] rows[j].name@, #[trigger] rows[i].name@),
        forall|i: int| 0 <= i < p ==> !lex_lt(x.name@, #[trigger] rows[i].name@),
        p < rows.len() ==> lex_lt(x.name@, rows[p].name@),
    ensures
        forall|i: int, j: int|
            0 <= i < j < rows.insert(p, x).len() ==> !lex_lt(#[trigger] rows.insert(p, x)[j].name@, #[trigger] rows.insert(p, x)[i].name@),
{
    let n = rows.insert(p, x);
    assert forall|i: int, j: int| 0 <= i < j < n.len() implies !lex_lt(#[trigger] n[j].name@, #[trigger] n[i].name@) by {
        if i < p && j < p {
        } else if i < p && j == p {
        } else if i < p && j > p {
            assert(n[j] == rows[j - 1]);
            if j - 1 > i {
                assert(!lex_lt(rows[j - 1].name@, rows[i].name@));
            }
        } else if i == p {
            assert(n[j] == rows[j - 1]);
            assert(p < rows.len());
            if j - 1 > p {
                assert(!lex_lt(rows[j - 1].name@, rows[p].name@));
                lemma_lex_total(rows[j - 1].name@, rows[p].name@);
                if rows[j - 1].name@ != rows[p].name@ {
                    lemma_lex_trans(x.name@, rows[p].name@, rows[j - 1].name@);
                }
            }
            lemma_lex_asym(x.name@, rows[j - 1].name@);
        } else {
            assert(n[i] == rows[i - 1]);
            assert(n[j] == rows[j - 1]);
        }
    }
}

/// The sheet of a month's schedule; see [`ScheduleSheet`]. Employees with the same name may
/// come in any order.
pub fn schedule_sheet(schedule: &MonthlySchedule) -> (r: ScheduleSheet)
    requires
        schedule.wf(),
    ensures
        r.filename@ == sheet_file_name(schedule.year, schedule.month),
        texts_of(r.header@) == sheet_header(),
        texts_of(r.counts@) == sheet_counts(schedule@.days),
        rows_ok(schedule@.days, r.rows@),
{
    let ghost days = schedule@.days;
    let filename = sheet_name_for(schedule.year, schedule.month);
    let mut header: Vec<String> = Vec::new();
    header.push(String::from_str("Name"));
    let mut counts: Vec<String> = Vec::new();
    let mut d: usize = 0;
    while d < 5
        invariant
            d <= 5,
            schedule.wf(),
            days == schedule@.days,
            header@.len() == d + 1,
            header@[0]@ == "Name"@,
            forall|k: int| 1 <= k <= d ==> (#[trigger] header@[k])@ == day_name(k - 1),
            counts@.len() == d,
            forall|k: int| 0 <= k < d ==> (#[trigger] counts@[k])@ == nat_decimal(days[k].len()),
        decreases 5 - d,
    {
        header.push(crate::roster::weekday_label(d));
        proof {
            assert(days[d as int] == day_view(schedule.schedules@[d as int]@));
        }
        counts.push(u64_to_string(schedule.schedules[d].len() as u64));
        d = d + 1;
    }
    assert(texts_of(header@) =~= sheet_header());
    assert(texts_of(counts@) =~= sheet_counts(days));
    let mut rows: Vec<SheetRow> = Vec::new();
    let mut d: usize = 0;
    while d < 5
        invariant
            d <= 5,
            schedule.wf(),
            days == schedule@.days,
            rows_so_far(days, rows@, d as int, 0),
        decreases 5 - d,
    {
        let list = &schedule.schedules[d];
        proof {
            assert(days[d as int] == day_view(list@));
        }
        let mut k: usize = 0;
        while k < list.len()
            invariant
                d < 5,
                schedule.wf(),
                days == schedule@.days,
                list == &schedule.schedules@[d as int],
                days[d as int] == day_view(list@),
                k <= list.len(),
                rows_so_far(days, rows@, d as int, k as int),
            decreases list.len() - k,
        {
            let e = &list[k];
            assert(days[d as int][k as int] == e@);
            let ghost before = rows@;
            if !has_row(&rows, e.id) {
                let marks = marks_of(schedule, e.id);
                let p = insert_position(&rows, e.name.as_str());
                let row = SheetRow { id: e.id, name: e.name.clone(), marks };
                proof {
                    lemma_insert_sorted(before, row, p as int);
                }
                rows.insert(p, row);
                proof {
                    let n = rows@;
                    assert(n == before.insert(p as int, row));
                    assert(days[d as int][k as int].id == row.id && days[d as int][k as int].name == row.name@);
                    assert(listed_as(days, row.id, row.name@));
                    assert forall|id: i32| #[trigger] seen_before(days, d as int, k as int + 1, id) <==> exists|i: int|
                        0 <= i < n.len() && #[trigger] n[i].id == id by {
                        if seen_before(days, d as int, k as int + 1, id) {
                            let (dd, kk) = choose|dd: int, kk: int|
                                0 <= dd < 5 && 0 <= kk < days[dd].len() && (dd < d || (dd == d && kk < k + 1))
                                    && #[trigger] days[dd][kk].id == id;
                            if dd == d && kk == k {
                                assert(n[p as int].id == id);
                            } else {
                                assert(seen_before(days, d as int, k as int, id));
                                let i = choose|i: int| 0 <= i < before.len() && #[trigger] before[i].id == id;
                                if i < p {
                                    assert(n[i].id == id);
                                } else {
                                    assert(n[i + 1].id == id);
                                }
                            }
                        }
                        if exists|i: int| 0 <= i < n.len() && #[trigger] n[i].id == id {
                            let i = choose|i: int| 0 <= i < n.len() && #[trigger] n[i].id == id;
                            if i == p {
                                assert(days[d as int][k as int].id == id);
                            } else {
                                let i0 = if i < p { i } else { i - 1 };
                                assert(before[i0].id == id);
                                assert(seen_before(days, d as int, k as int, id));
                                let (dd, kk) = choose|dd: int, kk: int|
                                    0 <= dd < 5 && 0 <= kk < days[dd].len() && (dd < d || (dd == d && kk < k))
                                        && #[trigger] days[dd][kk].id == id;
                                assert(days[dd][kk].id == id);
                            }
                        }
                    }
                    assert forall|i: int, j: int| 0 <= i < j < n.len() implies n[i].id != n[j].id by {
                        if i == p {
                            assert(n[j] == before[j - 1]);
                        } else if j == p {
                            assert(n[i] == before[i]);
                        }
                    }
                    assert forall|i: int| 0 <= i < n.len() implies listed_as(days, #[trigger] n[i].id, n[i].name@) by {
                        if i < p {
                            assert(n[i] == before[i]);
                        } else if i > p {
                            assert(n[i] == before[i - 1]);
                        }
                    }
                    assert forall|i: int| 0 <= i < n.len() implies (#[trigger] n[i]).marks@ == row_marks(days, n[i].id) by {
                        if i < p {
                            assert(n[i] == before[i]);
                        } else if i > p {
                            assert(n[i] == before[i - 1]);
                        }
                    }
                }
            } else {
                proof {
                    assert forall|id: i32| #[trigger] seen_before(days, d as int, k as int + 1, id) <==> exists|i: int|
                        0 <= i < before.len() && #[trigger] before[i].id == id by {
                        if seen_before(days, d as int, k as int + 1, id) {
                            let (dd, kk) = choose|dd: int, kk: int|
                                0 <= dd < 5 && 0 <= kk < days[dd].len() && (dd < d || (dd == d && kk < k + 1))
                                    && #[trigger] days[dd][kk].id == id;
                            if !(dd == d && kk == k) {
                                assert(seen_before(days, d as int, k as int, id));
                            }
                        }
                        if exists|i: int| 0 <= i < before.len() && #[trigger] before[i].id == id {
                            let i = choose|i: int| 0 <= i < before.len() && #[trigger] before[i].id == id;
                            assert(seen_before(days, d as int, k as int, id));
                            let (dd, kk) = choose|dd: int, kk: int|
                                0 <= dd < 5 && 0 <= kk < days[dd].len() && (dd < d || (dd == d && kk < k))
                                    && #[trigger] days[dd][kk].id == id;
                            assert(days[dd][kk].id == id);
                        }
                    }
                }
            }
            k = k + 1;
        }
        proof {
            assert forall|id: i32| #[trigger] seen_before(days, d as int + 1, 0, id) <==> seen_before(days, d as int, list.len() as int, id) by {
                if seen_before(days, d as int + 1, 0, id) {
                    let (dd, kk) = choose|dd: int, kk: int|
                        0 <= dd < 5 && 0 <= kk < days[dd].len() && (dd < d + 1 || (dd == d + 1 && kk < 0))
                            && #[trigger] days[dd][kk].id == id;
                    assert(days[dd][kk].id == id);
                }
                if seen_before(days, d as int, list.len() as int, id) {
                    let (dd, kk) = choose|dd: int, kk: int|
                        0 <= dd < 5 && 0 <= kk < days[dd].len() && (dd < d || (dd == d && kk < list.len()))
                            && #[trigger] days[dd][kk].id == id;
                    assert(days[dd][kk].id == id);
                }
            }
        }
        d = d + 1;
    }
    proof {
        assert forall|id: i32| #[trigger] scheduled_ids(days).contains(id) <==> seen_before(days, 5, 0, id) by {
            if scheduled_ids(days).contains(id) {
                let dd = choose|dd: int| 0 <= dd < 5 && #[trigger] ids_of(days[dd]).contains(id);
                let kk = choose|kk: int| 0 <= kk < ids_of(days[dd]).len() && ids_of(days[dd])[kk] == id;
                assert(days[dd][kk].id == id);
            }
            if seen_before(days, 5, 0, id) {
                let (dd, kk) = choose|dd: int, kk: int|
                    0 <= dd < 5 && 0 <= kk < days[dd].len() && (dd < 5 || (dd == 5 && kk < 0))
                        && #[trigger] days[dd][kk].id == id;
                assert(ids_of(days[dd])[kk] == id);
                assert(ids_of(days[dd]).contains(id));
            }
        }
    }
    ScheduleSheet { filename, header, counts, rows }
}

} // verus!
