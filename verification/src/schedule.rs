use vstd::prelude::*;
use std::collections::HashMap;
use crate::types::{Weekday, all_weekdays};
use crate::employee::{Employee, EmployeeView};
use crate::clock::{Timestamp, now_utc};
use crate::text::{i64_to_string, int_decimal, concat_str};

verus! {

broadcast use vstd::std_specs::hash::group_hash_axioms;

/// The employees on one day's list, as values.
pub open spec fn day_view(v: Seq<Employee>) -> Seq<EmployeeView> {
    v.map_values(|e: Employee| e@)
}

/// The ids of the employees on a list, in order.
pub open spec fn ids_of(v: Seq<EmployeeView>) -> Seq<i32> {
    v.map_values(|e: EmployeeView| e.id)
}

/// How many times `x` occurs in `s`.
pub open spec fn count_of(s: Seq<i32>, x: i32) -> nat
    decreases s.len(),
{
    if s.len() == 0 {
        0
    } else {
        count_of(s.drop_last(), x) + if s.last() == x { 1nat } else { 0nat }
    }
}

/// The month's schedule: for each weekday (Monday first) the employees in the office.
pub struct MonthlySchedule {
    pub year: i32,
    pub month: u32,
    /// One list per weekday, Monday first.
    pub schedules: Vec<Vec<Employee>>,
    /// Ids of the employees that the schedule was made for.
    pub included_employees: Vec<i32>,
    pub created_at: Timestamp,
    pub updated_at: Timestamp,
}

/// The value of a [`MonthlySchedule`].
pub struct MonthlyScheduleView {
    pub year: i32,
    pub month: u32,
    pub days: Seq<Seq<EmployeeView>>,
    pub included_employees: Seq<i32>,
    pub created_at: Timestamp,
    pub updated_at: Timestamp,
}

impl View for MonthlySchedule {
    type V = MonthlyScheduleView;

    open spec fn view(&self) -> MonthlyScheduleView {
        MonthlyScheduleView {
            year: self.year,
            month: self.month,
            days: self.schedules@.map_values(|v: Vec<Employee>| day_view(v@)),
            included_employees: self.included_employees@,
            created_at: self.created_at,
            updated_at: self.updated_at,
        }
    }
}

/// The weekdays on which an employee with this id is scheduled, Monday first.
pub open spec fn days_with_id(days: Seq<Seq<EmployeeView>>, id: i32) -> Seq<Weekday> {
    all_weekdays().filter(|d: Weekday| ids_of(days[d.spec_index()]).contains(id))
}

/// The ids that occur on some day of the schedule.
pub open spec fn scheduled_ids(days: Seq<Seq<EmployeeView>>) -> Set<i32> {
    Set::new(|id: i32| exists|d: int| 0 <= d < 5 && #[trigger] ids_of(days[d]).contains(id))
}

/// What `MonthlySchedule::validate` reports: the first field out of range, if any.
pub open spec fn schedule_error(year: i32, month: u32) -> Option<Seq<char>> {
    if year < 2000 || year > 2100 {
        Some("invalid year: "@ + int_decimal(year as int))
    } else if month < 1 || month > 12 {
        Some("invalid month: "@ + int_decimal(month as int))
    } else {
        None
    }
}

/// Two schedules have the same content: same month, and each day lists the same ids the same
/// number of times.
pub open spec fn same_content(a: MonthlyScheduleView, b: MonthlyScheduleView) -> bool {
    &&& a.year == b.year
    &&& a.month == b.month
    &&& a.days.len() == b.days.len()
    &&& forall|d: int| 0 <= d < a.days.len() ==> {
        &&& (#[trigger] a.days[d]).len() == b.days[d].len()
        &&& forall|x: i32| count_of(ids_of(a.days[d]), x) == count_of(ids_of(b.days[d]), x)
    }
}

proof fn lemma_count_absent(s: Seq<i32>, x: i32)
    requires
        !s.contains(x),
    ensures
        count_of(s, x) == 0,
    decreases s.len(),
{
    if s.len() > 0 {
        assert(!s.drop_last().contains(x)) by {
            if s.drop_last().contains(x) {
                let i = choose|i: int| 0 <= i < s.drop_last().len() && s.drop_last()[i] == x;
                assert(s[i] == x);
            }
        }
        lemma_count_absent(s.drop_last(), x);
    }
}

/// The number of times `x` occurs among the ids of `v`.
fn count_id(v: &Vec<Employee>, x: i32) -> (c: usize)
    ensures
        c == count_of(ids_of(day_view(v@)), x),
{
    let mut c: usize = 0;
    let mut i: usize = 0;
    while i < v.len()
        invariant
            i <= v.len(),
            c <= i,
            c == count_of(ids_of(day_view(v@)).take(i as int), x),
        decreases v.len() - i,
    {
        proof {
            let s = ids_of(day_view(v@));
            assert(s.take(i as int + 1).drop_last() =~= s.take(i as int));
        }
        if v[i].id == x {
            c = c + 1;
        }
        i = i + 1;
    }
    proof {
        let s = ids_of(day_view(v@));
        assert(s.take(v.len() as int) =~= s);
    }
    c
}

/// Whether an employee with id `x` is on the list.
pub fn has_id(v: &Vec<Employee>, x: i32) -> (r: bool)
    ensures
        r == ids_of(day_view(v@)).contains(x),
{
    let mut i: usize = 0;
    while i < v.len()
        invariant
            i <= v.len(),
            forall|j: int| 0 <= j < i ==> v@[j].id != x,
        decreases v.len() - i,
    {
        if v[i].id == x {
            assert(ids_of(day_view(v@))[i as int] == x);
            return true;
        }
        i = i + 1;
    }
    false
}

impl MonthlySchedule {
    /// Well-formed: one list per weekday.
    pub open spec fn wf(&self) -> bool {
        self.schedules.len() == 5
    }

    /// An empty schedule for the month, with an empty list for every weekday.
    pub fn new(year: i32, month: u32) -> (r: Self)
        ensures
            r.wf(),
            r.year == year,
            r.month == month,
            forall|d: int| 0 <= d < 5 ==> (#[trigger] r.schedules@[d])@.len() == 0,
            r.included_employees@.len() == 0,
    {
        let mut schedules: Vec<Vec<Employee>> = Vec::new();
        let mut i: usize = 0;
        while i < 5
            invariant
                i <= 5,
                schedules.len() == i,
                forall|d: int| 0 <= d < i ==> (#[trigger] schedules@[d])@.len() == 0,
            decreases 5 - i,
        {
            schedules.push(Vec::new());
            i = i + 1;
        }
        let created_at = now_utc();
        let updated_at = now_utc();
        MonthlySchedule {
            year,
            month,
            schedules,
            included_employees: Vec::new(),
            created_at,
            updated_at,
        }
    }

    /// Appends `employee` to the list of `day`.
    pub fn add_employee(&mut self, day: Weekday, employee: Employee)
        requires
            old(self).wf(),
        ensures
            final(self).wf(),
            final(self)@.days == old(self)@.days.update(
                day.spec_index(),
                old(self)@.days[day.spec_index()].push(employee@),
            ),
            final(self).year == old(self).year,
            final(self).month == old(self).month,
            final(self).included_employees == old(self).included_employees,
            final(self).created_at == old(self).created_at,
    {
        let i = day.index();
        let ghost before = self.schedules@;
        let ghost ev = employee@;
        self.schedules[i].push(employee);
        self.updated_at = now_utc();
        proof {
            assert(self.schedules@.len() == 5);
            assert(self.schedules@[i as int]@ == before[i as int]@.push(employee));
            assert(forall|j: int| 0 <= j < 5 && j != i ==> self.schedules@[j] == before[j]);
            assert(day_view(self.schedules@[i as int]@) =~= day_view(before[i as int]@).push(ev));
            assert(self.schedules@.map_values(|v: Vec<Employee>| day_view(v@)) =~= before.map_values(
                |v: Vec<Employee>| day_view(v@),
            ).update(i as int, day_view(before[i as int]@).push(employee@)));
        }
    }

    /// Removes the first employee with `employee_id` from the list of `day`, if there is one.
    pub fn remove_employee(&mut self, day: Weekday, employee_id: i32)
        requires
            old(self).wf(),
        ensures
            final(self).wf(),
            final(self).year == old(self).year,
            final(self).month == old(self).month,
            final(self).included_employees == old(self).included_employees,
            final(self).created_at == old(self).created_at,
            ({
                let d = day.spec_index();
                let ids = ids_of(old(self)@.days[d]);
                if ids.contains(employee_id) {
                    exists|pos: int| 0 <= pos < ids.len() && ids[pos] == employee_id
                        && (forall|k: int| 0 <= k < pos ==> ids[k] != employee_id)
                        && final(self)@.days == old(self)@.days.update(d, old(self)@.days[d].remove(pos))
                } else {
                    final(self)@.days == old(self)@.days && final(self).updated_at == old(self).updated_at
                }
            }),
    {
        let i = day.index();
        let ghost before = self.schedules@;
        let mut pos: usize = 0;
        let n = self.schedules[i].len();
        while pos < n && self.schedules[i][pos].id != employee_id
            invariant
                self.wf(),
                i < 5,
                self.schedules@ == before,
                n == self.schedules@[i as int].len(),
                pos <= n,
                forall|k: int| 0 <= k < pos ==> self.schedules@[i as int]@[k].id != employee_id,
            decreases n - pos,
        {
            pos = pos + 1;
        }
        if pos < n {
            let ghost ids = ids_of(day_view(before[i as int]@));
            assert(ids[pos as int] == employee_id);
            self.schedules[i].remove(pos);
            self.updated_at = now_utc();
            proof {
                assert(day_view(self.schedules@[i as int]@) =~= day_view(before[i as int]@).remove(pos as int));
                assert(forall|j: int| 0 <= j < 5 && j != i ==> self.schedules@[j] == before[j]);
                assert(self@.days =~= old(self)@.days.update(i as int, old(self)@.days[i as int].remove(pos as int)));
            }
        } else {
            proof {
                let ids = ids_of(day_view(before[i as int]@));
                assert forall|k: int| 0 <= k < ids.len() implies ids[k] != employee_id by {}
            }
        }
    }

    /// A copy of the list of employees scheduled on `day`.
    pub fn get_employees_for_day(&self, day: Weekday) -> (r: Vec<Employee>)
        requires
            self.wf(),
        ensures
            day_view(r@) == self@.days[day.spec_index()],
    {
        let i = day.index();
        let list = &self.schedules[i];
        let mut out: Vec<Employee> = Vec::new();
        let mut k: usize = 0;
        while k < list.len()
            invariant
                k <= list.len(),
                out.len() == k,
                forall|j: int| 0 <= j < k ==> (#[trigger] out@[j])@ == list@[j]@,
            decreases list.len() - k,
        {
            out.push(list[k].clone());
            k = k + 1;
        }
        assert(day_view(out@) =~= day_view(list@));
        out
    }

    /// The weekdays (Monday first) on which an employee with `employee_id` is scheduled.
    pub fn get_days_for_employee(&self, employee_id: i32) -> (r: Vec<Weekday>)
        requires
            self.wf(),
        ensures
            r@ == days_with_id(self@.days, employee_id),
    {
        let mut days: Vec<Weekday> = Vec::new();
        let mut i: usize = 0;
        let ghost pred = |d: Weekday| ids_of(self@.days[d.spec_index()]).contains(employee_id);
        while i < 5
            invariant
                i <= 5,
                self.wf(),
                pred == (|d: Weekday| ids_of(self@.days[d.spec_index()]).contains(employee_id)),
                days@ == all_weekdays().take(i as int).filter(pred),
            decreases 5 - i,
        {
            let d = Weekday::from_index(i);
            proof {
                reveal_with_fuel(Seq::filter, 1);
                assert(all_weekdays().take(i as int + 1).drop_last() =~= all_weekdays().take(i as int));
                assert(all_weekdays()[i as int] == d);
            }
            if has_id(&self.schedules[i], employee_id) {
                days.push(d);
            }
            i = i + 1;
        }
        assert(all_weekdays().take(5) =~= all_weekdays());
        days
    }

    /// How many employees each weekday's list holds, Monday first.
    pub fn day_count(&self) -> (r: Vec<usize>)
        requires
            self.wf(),
        ensures
            r@.len() == 5,
            forall|d: int| 0 <= d < 5 ==> r@[d] == #[trigger] self@.days[d].len(),
    {
        let mut counts: Vec<usize> = Vec::new();
        let mut i: usize = 0;
        while i < 5
            invariant
                i <= 5,
                self.wf(),
                counts.len() == i,
                forall|d: int| 0 <= d < i ==> counts@[d] == #[trigger] self@.days[d].len(),
            decreases 5 - i,
        {
            counts.push(self.schedules[i].len());
            i = i + 1;
        }
        counts
    }

    /// The number of distinct employee ids on the schedule.
    pub fn total_employees(&self) -> (r: usize)
        requires
            self.wf(),
        ensures
            r == scheduled_ids(self@.days).len(),
    {
        let mut seen: Vec<i32> = Vec::new();
        let mut d: usize = 0;
        while d < 5
            invariant
                d <= 5,
                self.wf(),
                seen@.no_duplicates(),
                forall|id: i32| seen@.contains(id) <==> exists|e: int| 0 <= e < d && #[trigger] ids_of(self@.days[e]).contains(id),
            decreases 5 - d,
        {
            let list = &self.schedules[d];
            let mut k: usize = 0;
            while k < list.len()
                invariant
                    k <= list.len(),
                    d < 5,
                    self.wf(),
                    list == &self.schedules@[d as int],
                    seen@.no_duplicates(),
                    forall|id: i32| seen@.contains(id) <==> (exists|e: int| 0 <= e < d && #[trigger] ids_of(self@.days[e]).contains(id))
                        || ids_of(self@.days[d as int]).take(k as int).contains(id),
                decreases list.len() - k,
            {
                let id = list[k].id;
                let mut found = false;
                let mut t: usize = 0;
                while t < seen.len()
                    invariant
                        t <= seen.len(),
                        found <==> seen@.take(t as int).contains(id),
                    decreases seen.len() - t,
                {
                    proof {
                        assert(seen@.take(t as int + 1) =~= seen@.take(t as int).push(seen@[t as int]));
                        assert(forall|y: i32| seen@.take(t as int).push(seen@[t as int]).contains(y)
                            ==> seen@.take(t as int).contains(y) || y == seen@[t as int]);
                        assert(seen@.take(t as int).contains(id) ==> seen@.take(t as int + 1).contains(id));
                        assert(seen@.take(t as int + 1)[t as int] == seen@[t as int]);
                    }
                    if seen[t] == id {
                        found = true;
                    }
                    t = t + 1;
                }
                proof {
                    assert(seen@.take(seen.len() as int) =~= seen@);
                    let ids = ids_of(self@.days[d as int]);
                    assert(ids.take(k as int + 1) =~= ids.take(k as int).push(id));
                }
                let ghost old_seen = seen@;
                if !found {
                    seen.push(id);
                }
                proof {
                    let ids = ids_of(self@.days[d as int]);
                    assert(ids[k as int] == id);
                    assert forall|y: i32| seen@.contains(y) <==> old_seen.contains(y) || y == id by {
                        if !found {
                            if seen@.contains(y) {
                                let q = choose|q: int| 0 <= q < seen@.len() && seen@[q] == y;
                                if q < old_seen.len() {
                                    assert(old_seen[q] == y);
                                }
                            }
                            if old_seen.contains(y) {
                                let q = choose|q: int| 0 <= q < old_seen.len() && old_seen[q] == y;
                                assert(seen@[q] == y);
                            }
                            if y == id {
                                assert(seen@[old_seen.len() as int] == y);
                            }
                        }
                    }
                    assert forall|y: i32| ids.take(k as int + 1).contains(y) <==> ids.take(k as int).contains(y) || y == id by {
                        if ids.take(k as int + 1).contains(y) {
                            let q = choose|q: int| 0 <= q < k + 1 && #[trigger] ids.take(k as int + 1)[q] == y;
                            if q < k {
                                assert(ids.take(k as int)[q] == y);
                            }
                        }
                        if ids.take(k as int).contains(y) {
                            let q = choose|q: int| 0 <= q < k && #[trigger] ids.take(k as int)[q] == y;
                            assert(ids.take(k as int + 1)[q] == y);
                        }
                        if y == id {
                            assert(ids.take(k as int + 1)[k as int] == y);
                        }
                    }
                    assert forall|y: i32| seen@.contains(y) <==> (exists|e: int| 0 <= e < d && #[trigger] ids_of(self@.days[e]).contains(y))
                        || ids.take(k as int + 1).contains(y) by {
                        assert(old_seen.contains(y) <==> (exists|e: int| 0 <= e < d && #[trigger] ids_of(self@.days[e]).contains(y))
                            || ids.take(k as int).contains(y));
                        assert(seen@.contains(y) <==> old_seen.contains(y) || y == id);
                        assert(ids.take(k as int + 1).contains(y) <==> ids.take(k as int).contains(y) || y == id);
                        if y == id && found {
                            assert(old_seen.take(old_seen.len() as int) =~= old_seen);
                            assert(old_seen.contains(y));
                        }
                    }
                }
                k = k + 1;
            }
            proof {
                let ids = ids_of(self@.days[d as int]);
                assert(ids.take(list.len() as int) =~= ids);
                assert forall|id: i32| seen@.contains(id) <==> exists|e: int| 0 <= e < d + 1 && #[trigger] ids_of(self@.days[e]).contains(id) by {
                    if ids.contains(id) {
                        assert(ids_of(self@.days[d as int]).contains(id));
                    }
                }
            }
            d = d + 1;
        }
        proof {
            seen@.unique_seq_to_set();
            assert(seen@.to_set() =~= scheduled_ids(self@.days));
        }
        seen.len()
    }

    /// Checks that the year is 2000 to 2100 and the month 1 to 12.
    pub fn validate(&self) -> (r: Result<(), String>)
        ensures
            match r {
                Ok(_) => schedule_error(self.year, self.month) is None,
                Err(m) => schedule_error(self.year, self.month) == Some(m@),
            },
    {
        if self.year < 2000 || self.year > 2100 {
            let n = i64_to_string(self.year as i64);
            return Err(concat_str("invalid year: ", n.as_str()));
        }
        if self.month < 1 || self.month > 12 {
            let n = i64_to_string(self.month as i64);
            return Err(concat_str("invalid month: ", n.as_str()));
        }
        Ok(())
    }

    /// Whether two schedules hold the same month and, day by day, the same employee ids with
    /// the same multiplicities (times of creation and update aside).
    pub fn is_same_content(&self, other: &Self) -> (r: bool)
        requires
            self.wf(),
            other.wf(),
        ensures
            r == same_content(self@, other@),
    {
        if self.year != other.year || self.month != other.month {
            return false;
        }
        let mut d: usize = 0;
        while d < 5
            invariant
                d <= 5,
                self.wf(),
                other.wf(),
                forall|e: int| 0 <= e < d ==> {
                    &&& (#[trigger] self@.days[e]).len() == other@.days[e].len()
                    &&& forall|x: i32| count_of(ids_of(self@.days[e]), x) == count_of(ids_of(other@.days[e]), x)
                },
            decreases 5 - d,
        {
            let a = &self.schedules[d];
            let b = &other.schedules[d];
            assert(self@.days[d as int] == day_view(a@));
            assert(other@.days[d as int] == day_view(b@));
            if a.len() != b.len() {
                return false;
            }
            let mut k: usize = 0;
            while k < a.len()
                invariant
                    k <= a.len(),
                    a.len() == b.len(),
                    self.wf(),
                    other.wf(),
                    d < 5,
                    self@.days[d as int] == day_view(a@),
                    other@.days[d as int] == day_view(b@),
                    forall|j: int| 0 <= j < k ==> count_of(ids_of(day_view(a@)), #[trigger] ids_of(day_view(a@))[j])
                        == count_of(ids_of(day_view(b@)), ids_of(day_view(a@))[j]),
                    forall|j: int| 0 <= j < k ==> count_of(ids_of(day_view(a@)), #[trigger] ids_of(day_view(b@))[j])
                        == count_of(ids_of(day_view(b@)), ids_of(day_view(b@))[j]),
                decreases a.len() - k,
            {
                let x = a[k].id;
                if count_id(a, x) != count_id(b, x) {
                    assert(count_of(ids_of(self@.days[d as int]), x) != count_of(ids_of(other@.days[d as int]), x));
                    return false;
                }
                let y = b[k].id;
                if count_id(a, y) != count_id(b, y) {
                    assert(count_of(ids_of(self@.days[d as int]), y) != count_of(ids_of(other@.days[d as int]), y));
                    return false;
                }
                k = k + 1;
            }
            proof {
                let sa = ids_of(day_view(a@));
                let sb = ids_of(day_view(b@));
                assert forall|x: i32| count_of(sa, x) == count_of(sb, x) by {
                    if sa.contains(x) {
                        let j = choose|j: int| 0 <= j < sa.len() && sa[j] == x;
                    } else if sb.contains(x) {
                        let j = choose|j: int| 0 <= j < sb.len() && sb[j] == x;
                    } else {
                        lemma_count_absent(sa, x);
                        lemma_count_absent(sb, x);
                    }
                }
            }
            d = d + 1;
        }
        true
    }
}

impl Clone for MonthlySchedule {
    fn clone(&self) -> (r: Self)
        ensures
            r@ == self@,
    {
        let mut schedules: Vec<Vec<Employee>> = Vec::new();
        let mut d: usize = 0;
        while d < self.schedules.len()
            invariant
                d <= self.schedules.len(),
                schedules.len() == d,
                forall|e: int| 0 <= e < d ==> day_view((#[trigger] schedules@[e])@) == day_view(self.schedules@[e]@),
            decreases self.schedules.len() - d,
        {
            let list = &self.schedules[d];
            let mut out: Vec<Employee> = Vec::new();
            let mut k: usize = 0;
            while k < list.len()
                invariant
                    k <= list.len(),
                    out.len() == k,
                    forall|j: int| 0 <= j < k ==> (#[trigger] out@[j])@ == list@[j]@,
                decreases list.len() - k,
            {
                out.push(list[k].clone());
                k = k + 1;
            }
            assert(day_view(out@) =~= day_view(list@));
            schedules.push(out);
            d = d + 1;
        }
        let included = self.included_employees.clone();
        assert(included@ =~= self.included_employees@);
        let r = MonthlySchedule {
            year: self.year,
            month: self.month,
            schedules,
            included_employees: included,
            created_at: self.created_at,
            updated_at: self.updated_at,
        };
        assert(r@.days =~= self@.days);
        r
    }
}

/// Past attendance per employee id: one entry per past month, each marking the weekdays
/// (Monday first) on which the employee was in the office.
pub type PastSchedules = HashMap<i32, Vec<[bool; 5]>>;

/// The last `limit` entries of `s` (all of them when there are no more than `limit`).
pub open spec fn recent(s: Seq<[bool; 5]>, limit: nat) -> Seq<[bool; 5]> {
    if s.len() <= limit {
        s
    } else {
        s.subrange(s.len() - limit, s.len() as int)
    }
}

/// Lookups in [`PastSchedules`].
pub trait PastSchedulesExt {
    /// The entries recorded for an employee (none when the id is unknown).
    spec fn past_records(&self, employee_id: i32) -> Seq<[bool; 5]>;

    /// The last `limit` entries recorded for the employee.
    fn get_employee_past_schedules(&self, employee_id: i32, limit: usize) -> (r: Vec<[bool; 5]>)
        ensures
            r@ == recent(self.past_records(employee_id), limit as nat),
    ;
}

impl PastSchedulesExt for HashMap<i32, Vec<[bool; 5]>> {
    open spec fn past_records(&self, employee_id: i32) -> Seq<[bool; 5]> {
        if self@.contains_key(employee_id) {
            self@[employee_id]@
        } else {
            Seq::empty()
        }
    }

    fn get_employee_past_schedules(&self, employee_id: i32, limit: usize) -> (r: Vec<[bool; 5]>) {
        match self.get(&employee_id) {
            Some(records) => {
                let start: usize = if records.len() <= limit { 0 } else { records.len() - limit };
                let mut out: Vec<[bool; 5]> = Vec::new();
                let mut i: usize = start;
                while i < records.len()
                    invariant
                        start <= i <= records.len(),
                        out@ == records@.subrange(start as int, i as int),
                    decreases records.len() - i,
                {
                    out.push(records[i]);
                    proof {
                        assert(out@ =~= records@.subrange(start as int, i as int + 1));
                    }
                    i = i + 1;
                }
                proof {
                    assert(records@.subrange(0, records.len() as int) =~= records@);
                }
                out
            },
            None => Vec::new(),
        }
    }
}

} // verus!
