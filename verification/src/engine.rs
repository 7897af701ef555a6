use vstd::prelude::*;
use std::collections::HashMap;
use crate::types::{Weekday, all_weekdays};
use crate::employee::{Employee, EmployeeView};
use crate::random::shuffle_vec;
use crate::generator::{DayCombination, ScheduleGenerator, combos_view, shuffle_combinations, table_combos};
use crate::schedule::{PastSchedules, PastSchedulesExt, recent, MonthlySchedule};

verus! {

/// Largest office-day tally that the scoring arithmetic is proved for (far beyond any roster
/// that fits in memory).
pub const COUNT_LIMIT: u64 = 0x8000_0000;

/// Largest number of days in one combination that the scoring arithmetic is proved for.
pub const COMBO_LIMIT: usize = 0x10_0000;

/// How many times the weekday at position `d` occurs in `c`.
pub open spec fn occ(c: Seq<Weekday>, d: int) -> int
    decreases c.len(),
{
    if c.len() == 0 {
        0
    } else {
        occ(c.drop_last(), d) + if c.last().spec_index() == d { 1int } else { 0int }
    }
}

/// The sum of a sequence of integers.
pub open spec fn sum(s: Seq<int>) -> int
    decreases s.len(),
{
    if s.len() == 0 {
        0
    } else {
        sum(s.drop_last()) + s.last()
    }
}

/// `n²` times the sum of the squared deviations of the values from their mean, that is the
/// sum over the values `v` of
/// `(n·v − total)²`, where `n` is the number of values.
pub open spec fn spread(v: Seq<int>) -> int {
    let n = v.len() as int;
    let t = sum(v);
    sum(Seq::new(v.len(), |i: int| (n * v[i] - t) * (n * v[i] - t)))
}

/// The day tallies once the days of `c` are added.
pub open spec fn tallies_with(counts: Seq<int>, c: Seq<Weekday>) -> Seq<int> {
    Seq::new(counts.len(), |d: int| counts[d] + occ(c, d))
}

/// The sum of the (8×) past frequencies of the days of `c`, one term per day of `c`.
pub open spec fn repetition8(freq8: Seq<u64>, c: Seq<Weekday>) -> int
    decreases c.len(),
{
    if c.len() == 0 {
        0
    } else {
        repetition8(freq8, c.drop_last()) + freq8[c.last().spec_index()]
    }
}

/// How many days of `c` are days of the mentor.
pub open spec fn mentor_matches(mentor_days: Seq<Weekday>, c: Seq<Weekday>) -> int
    decreases c.len(),
{
    if c.len() == 0 {
        0
    } else {
        mentor_matches(mentor_days, c.drop_last()) + if mentor_days.contains(c.last()) { 1int } else { 0int }
    }
}

/// 200 times the score of giving the days `c` to an employee: the sum of the squared
/// deviations of the day tallies afterwards from their mean, plus 3 times the employee's past frequency on those days, minus 10 for
/// each day shared with the mentor. Lower is better.
pub open spec fn combo_score(counts: Seq<int>, c: Seq<Weekday>, freq8: Seq<u64>, mentor_days: Seq<Weekday>) -> int {
    8 * spread(tallies_with(counts, c)) + 75 * repetition8(freq8, c) - 2000 * mentor_matches(mentor_days, c)
}

/// 8 times how often the employee worked on weekday `d` in the last two recorded months,
/// the older of the two weighing 1 and the newer 0.625 (only one month: weight 1).
pub open spec fn past_freq8(records: Seq<[bool; 5]>, d: int) -> u64 {
    let r = recent(records, 2);
    ((if r.len() >= 1 && r[0][d] { 8int } else { 0int }) + (if r.len() == 2 && r[1][d] { 5int } else { 0int })) as u64
}

/// The tallies are small enough for the scoring arithmetic.
pub open spec fn tallies_in_range(counts: Seq<usize>) -> bool {
    counts.len() == 5 && forall|d: int| 0 <= d < 5 ==> #[trigger] counts[d] < COUNT_LIMIT
}

/// `c` has the least score among `combos`.
pub open spec fn is_best(counts: Seq<int>, c: Seq<Weekday>, combos: Seq<Seq<Weekday>>, freq8: Seq<u64>, mentor_days: Seq<Weekday>) -> bool {
    forall|j: int| 0 <= j < combos.len() ==> combo_score(counts, c, freq8, mentor_days) <= #[trigger] combo_score(counts, combos[j], freq8, mentor_days)
}

proof fn lemma_occ_bounds(c: Seq<Weekday>, d: int)
    ensures
        0 <= occ(c, d) <= c.len(),
    decreases c.len(),
{
    if c.len() > 0 {
        lemma_occ_bounds(c.drop_last(), d);
    }
}

proof fn lemma_repetition_bounds(freq8: Seq<u64>, c: Seq<Weekday>)
    requires
        freq8.len() == 5,
        forall|d: int| 0 <= d < 5 ==> #[trigger] freq8[d] <= 13,
    ensures
        0 <= repetition8(freq8, c) <= 13 * c.len(),
    decreases c.len(),
{
    if c.len() > 0 {
        lemma_repetition_bounds(freq8, c.drop_last());
        assert(0 <= c.last().spec_index() < 5);
    }
}

proof fn lemma_matches_bounds(m: Seq<Weekday>, c: Seq<Weekday>)
    ensures
        0 <= mentor_matches(m, c) <= c.len(),
    decreases c.len(),
{
    if c.len() > 0 {
        lemma_matches_bounds(m, c.drop_last());
    }
}

fn seq_contains(v: &[Weekday], d: Weekday) -> (r: bool)
    ensures
        r == v@.contains(d),
{
    let mut i: usize = 0;
    while i < v.len()
        invariant
            i <= v@.len(),
            forall|j: int| 0 <= j < i ==> v@[j] != d,
        decreases v.len() - i,
    {
        if v[i] == d {
            return true;
        }
        i = i + 1;
    }
    false
}

/// The tallies as integers.
pub open spec fn usize_ints(v: Seq<usize>) -> Seq<int> {
    v.map_values(|x: usize| x as int)
}

/// The values as integers.
pub open spec fn as_ints(v: Seq<u64>) -> Seq<int> {
    v.map_values(|x: u64| x as int)
}

/// [`spread`] of five tallies.
fn spread5(temp: &Vec<u64>) -> (r: i128)
    requires
        temp@.len() == 5,
        forall|i: int| 0 <= i < 5 ==> #[trigger] temp@[i] < COUNT_LIMIT + COMBO_LIMIT,
    ensures
        r == spread(as_ints(temp@)),
        0 <= r <= 5 * 0x400_0000_0000_0000_0000_0000,
{
    let ghost tv = as_ints(temp@);
    let total: u64 = temp[0] + temp[1] + temp[2] + temp[3] + temp[4];
    proof {
        assert(tv.drop_last().drop_last().drop_last().drop_last().drop_last() =~= Seq::<int>::empty());
        assert(sum(tv) == tv[0] + tv[1] + tv[2] + tv[3] + tv[4]) by {
            reveal_with_fuel(sum, 6);
        }
    }
    let mut spread_acc: i128 = 0;
    let mut e: usize = 0;
    let ghost sq = Seq::new(5, |i: int| (5 * tv[i] - sum(tv)) * (5 * tv[i] - sum(tv)));
    while e < 5
        invariant
            e <= 5,
            temp@.len() == 5,
            tv == as_ints(temp@),
            forall|i: int| 0 <= i < 5 ==> #[trigger] temp@[i] < COUNT_LIMIT + COMBO_LIMIT,
            total == sum(tv),
            total == temp@[0] + temp@[1] + temp@[2] + temp@[3] + temp@[4],
            sq == Seq::new(5, |i: int| (5 * tv[i] - sum(tv)) * (5 * tv[i] - sum(tv))),
            spread_acc == sum(sq.take(e as int)),
            0 <= spread_acc <= e * 0x400_0000_0000_0000_0000_0000,
        decreases 5 - e,
    {
        let diff: i128 = 5 * (temp[e] as i128) - (total as i128);
        proof {
            assert(sq.take(e as int + 1).drop_last() =~= sq.take(e as int));
            assert(-0x2000_0000_0000 < diff < 0x2000_0000_0000);
            assert(diff * diff <= 0x400_0000_0000_0000_0000_0000) by (nonlinear_arith)
                requires
                    -0x2000_0000_0000 < diff < 0x2000_0000_0000,
            ;
            assert(diff * diff >= 0) by (nonlinear_arith);
        }
        spread_acc = spread_acc + diff * diff;
        e = e + 1;
    }
    proof {
        assert(sq.take(5) =~= sq);
    }
    spread_acc
}

/// The score of giving the days of `c` (see [`combo_score`]).
fn score_of(c: &DayCombination, counts: &[usize], freq8: &[u64], mentor_days: &[Weekday]) -> (r: i128)
    requires
        tallies_in_range(counts@),
        c.days@.len() < COMBO_LIMIT,
        freq8@.len() == 5,
        forall|d: int| 0 <= d < 5 ==> #[trigger] freq8@[d] <= 13,
    ensures
        r == combo_score(usize_ints(counts@), c.days@, freq8@, mentor_days@),
{
    let days = &c.days;
    // Tallies after adding the combination.
    let mut temp: Vec<u64> = Vec::new();
    let mut d: usize = 0;
    while d < 5
        invariant
            d <= 5,
            tallies_in_range(counts@),
            days@.len() < COMBO_LIMIT,
            temp@.len() == d,
            forall|e: int| 0 <= e < d ==> #[trigger] temp@[e] == tallies_with(usize_ints(counts@), days@)[e],
            forall|e: int| 0 <= e < d ==> #[trigger] temp@[e] < COUNT_LIMIT + COMBO_LIMIT,
        decreases 5 - d,
    {
        let mut k: usize = 0;
        let mut n: u64 = 0;
        while k < days.len()
            invariant
                k <= days@.len(),
                days@.len() < COMBO_LIMIT,
                d < 5,
                n == occ(days@.take(k as int), d as int),
                n <= k,
            decreases days.len() - k,
        {
            proof {
                assert(days@.take(k as int + 1).drop_last() =~= days@.take(k as int));
            }
            if days[k].index() == d {
                n = n + 1;
            }
            k = k + 1;
        }
        proof {
            assert(days@.take(days@.len() as int) =~= days@);
            lemma_occ_bounds(days@, d as int);
        }
        temp.push(counts[d] as u64 + n);
        d = d + 1;
    }
    proof {
        assert(temp@.map_values(|x: u64| x as int) =~= tallies_with(usize_ints(counts@), days@));
    }
    let spread_acc = spread5(&temp);
    // Past repetition of the combination's days.
    let mut rep: i128 = 0;
    let mut matches: i128 = 0;
    let mut k: usize = 0;
    while k < days.len()
        invariant
            k <= days@.len(),
            days@.len() < COMBO_LIMIT,
            freq8@.len() == 5,
            forall|d: int| 0 <= d < 5 ==> #[trigger] freq8@[d] <= 13,
            rep == repetition8(freq8@, days@.take(k as int)),
            matches == mentor_matches(mentor_days@, days@.take(k as int)),
            0 <= rep <= 13 * k,
            0 <= matches <= k,
        decreases days.len() - k,
    {
        proof {
            assert(days@.take(k as int + 1).drop_last() =~= days@.take(k as int));
        }
        let w = days[k];
        rep = rep + freq8[w.index()] as i128;
        if seq_contains(mentor_days, w) {
            matches = matches + 1;
        }
        k = k + 1;
    }
    proof {
        assert(days@.take(days@.len() as int) =~= days@);
    }
    8 * spread_acc + 75 * rep - 2000 * matches
}

/// The (8×) past frequencies of the five weekdays for an employee's records.
pub open spec fn freq8_of(records: Seq<[bool; 5]>) -> Seq<u64> {
    Seq::new(5, |d: int| past_freq8(records, d))
}

/// The combination has every one of the required days.
pub open spec fn covers(c: Seq<Weekday>, required: Seq<Weekday>) -> bool {
    forall|i: int| 0 <= i < required.len() ==> c.contains(#[trigger] required[i])
}

/// The combination has none of the employee's fixed days.
pub open spec fn avoids(c: Seq<Weekday>, fixed: Seq<Weekday>) -> bool {
    forall|i: int| 0 <= i < c.len() ==> !fixed.contains(#[trigger] c[i])
}

/// The combinations of the table for `n` days that avoid the fixed days.
pub open spec fn allowed_combos(combos: Seq<Seq<Weekday>>, fixed: Seq<Weekday>) -> Seq<Seq<Weekday>> {
    combos.filter(|c: Seq<Weekday>| avoids(c, fixed))
}

/// The day lists once employee `e` is added to the list of each day of `c`, in order.
pub open spec fn add_days(lists: Seq<Seq<EmployeeView>>, e: EmployeeView, c: Seq<Weekday>) -> Seq<Seq<EmployeeView>>
    decreases c.len(),
{
    if c.len() == 0 {
        lists
    } else {
        let l = add_days(lists, e, c.drop_last());
        let d = c.last().spec_index();
        l.update(d, l[d].push(e))
    }
}

/// The lengths of the day lists.
pub open spec fn lens(lists: Seq<Seq<EmployeeView>>) -> Seq<int> {
    Seq::new(lists.len(), |d: int| lists[d].len() as int)
}

/// The number of entries on all the day lists.
pub open spec fn entries(lists: Seq<Seq<EmployeeView>>) -> int {
    (lists[0].len() + lists[1].len() + lists[2].len() + lists[3].len() + lists[4].len()) as int
}

/// One employee's turn: among the table's combinations for `key` days that avoid the
/// employee's fixed days, one with the least score is given (none when there is none).
pub open spec fn step_ok(
    before: Seq<Seq<EmployeeView>>,
    after: Seq<Seq<EmployeeView>>,
    e: EmployeeView,
    key: int,
    records: Seq<[bool; 5]>,
    mentor_days: Seq<Weekday>,
) -> bool {
    let allowed = allowed_combos(table_combos(key), e.fixed_days);
    if allowed.len() == 0 {
        after == before
    } else {
        exists|c: Seq<Weekday>| #[trigger] allowed.contains(c)
            && is_best(lens(before), c, allowed, freq8_of(records), mentor_days)
            && after == add_days(before, e, c)
    }
}

proof fn lemma_table_small(n: int)
    ensures
        forall|j: int| 0 <= j < table_combos(n).len() ==> (#[trigger] table_combos(n)[j]).len() <= 5,
{
}

proof fn lemma_add_days_shape(lists: Seq<Seq<EmployeeView>>, e: EmployeeView, c: Seq<Weekday>)
    requires
        lists.len() == 5,
    ensures
        add_days(lists, e, c).len() == 5,
        entries(add_days(lists, e, c)) == entries(lists) + c.len(),
        forall|d: int| 0 <= d < 5 ==> (#[trigger] add_days(lists, e, c)[d]).len() >= lists[d].len(),
    decreases c.len(),
{
    if c.len() > 0 {
        lemma_add_days_shape(lists, e, c.drop_last());
    }
}

/// The three passes over the flexible employees, in the order they are made.
#[derive(Clone, Copy, Debug, PartialEq, Eq, Structural)]
pub enum Phase {
    /// Mentors first.
    Mentors,
    /// Then mentees (who are not mentors), who can then be placed near their mentor.
    Mentees,
    /// Then everybody else.
    Others,
}

/// Whether the employee is handled in the given pass.
pub open spec fn in_phase(e: EmployeeView, p: Phase) -> bool {
    match p {
        Phase::Mentors => e.is_mentor,
        Phase::Mentees => !e.is_mentor && e.is_mentee,
        Phase::Others => !e.is_mentor && !e.is_mentee,
    }
}

/// The number of office days still to give an employee beyond the fixed ones.
pub open spec fn remaining(e: EmployeeView) -> int {
    e.required_days - e.fixed_days.len()
}

/// The turns of a pass: for each group (by number of days still needed) in order, its
/// employees of that pass, in the group's order.
pub open spec fn phase_jobs(groups: Seq<(i32, Seq<EmployeeView>)>, p: Phase) -> Seq<(EmployeeView, int)>
    decreases groups.len(),
{
    if groups.len() == 0 {
        Seq::empty()
    } else {
        let g = groups.last();
        phase_jobs(groups.drop_last(), p) + g.1.filter(|e: EmployeeView| in_phase(e, p)).map_values(
            |e: EmployeeView| (e, g.0 as int),
        )
    }
}

/// On weekday `w`, an employee with id `m` is listed who is a mentor, or `m` is the id of a
/// mentor whose days were all fixed.
pub open spec fn mentor_day(lists: Seq<Seq<EmployeeView>>, fixed_mentor_ids: Seq<i32>, m: i32, w: Weekday) -> bool {
    exists|k: int| 0 <= k < lists[w.spec_index()].len() && (#[trigger] lists[w.spec_index()][k]).id == m
        && (lists[w.spec_index()][k].is_mentor || fixed_mentor_ids.contains(m))
}

/// The mentor's office days, Monday first.
pub open spec fn mentor_days_of(lists: Seq<Seq<EmployeeView>>, fixed_mentor_ids: Seq<i32>, m: i32) -> Seq<Weekday> {
    all_weekdays().filter(|w: Weekday| mentor_day(lists, fixed_mentor_ids, m, w))
}

/// The days that count as the mentor's for an employee's turn.
pub open spec fn job_mentor_days(
    e: EmployeeView,
    mentor_lists: Seq<Seq<EmployeeView>>,
    fixed_mentor_ids: Seq<i32>,
    use_mentors: bool,
) -> Seq<Weekday> {
    if use_mentors && e.is_mentee && e.mentor_id is Some {
        mentor_days_of(mentor_lists, fixed_mentor_ids, e.mentor_id->0)
    } else {
        Seq::empty()
    }
}

/// `states` is a trace of the turns `jobs`, from `before` to `after`: each turn leads from one
/// state to the next as [`step_ok`] says.
pub open spec fn trace_ok(
    states: Seq<Seq<Seq<EmployeeView>>>,
    before: Seq<Seq<EmployeeView>>,
    after: Seq<Seq<EmployeeView>>,
    jobs: Seq<(EmployeeView, int)>,
    past: PastSchedules,
    mentor_lists: Seq<Seq<EmployeeView>>,
    fixed_mentor_ids: Seq<i32>,
    use_mentors: bool,
) -> bool {
    &&& states.len() == jobs.len() + 1
    &&& states[0] == before
    &&& states.last() == after
    &&& forall|i: int| 0 <= i < jobs.len() ==> step_ok(#[trigger] states[i], states[i + 1], jobs[i].0, jobs[i].1,
        past.past_records(jobs[i].0.id), job_mentor_days(jobs[i].0, mentor_lists, fixed_mentor_ids, use_mentors))
}

/// A run of the turns `jobs` leads from `before` to `after`.
pub open spec fn run_ok(
    before: Seq<Seq<EmployeeView>>,
    after: Seq<Seq<EmployeeView>>,
    jobs: Seq<(EmployeeView, int)>,
    past: PastSchedules,
    mentor_lists: Seq<Seq<EmployeeView>>,
    fixed_mentor_ids: Seq<i32>,
    use_mentors: bool,
) -> bool {
    exists|states: Seq<Seq<Seq<EmployeeView>>>| #[trigger] trace_ok(states, before, after, jobs, past, mentor_lists,
        fixed_mentor_ids, use_mentors)
}

/// The map from mentor id to mentor days agrees with [`mentor_day`] (and is empty when
/// mentors are not used).
pub open spec fn mentor_map_ok(
    map: Map<i32, Vec<Weekday>>,
    mentor_lists: Seq<Seq<EmployeeView>>,
    fixed_mentor_ids: Seq<i32>,
    use_mentors: bool,
) -> bool {
    &&& !use_mentors ==> map == Map::<i32, Vec<Weekday>>::empty()
    &&& forall|m: i32| #[trigger] map.contains_key(m) ==> forall|w: Weekday|
        map[m]@.contains(w) <==> mentor_day(mentor_lists, fixed_mentor_ids, m, w)
    &&& forall|m: i32, w: Weekday| !map.contains_key(m) && use_mentors ==> !mentor_day(mentor_lists, fixed_mentor_ids, m, w)
}

proof fn lemma_matches_same_days(a: Seq<Weekday>, b: Seq<Weekday>, c: Seq<Weekday>)
    requires
        forall|w: Weekday| a.contains(w) <==> b.contains(w),
    ensures
        mentor_matches(a, c) == mentor_matches(b, c),
    decreases c.len(),
{
    if c.len() > 0 {
        lemma_matches_same_days(a, b, c.drop_last());
    }
}

proof fn lemma_mentor_days_of_contains(lists: Seq<Seq<EmployeeView>>, ids: Seq<i32>, m: i32)
    ensures
        forall|w: Weekday| mentor_days_of(lists, ids, m).contains(w) <==> mentor_day(lists, ids, m, w),
{
    let pred = |w: Weekday| mentor_day(lists, ids, m, w);
    assert forall|w: Weekday| mentor_days_of(lists, ids, m).contains(w) <==> mentor_day(lists, ids, m, w) by {
        if mentor_days_of(lists, ids, m).contains(w) {
            all_weekdays().lemma_filter_contains_rev(pred, w);
            let k = choose|k: int| 0 <= k < mentor_days_of(lists, ids, m).len() && mentor_days_of(lists, ids, m)[k] == w;
            all_weekdays().lemma_filter_pred(pred, k);
        }
        if mentor_day(lists, ids, m, w) {
            assert(all_weekdays()[w.spec_index()] == w);
            all_weekdays().lemma_filter_contains(pred, w.spec_index());
        }
    }
}

proof fn lemma_step_same_mentor_days(
    before: Seq<Seq<EmployeeView>>,
    after: Seq<Seq<EmployeeView>>,
    e: EmployeeView,
    key: int,
    records: Seq<[bool; 5]>,
    a: Seq<Weekday>,
    b: Seq<Weekday>,
)
    requires
        step_ok(before, after, e, key, records, a),
        forall|w: Weekday| a.contains(w) <==> b.contains(w),
    ensures
        step_ok(before, after, e, key, records, b),
{
    let allowed = allowed_combos(table_combos(key), e.fixed_days);
    if allowed.len() > 0 {
        let c = choose|c: Seq<Weekday>| #[trigger] allowed.contains(c)
            && is_best(lens(before), c, allowed, freq8_of(records), a) && after == add_days(before, e, c);
        lemma_matches_same_days(a, b, c);
        assert forall|j: int| 0 <= j < allowed.len() implies combo_score(lens(before), c, freq8_of(records), b)
            <= #[trigger] combo_score(lens(before), allowed[j], freq8_of(records), b) by {
            lemma_matches_same_days(a, b, allowed[j]);
            assert(combo_score(lens(before), c, freq8_of(records), a) <= combo_score(lens(before), allowed[j], freq8_of(records), a));
        }
    }
}

proof fn lemma_trace_push(
    states: Seq<Seq<Seq<EmployeeView>>>,
    before: Seq<Seq<EmployeeView>>,
    mid: Seq<Seq<EmployeeView>>,
    after: Seq<Seq<EmployeeView>>,
    jobs: Seq<(EmployeeView, int)>,
    job: (EmployeeView, int),
    past: PastSchedules,
    mentor_lists: Seq<Seq<EmployeeView>>,
    fixed_mentor_ids: Seq<i32>,
    use_mentors: bool,
)
    requires
        trace_ok(states, before, mid, jobs, past, mentor_lists, fixed_mentor_ids, use_mentors),
        step_ok(mid, after, job.0, job.1, past.past_records(job.0.id),
            job_mentor_days(job.0, mentor_lists, fixed_mentor_ids, use_mentors)),
    ensures
        trace_ok(states.push(after), before, after, jobs.push(job), past, mentor_lists, fixed_mentor_ids, use_mentors),
{
    let s2 = states.push(after);
    let j2 = jobs.push(job);
    assert forall|i: int| 0 <= i < j2.len() implies step_ok(#[trigger] s2[i], s2[i + 1], j2[i].0, j2[i].1,
        past.past_records(j2[i].0.id), job_mentor_days(j2[i].0, mentor_lists, fixed_mentor_ids, use_mentors)) by {
        if i < jobs.len() {
            assert(s2[i] == states[i]);
            assert(s2[i + 1] == states[i + 1]);
            assert(j2[i] == jobs[i]);
        } else {
            assert(s2[i] == mid);
        }
    }
}

/// The employees of a list, as values.
pub open spec fn day_view_emps(v: Seq<Employee>) -> Seq<EmployeeView> {
    v.map_values(|e: Employee| e@)
}

/// The groups, as values.
pub open spec fn groups_view(g: Seq<(i32, Vec<Employee>)>) -> Seq<(i32, Seq<EmployeeView>)> {
    g.map_values(|p: (i32, Vec<Employee>)| (p.0, day_view_emps(p.1@)))
}

proof fn lemma_phase_jobs_take(groups: Seq<(i32, Seq<EmployeeView>)>, p: Phase, i: int)
    requires
        0 <= i <= groups.len(),
    ensures
        phase_jobs(groups.take(i), p).len() <= phase_jobs(groups, p).len(),
    decreases groups.len(),
{
    if i < groups.len() {
        assert(groups.drop_last().take(i) =~= groups.take(i));
        lemma_phase_jobs_take(groups.drop_last(), p, i);
    } else {
        assert(groups.take(i) =~= groups);
    }
}

fn in_phase_exec(e: &Employee, p: Phase) -> (r: bool)
    ensures
        r == in_phase(e@, p),
{
    match p {
        Phase::Mentors => e.is_mentor,
        Phase::Mentees => !e.is_mentor && e.is_mentee,
        Phase::Others => !e.is_mentor && !e.is_mentee,
    }
}

fn use_mentors_exec(e: &Employee) -> (r: bool)
    ensures
        r == e.is_mentee,
{
    e.is_mentee
}

/// The day lists once each employee in turn is added on each of their fixed days.
pub open spec fn fixed_fold(lists: Seq<Seq<EmployeeView>>, emps: Seq<EmployeeView>) -> Seq<Seq<EmployeeView>>
    decreases emps.len(),
{
    if emps.len() == 0 {
        lists
    } else {
        add_days(fixed_fold(lists, emps.drop_last()), emps.last(), emps.last().fixed_days)
    }
}

/// The number of fixed days over all the employees.
pub open spec fn total_fixed(emps: Seq<EmployeeView>) -> int
    decreases emps.len(),
{
    if emps.len() == 0 {
        0
    } else {
        total_fixed(emps.drop_last()) + emps.last().fixed_days.len()
    }
}

/// The employee needs more office days than their fixed ones (a negative number of required
/// days counts as more, as it does when it is read as an unsigned size).
pub open spec fn is_flexible(e: EmployeeView) -> bool {
    e.required_days < 0 || e.required_days > e.fixed_days.len()
}

/// The employees who need more office days than their fixed ones, in order.
pub open spec fn flexible_of(emps: Seq<EmployeeView>) -> Seq<EmployeeView> {
    emps.filter(|e: EmployeeView| is_flexible(e))
}

/// Five empty day lists.
pub open spec fn empty_lists() -> Seq<Seq<EmployeeView>> {
    Seq::new(5, |d: int| Seq::<EmployeeView>::empty())
}

/// The ids of the mentors on a list, in order.
pub open spec fn mentor_ids(emps: Seq<EmployeeView>) -> Seq<i32> {
    emps.filter(|e: EmployeeView| e.is_mentor).map_values(|e: EmployeeView| e.id)
}

/// The ids of the mentors whose office days are all fixed.
pub open spec fn fixed_mentor_ids(emps: Seq<EmployeeView>) -> Seq<i32> {
    mentor_ids(emps.filter(|e: EmployeeView| !is_flexible(e)))
}

/// What `generate_schedule` promises of the schedule it returns, whatever the random orders:
/// the month and the employees it was made for; then, from the fixed days of every
/// employee, three passes over the employees who need more days (grouped by how many, the
/// largest number first, each group in some order): mentors, then mentees (scored against
/// their mentor's days as they stand after the first pass), then everybody else. In each
/// turn the employee gets, among the table's combinations for the days they still need
/// that avoid their fixed days, one with the least score.
pub open spec fn schedule_ok(
    emps: Seq<EmployeeView>,
    past: PastSchedules,
    year: i32,
    month: u32,
    r: crate::schedule::MonthlyScheduleView,
) -> bool {
    &&& r.year == year
    &&& r.month == month
    &&& r.included_employees == emps.map_values(|e: EmployeeView| e.id)
    &&& r.days.len() == 5
    &&& exists|groups: Seq<(i32, Seq<EmployeeView>)>, mid: Seq<Seq<EmployeeView>>|
        #[trigger] grouping_ok(flexible_of(emps), groups)
        && #[trigger] run_ok(fixed_fold(empty_lists(), emps), mid, phase_jobs(groups, Phase::Mentors), past,
            Seq::empty(), Seq::empty(), false)
        && run_ok(mid, r.days, phase_jobs(groups, Phase::Mentees) + phase_jobs(groups, Phase::Others), past,
            mid, fixed_mentor_ids(emps), true)
}

/// The sum of the group sizes.
pub open spec fn groups_len(groups: Seq<(i32, Seq<EmployeeView>)>) -> int
    decreases groups.len(),
{
    if groups.len() == 0 {
        0
    } else {
        groups_len(groups.drop_last()) + groups.last().1.len()
    }
}

/// The groups hold the employees who need more office days, one group per number of days
/// still needed, largest first, each group holding (in some order) exactly the employees
/// who need that many.
pub open spec fn grouping_ok(emps: Seq<EmployeeView>, groups: Seq<(i32, Seq<EmployeeView>)>) -> bool {
    &&& forall|i: int, j: int| 0 <= i < j < groups.len() ==> (#[trigger] groups[i]).0 > (#[trigger] groups[j]).0
    &&& forall|i: int| 0 <= i < groups.len() ==> (#[trigger] groups[i]).0 > 0
        && groups[i].1.to_multiset() == emps.filter(|e: EmployeeView| remaining(e) == groups[i].0).to_multiset()
    &&& forall|k: int| 0 <= k < emps.len() && remaining(#[trigger] emps[k]) > 0 ==> exists|i: int| 0 <= i < groups.len() && (#[trigger] groups[i]).0 == remaining(emps[k])
    &&& groups_len(groups) <= emps.len()
}

/// The sizes of the input are small enough for the arithmetic of the engine.
pub open spec fn input_in_range(emps: Seq<EmployeeView>) -> bool {
    &&& forall|k: int| 0 <= k < emps.len() ==> (#[trigger] emps[k]).fixed_days.len() <= i32::MAX
    &&& forall|k: int| 0 <= k < emps.len() ==> remaining(#[trigger] emps[k]) >= i32::MIN
    &&& total_fixed(emps) + 15 * emps.len() < COUNT_LIMIT
}

proof fn lemma_total_fixed_take(emps: Seq<EmployeeView>, i: int)
    requires
        0 <= i < emps.len(),
    ensures
        total_fixed(emps.take(i + 1)) == total_fixed(emps.take(i)) + emps[i].fixed_days.len(),
        total_fixed(emps.take(i)) <= total_fixed(emps),
    decreases emps.len(),
{
    assert(emps.take(i + 1).drop_last() =~= emps.take(i));
    if i + 1 < emps.len() {
        lemma_total_fixed_take(emps.drop_last(), i);
        assert(emps.drop_last().take(i) =~= emps.take(i));
        assert(emps.drop_last().take(i + 1) =~= emps.take(i + 1));
    } else {
        assert(emps.take(i + 1) =~= emps);
    }
}

proof fn lemma_groups_len_update(gs: Seq<(i32, Seq<EmployeeView>)>, g: int, ng: (i32, Seq<EmployeeView>))
    requires
        0 <= g < gs.len(),
    ensures
        groups_len(gs.update(g, ng)) == groups_len(gs) - gs[g].1.len() + ng.1.len(),
    decreases gs.len(),
{
    if g == gs.len() - 1 {
        assert(gs.update(g, ng).drop_last() =~= gs.drop_last());
    } else {
        lemma_groups_len_update(gs.drop_last(), g, ng);
        assert(gs.update(g, ng).drop_last() =~= gs.drop_last().update(g, ng));
    }
}

proof fn lemma_groups_len_insert(gs: Seq<(i32, Seq<EmployeeView>)>, g: int, ng: (i32, Seq<EmployeeView>))
    requires
        0 <= g <= gs.len(),
    ensures
        groups_len(gs.insert(g, ng)) == groups_len(gs) + ng.1.len(),
    decreases gs.len(),
{
    if g == gs.len() {
        assert(gs.insert(g, ng).drop_last() =~= gs);
    } else {
        lemma_groups_len_insert(gs.drop_last(), g, ng);
        assert(gs.insert(g, ng).drop_last() =~= gs.drop_last().insert(g, ng));
    }
}

proof fn lemma_groups_len_same(a: Seq<(i32, Seq<EmployeeView>)>, b: Seq<(i32, Seq<EmployeeView>)>)
    requires
        a.len() == b.len(),
        forall|g: int| 0 <= g < a.len() ==> (#[trigger] a[g]).1.len() == b[g].1.len(),
    ensures
        groups_len(a) == groups_len(b),
    decreases a.len(),
{
    if a.len() > 0 {
        lemma_groups_len_same(a.drop_last(), b.drop_last());
    }
}

proof fn lemma_phase_jobs_len(groups: Seq<(i32, Seq<EmployeeView>)>, p: Phase)
    ensures
        phase_jobs(groups, p).len() <= groups_len(groups),
    decreases groups.len(),
{
    if groups.len() > 0 {
        lemma_phase_jobs_len(groups.drop_last(), p);
        let g = groups.last();
        g.1.lemma_filter_len(|e: EmployeeView| in_phase(e, p));
    }
}

proof fn lemma_trace_concat(
    s1: Seq<Seq<Seq<EmployeeView>>>,
    s2: Seq<Seq<Seq<EmployeeView>>>,
    a: Seq<Seq<EmployeeView>>,
    b: Seq<Seq<EmployeeView>>,
    c: Seq<Seq<EmployeeView>>,
    j1: Seq<(EmployeeView, int)>,
    j2: Seq<(EmployeeView, int)>,
    past: PastSchedules,
    mentor_lists: Seq<Seq<EmployeeView>>,
    ids: Seq<i32>,
    use_mentors: bool,
)
    requires
        trace_ok(s1, a, b, j1, past, mentor_lists, ids, use_mentors),
        trace_ok(s2, b, c, j2, past, mentor_lists, ids, use_mentors),
    ensures
        trace_ok(s1 + s2.drop_first(), a, c, j1 + j2, past, mentor_lists, ids, use_mentors),
{
    let s = s1 + s2.drop_first();
    let j = j1 + j2;
    assert forall|i: int| 0 <= i < j.len() implies step_ok(#[trigger] s[i], s[i + 1], j[i].0, j[i].1,
        past.past_records(j[i].0.id), job_mentor_days(j[i].0, mentor_lists, ids, use_mentors)) by {
        if i < j1.len() {
            assert(s[i] == s1[i]);
            if i + 1 < s1.len() {
                assert(s[i + 1] == s1[i + 1]);
            } else {
                assert(s1[i + 1] == b);
                assert(s2[0] == b);
            }
            assert(j[i] == j1[i]);
        } else {
            let k = i - j1.len();
            assert(j[i] == j2[k]);
            if k == 0 {
                assert(s[i] == s1.last());
                assert(s2[0] == b);
            } else {
                assert(s[i] == s2[k]);
            }
            assert(s[i + 1] == s2[k + 1]);
        }
    }
    if j2.len() == 0 {
        assert(s2.drop_first().len() == 0);
        assert(s =~= s1);
    } else {
        assert(s.last() == s2.last());
    }
}

/// Picks, for each employee in turn, the office days that keep the week balanced.
pub struct Engine {
    generator: ScheduleGenerator,
}

/// The position of the first combination with the least score.
fn select_best(combos: &[DayCombination], counts: &[usize], freq8: &[u64], mentor_days: &[Weekday]) -> (r: usize)
    requires
        combos@.len() > 0,
        tallies_in_range(counts@),
        forall|j: int| 0 <= j < combos@.len() ==> (#[trigger] combos@[j]).days@.len() < COMBO_LIMIT,
        freq8@.len() == 5,
        forall|d: int| 0 <= d < 5 ==> #[trigger] freq8@[d] <= 13,
    ensures
        r < combos@.len(),
        forall|j: int| 0 <= j < combos@.len() ==> combo_score(usize_ints(counts@), combos@[r as int].days@, freq8@, mentor_days@)
            <= #[trigger] combo_score(usize_ints(counts@), combos@[j].days@, freq8@, mentor_days@),
        forall|j: int| 0 <= j < r ==> combo_score(usize_ints(counts@), combos@[r as int].days@, freq8@, mentor_days@)
            < #[trigger] combo_score(usize_ints(counts@), combos@[j].days@, freq8@, mentor_days@),
{
    let mut best: usize = 0;
    let mut min_score = score_of(&combos[0], counts, freq8, mentor_days);
    let mut i: usize = 1;
    while i < combos.len()
        invariant
            1 <= i <= combos@.len(),
            best < i,
            tallies_in_range(counts@),
            forall|j: int| 0 <= j < combos@.len() ==> (#[trigger] combos@[j]).days@.len() < COMBO_LIMIT,
            freq8@.len() == 5,
            forall|d: int| 0 <= d < 5 ==> #[trigger] freq8@[d] <= 13,
            min_score == combo_score(usize_ints(counts@), combos@[best as int].days@, freq8@, mentor_days@),
            forall|j: int| 0 <= j < i ==> min_score <= #[trigger] combo_score(usize_ints(counts@), combos@[j].days@, freq8@, mentor_days@),
            forall|j: int| 0 <= j < best ==> min_score < #[trigger] combo_score(usize_ints(counts@), combos@[j].days@, freq8@, mentor_days@),
        decreases combos.len() - i,
    {
        let s = score_of(&combos[i], counts, freq8, mentor_days);
        if s < min_score {
            min_score = s;
            best = i;
        }
        i = i + 1;
    }
    best
}

impl Engine {
    /// The engine holds the table of day combinations.
    pub closed spec fn wf(&self) -> bool {
        self.generator.holds_table()
    }

    /// An engine with the standard table of day combinations.
    pub fn new() -> (r: Self)
        ensures
            r.wf(),
    {
        Engine { generator: ScheduleGenerator::new() }
    }

    /// The sum of the squared deviations of the day tallies from their mean, as an exact
    /// fraction `(numerator, denominator)`: the numerator is [`spread`] of the tallies, that
    /// is the sum of `(n·v − total)²`, and the denominator `n²`, where `n` is how many tallies
    /// there are; no tallies give 0 (over 1). The tallies are those of some of the weekdays, in
    /// any order.
    pub fn calculate_variance(&self, counts: &[usize]) -> (r: (i128, u64))
        requires
            counts@.len() <= 5,
            forall|d: int| 0 <= d < counts@.len() ==> #[trigger] counts@[d] < COUNT_LIMIT,
        ensures
            r.0 == spread(usize_ints(counts@)),
            r.1 == if counts@.len() == 0 { 1 } else { counts@.len() * counts@.len() },
    {
        let ghost tv = usize_ints(counts@);
        let n: usize = counts.len();
        let mut total: u64 = 0;
        let mut i: usize = 0;
        while i < n
            invariant
                i <= n,
                n == counts@.len(),
                n <= 5,
                tv == usize_ints(counts@),
                forall|d: int| 0 <= d < n ==> #[trigger] counts@[d] < COUNT_LIMIT,
                total == sum(tv.take(i as int)),
                total <= i * COUNT_LIMIT,
            decreases n - i,
        {
            proof {
                assert(tv.take(i as int + 1).drop_last() =~= tv.take(i as int));
            }
            total = total + counts[i] as u64;
            i = i + 1;
        }
        proof {
            assert(tv.take(n as int) =~= tv);
        }
        let ghost t = sum(tv);
        let ghost sq = Seq::new(tv.len(), |k: int| (n * tv[k] - t) * (n * tv[k] - t));
        let mut acc: i128 = 0;
        let mut e: usize = 0;
        while e < n
            invariant
                e <= n,
                n == counts@.len(),
                n <= 5,
                tv == usize_ints(counts@),
                forall|d: int| 0 <= d < n ==> #[trigger] counts@[d] < COUNT_LIMIT,
                total == t,
                t == sum(tv),
                0 <= t <= 5 * COUNT_LIMIT,
                sq == Seq::new(tv.len(), |k: int| (n * tv[k] - t) * (n * tv[k] - t)),
                acc == sum(sq.take(e as int)),
                0 <= acc <= e * 0x1_0000_0000_0000_0000_0000,
            decreases n - e,
        {
            proof {
                assert(sq.take(e as int + 1).drop_last() =~= sq.take(e as int));
                assert((n as int) * (counts@[e as int] as int) <= 5 * COUNT_LIMIT) by (nonlinear_arith)
                    requires
                        n <= 5,
                        counts@[e as int] < COUNT_LIMIT,
                ;
            }
            let diff: i128 = (n as i128) * (counts[e] as i128) - (total as i128);
            proof {
                assert(-0x10_0000_0000 < diff < 0x10_0000_0000);
                assert(diff * diff <= 0x1_0000_0000_0000_0000_0000) by (nonlinear_arith)
                    requires
                        -0x10_0000_0000 < diff < 0x10_0000_0000,
                ;
                assert(diff * diff >= 0) by (nonlinear_arith);
            }
            acc = acc + diff * diff;
            e = e + 1;
        }
        proof {
            assert(sq.take(n as int) =~= sq);
        }
        assert((n as int) * (n as int) <= 25) by (nonlinear_arith)
            requires
                n <= 5,
        ;
        let den: u64 = if n == 0 { 1 } else { (n as u64) * (n as u64) };
        (acc, den)
    }

    /// 8 times the employee's past frequency on each weekday (see [`past_freq8`]).
    pub fn calculate_past_day_frequencies(&self, employee_id: i32, past_schedules: &PastSchedules) -> (r: Vec<u64>)
        ensures
            r@ == freq8_of(past_schedules.past_records(employee_id)),
            forall|d: int| 0 <= d < 5 ==> #[trigger] r@[d] <= 13,
    {
        let schedules = past_schedules.get_employee_past_schedules(employee_id, 2);
        let mut freq: Vec<u64> = Vec::new();
        let mut d: usize = 0;
        while d < 5
            invariant
                d <= 5,
                schedules@ == recent(past_schedules.past_records(employee_id), 2),
                freq@.len() == d,
                forall|j: int| 0 <= j < d ==> #[trigger] freq@[j] == past_freq8(past_schedules.past_records(employee_id), j),
                forall|j: int| 0 <= j < d ==> #[trigger] freq@[j] <= 13,
            decreases 5 - d,
        {
            let mut f: u64 = 0;
            if schedules.len() >= 1 && schedules[0][d] {
                f = f + 8;
            }
            if schedules.len() == 2 && schedules[1][d] {
                f = f + 5;
            }
            freq.push(f);
            d = d + 1;
        }
        assert(freq@ =~= freq8_of(past_schedules.past_records(employee_id)));
        freq
    }

    /// The combination with the least score for the employee, among the given ones in a random
    /// order; on a tie the one that comes first in that order.
    pub fn find_best_combination(
        &self,
        combinations: &[DayCombination],
        day_counts: &[usize],
        employee: &Employee,
        past_schedules: &PastSchedules,
        mentor_days: &[Weekday],
    ) -> (r: DayCombination)
        requires
            combinations@.len() > 0,
            tallies_in_range(day_counts@),
            forall|j: int| 0 <= j < combinations@.len() ==> (#[trigger] combinations@[j]).days@.len() < COMBO_LIMIT,
        ensures
            combos_view(combinations@).contains(r.days@),
            is_best(usize_ints(day_counts@), r.days@, combos_view(combinations@),
                freq8_of(past_schedules.past_records(employee.id)), mentor_days@),
    {
        let shuffled = shuffle_combinations(combinations);
        let freq = self.calculate_past_day_frequencies(employee.id, past_schedules);
        proof {
            broadcast use vstd::seq_lib::group_to_multiset_ensures;
            let a = combos_view(combinations@);
            let b = combos_view(shuffled@);
            assert forall|j: int| 0 <= j < shuffled@.len() implies (#[trigger] shuffled@[j]).days@.len() < COMBO_LIMIT by {
                assert(b.contains(b[j]));
                assert(b.to_multiset().count(b[j]) > 0);
                assert(a.contains(b[j]));
                let k = choose|k: int| 0 <= k < a.len() && a[k] == b[j];
                assert(combinations@[k].days@ == a[k]);
            }
        }
        let best = select_best(shuffled.as_slice(), day_counts, freq.as_slice(), mentor_days);
        let r = shuffled[best].clone();
        proof {
            broadcast use vstd::seq_lib::group_to_multiset_ensures;
            let a = combos_view(combinations@);
            let b = combos_view(shuffled@);
            assert(b[best as int] == r.days@);
            assert(b.contains(r.days@));
            assert(b.to_multiset().count(r.days@) > 0);
            assert forall|j: int| 0 <= j < a.len() implies combo_score(usize_ints(day_counts@), r.days@, freq@, mentor_days@)
                <= #[trigger] combo_score(usize_ints(day_counts@), a[j], freq@, mentor_days@) by {
                assert(a.contains(a[j]));
                assert(a.to_multiset().count(a[j]) > 0);
                assert(b.contains(a[j]));
                let k = choose|k: int| 0 <= k < b.len() && b[k] == a[j];
                assert(shuffled@[k].days@ == b[k]);
            }
        }
        r
    }

    /// The combinations that hold every one of the required days, in their order.
    pub fn filter_combinations_by_required_days(
        &self,
        combinations: &[DayCombination],
        required_days: &[Weekday],
    ) -> (r: Vec<DayCombination>)
        ensures
            combos_view(r@) == combos_view(combinations@).filter(|c: Seq<Weekday>| covers(c, required_days@)),
    {
        let mut out: Vec<DayCombination> = Vec::new();
        let ghost pred = |c: Seq<Weekday>| covers(c, required_days@);
        let mut i: usize = 0;
        while i < combinations.len()
            invariant
                i <= combinations@.len(),
                pred == (|c: Seq<Weekday>| covers(c, required_days@)),
                combos_view(out@) == combos_view(combinations@).take(i as int).filter(pred),
            decreases combinations.len() - i,
        {
            let c = &combinations[i];
            let mut all = true;
            let mut k: usize = 0;
            while k < required_days.len()
                invariant
                    k <= required_days@.len(),
                    all <==> forall|t: int| 0 <= t < k ==> c.days@.contains(#[trigger] required_days@[t]),
                decreases required_days.len() - k,
            {
                if !seq_contains(c.days.as_slice(), required_days[k]) {
                    all = false;
                }
                k = k + 1;
            }
            proof {
                reveal_with_fuel(Seq::filter, 1);
                assert(combos_view(combinations@).take(i as int + 1).drop_last() =~= combos_view(combinations@).take(i as int));
                assert(combos_view(combinations@)[i as int] == c.days@);
            }
            if all {
                let cc = c.clone();
                out.push(cc);
                proof {
                    assert(combos_view(out@) =~= combos_view(combinations@).take(i as int + 1).filter(pred));
                }
            }
            i = i + 1;
        }
        assert(combos_view(combinations@).take(combinations@.len() as int) =~= combos_view(combinations@));
        out
    }

    /// Gives `employee`, who needs `key` more office days, the best allowed combination.
    fn schedule_employee(
        &self,
        employee: &Employee,
        key: i32,
        schedule: &mut MonthlySchedule,
        day_counts: &mut Vec<usize>,
        past_schedules: &PastSchedules,
        mentor_days: &[Weekday],
    )
        requires
            self.wf(),
            old(schedule).wf(),
            usize_ints(old(day_counts)@) == lens(old(schedule)@.days),
            entries(old(schedule)@.days) + 5 < COUNT_LIMIT,
        ensures
            final(schedule).wf(),
            usize_ints(final(day_counts)@) == lens(final(schedule)@.days),
            entries(final(schedule)@.days) <= entries(old(schedule)@.days) + 5,
            step_ok(old(schedule)@.days, final(schedule)@.days, employee@, key as int,
                past_schedules.past_records(employee.id), mentor_days@),
            final(schedule).year == old(schedule).year,
            final(schedule).month == old(schedule).month,
            final(schedule).included_employees == old(schedule).included_employees,
    {
        let ghost before = schedule@.days;
        proof {
            lemma_table_small(key as int);
        }
        let combinations = match self.generator.get_combinations(key) {
            Some(c) => c,
            None => {
                proof {
                    assert(table_combos(key as int) =~= Seq::<Seq<Weekday>>::empty());
                    assert(allowed_combos(table_combos(key as int), employee.fixed_days@) =~= Seq::<Seq<Weekday>>::empty());
                }
                return;
            }
        };
        assert(combos_view(combinations@) == table_combos(key as int));
        // The combinations that avoid the employee's fixed days.
        let ghost pred = |c: Seq<Weekday>| avoids(c, employee.fixed_days@);
        let mut valid: Vec<DayCombination> = Vec::new();
        let mut i: usize = 0;
        while i < combinations.len()
            invariant
                i <= combinations@.len(),
                combos_view(combinations@) == table_combos(key as int),
                pred == (|c: Seq<Weekday>| avoids(c, employee.fixed_days@)),
                combos_view(valid@) == combos_view(combinations@).take(i as int).filter(pred),
            decreases combinations.len() - i,
        {
            let c = &combinations[i];
            let mut clash = false;
            let mut k: usize = 0;
            while k < c.days.len()
                invariant
                    k <= c.days@.len(),
                    clash <==> exists|t: int| 0 <= t < k && employee.fixed_days@.contains(#[trigger] c.days@[t]),
                decreases c.days.len() - k,
            {
                if employee.has_fixed_day(c.days[k]) {
                    clash = true;
                }
                k = k + 1;
            }
            proof {
                reveal_with_fuel(Seq::filter, 1);
                assert(combos_view(combinations@).take(i as int + 1).drop_last() =~= combos_view(combinations@).take(i as int));
                assert(combos_view(combinations@)[i as int] == c.days@);
                if clash {
                    let t = choose|t: int| 0 <= t < c.days@.len() && employee.fixed_days@.contains(#[trigger] c.days@[t]);
                    assert(!avoids(c.days@, employee.fixed_days@));
                }
            }
            if !clash {
                let cc = c.clone();
                valid.push(cc);
                proof {
                    assert(combos_view(valid@) =~= combos_view(combinations@).take(i as int + 1).filter(pred));
                }
            }
            i = i + 1;
        }
        proof {
            assert(combos_view(combinations@).take(combinations@.len() as int) =~= combos_view(combinations@));
            assert(combos_view(valid@) == allowed_combos(table_combos(key as int), employee.fixed_days@));
        }
        if valid.len() == 0 {
            return;
        }
        proof {
            let allowed = allowed_combos(table_combos(key as int), employee.fixed_days@);
            assert forall|j: int| 0 <= j < valid@.len() implies (#[trigger] valid@[j]).days@.len() < COMBO_LIMIT by {
                assert(allowed[j] == valid@[j].days@);
                assert(table_combos(key as int).filter(pred).contains(allowed[j]));
                table_combos(key as int).lemma_filter_contains_rev(pred, allowed[j]);
            }
            assert(before.len() == 5);
            assert(usize_ints(day_counts@).len() == day_counts@.len());
            assert(day_counts@.len() == 5);
            assert forall|d: int| 0 <= d < 5 implies #[trigger] day_counts@[d] < COUNT_LIMIT by {
                assert(usize_ints(day_counts@)[d] == before[d].len());
            }
        }
        let best = self.find_best_combination(valid.as_slice(), day_counts.as_slice(), employee, past_schedules, mentor_days);
        let ghost chosen = best.days@;
        proof {
            let allowed = allowed_combos(table_combos(key as int), employee.fixed_days@);
            table_combos(key as int).lemma_filter_contains_rev(pred, chosen);
            let j = choose|j: int| 0 <= j < table_combos(key as int).len() && table_combos(key as int)[j] == chosen;
            assert(chosen.len() <= 5);
        }
        self.add_days_exec(employee, &best.days, schedule, day_counts);
    }

    /// Adds a copy of `employee` to the list of each day of `days`, in order, and counts it.
    fn add_days_exec(
        &self,
        employee: &Employee,
        days: &Vec<Weekday>,
        schedule: &mut MonthlySchedule,
        day_counts: &mut Vec<usize>,
    )
        requires
            old(schedule).wf(),
            usize_ints(old(day_counts)@) == lens(old(schedule)@.days),
            entries(old(schedule)@.days) + days@.len() < COUNT_LIMIT,
        ensures
            final(schedule).wf(),
            usize_ints(final(day_counts)@) == lens(final(schedule)@.days),
            final(schedule)@.days == add_days(old(schedule)@.days, employee@, days@),
            entries(final(schedule)@.days) == entries(old(schedule)@.days) + days@.len(),
            final(schedule).year == old(schedule).year,
            final(schedule).month == old(schedule).month,
            final(schedule).included_employees == old(schedule).included_employees,
    {
        let ghost before = schedule@.days;
        let ghost chosen = days@;
        let mut k: usize = 0;
        while k < days.len()
            invariant
                k <= days@.len(),
                days@ == chosen,
                schedule.wf(),
                before.len() == 5,
                schedule@.days == add_days(before, employee@, chosen.take(k as int)),
                usize_ints(day_counts@) == lens(schedule@.days),
                entries(before) + chosen.len() < COUNT_LIMIT,
                schedule.year == old(schedule).year,
                schedule.month == old(schedule).month,
                schedule.included_employees == old(schedule).included_employees,
            decreases days.len() - k,
        {
            let day = days[k];
            let di = day.index();
            proof {
                assert(chosen.take(k as int + 1).drop_last() =~= chosen.take(k as int));
                lemma_add_days_shape(before, employee@, chosen.take(k as int));
                assert(entries(schedule@.days) == entries(before) + k);
                assert(schedule@.days.len() == 5);
                assert(usize_ints(day_counts@).len() == day_counts@.len());
                assert(day_counts@.len() == 5);
                assert(usize_ints(day_counts@)[di as int] == schedule@.days[di as int].len());
                assert(schedule@.days[di as int].len() < COUNT_LIMIT);
                assert(day_counts@[di as int] < COUNT_LIMIT);
            }
            let ghost counts_before = day_counts@;
            let ghost lists_before = schedule@.days;
            let n = day_counts[di];
            day_counts.set(di, n + 1);
            schedule.add_employee(day, employee.clone());
            proof {
                assert(schedule@.days.len() == 5);
                assert forall|e: int| 0 <= e < 5 implies #[trigger] usize_ints(day_counts@)[e] == lens(schedule@.days)[e] by {
                    assert(usize_ints(counts_before)[e] == lists_before[e].len());
                    if e == di {
                        assert(schedule@.days[e] == lists_before[e].push(employee@));
                    } else {
                        assert(schedule@.days[e] == lists_before[e]);
                    }
                }
                assert(usize_ints(day_counts@) =~= lens(schedule@.days));
            }
            k = k + 1;
        }
        proof {
            assert(chosen.take(chosen.len() as int) =~= chosen);
            lemma_add_days_shape(before, employee@, chosen);
        }
    }

    /// Adds each employee on each of their fixed days, and splits the employees into those who
    /// need more days (flexible) and the others, each list in input order.
    fn process_fixed_schedules(
        &self,
        employees: &[Employee],
        schedule: &mut MonthlySchedule,
        day_counts: &mut Vec<usize>,
    ) -> (r: (Vec<Employee>, Vec<Employee>))
        requires
            old(schedule).wf(),
            usize_ints(old(day_counts)@) == lens(old(schedule)@.days),
            entries(old(schedule)@.days) + total_fixed(day_view_emps(employees@)) < COUNT_LIMIT,
        ensures
            final(schedule).wf(),
            usize_ints(final(day_counts)@) == lens(final(schedule)@.days),
            final(schedule)@.days == fixed_fold(old(schedule)@.days, day_view_emps(employees@)),
            entries(final(schedule)@.days) == entries(old(schedule)@.days) + total_fixed(day_view_emps(employees@)),
            day_view_emps(r.0@) == day_view_emps(employees@).filter(|e: EmployeeView| is_flexible(e)),
            day_view_emps(r.1@) == day_view_emps(employees@).filter(|e: EmployeeView| !is_flexible(e)),
            final(schedule).year == old(schedule).year,
            final(schedule).month == old(schedule).month,
            final(schedule).included_employees == old(schedule).included_employees,
    {
        let ghost ev = day_view_emps(employees@);
        let ghost start = schedule@.days;
        let ghost flex = |e: EmployeeView| is_flexible(e);
        let ghost full = |e: EmployeeView| !is_flexible(e);
        let mut flexible: Vec<Employee> = Vec::new();
        let mut fully_scheduled: Vec<Employee> = Vec::new();
        let mut i: usize = 0;
        while i < employees.len()
            invariant
                i <= employees@.len(),
                ev == day_view_emps(employees@),
                flex == (|e: EmployeeView| is_flexible(e)),
                full == (|e: EmployeeView| !is_flexible(e)),
                schedule.wf(),
                start.len() == 5,
                usize_ints(day_counts@) == lens(schedule@.days),
                entries(start) + total_fixed(ev) < COUNT_LIMIT,
                schedule@.days == fixed_fold(start, ev.take(i as int)),
                entries(schedule@.days) == entries(start) + total_fixed(ev.take(i as int)),
                day_view_emps(flexible@) == ev.take(i as int).filter(flex),
                day_view_emps(fully_scheduled@) == ev.take(i as int).filter(full),
                schedule.year == old(schedule).year,
                schedule.month == old(schedule).month,
                schedule.included_employees == old(schedule).included_employees,
            decreases employees.len() - i,
        {
            let emp = &employees[i];
            proof {
                reveal_with_fuel(Seq::filter, 1);
                assert(ev.take(i as int + 1).drop_last() =~= ev.take(i as int));
                assert(ev[i as int] == emp@);
                lemma_total_fixed_take(ev, i as int);
                if i + 1 < ev.len() {
                    lemma_total_fixed_take(ev, i as int + 1);
                } else {
                    assert(ev.take(i as int + 1) =~= ev);
                }
            }
            self.add_days_exec(emp, &emp.fixed_days, schedule, day_counts);
            if emp.required_days < 0 || emp.required_days as usize > emp.fixed_days.len() {
                flexible.push(emp.clone());
                proof {
                    assert(day_view_emps(flexible@) =~= ev.take(i as int + 1).filter(flex));
                    assert(day_view_emps(fully_scheduled@) =~= ev.take(i as int + 1).filter(full));
                }
            } else {
                fully_scheduled.push(emp.clone());
                proof {
                    assert(day_view_emps(flexible@) =~= ev.take(i as int + 1).filter(flex));
                    assert(day_view_emps(fully_scheduled@) =~= ev.take(i as int + 1).filter(full));
                }
            }
            i = i + 1;
        }
        proof {
            assert(ev.take(employees@.len() as int) =~= ev);
        }
        (flexible, fully_scheduled)
    }

    /// Groups the employees who need more office days by how many they need, largest number
    /// first, each group in a random order.
    fn group_by_required_days(&self, employees: &[Employee]) -> (r: Vec<(i32, Vec<Employee>)>)
        requires
            forall|k: int| 0 <= k < employees@.len() ==> (#[trigger] employees@[k]).fixed_days@.len() <= i32::MAX,
            forall|k: int| 0 <= k < employees@.len() ==> remaining((#[trigger] employees@[k])@) >= i32::MIN,
        ensures
            grouping_ok(day_view_emps(employees@), groups_view(r@)),
    {
        let ghost ev = day_view_emps(employees@);
        let ghost pos = |e: EmployeeView| remaining(e) > 0;
        let mut grouped: Vec<(i32, Vec<Employee>)> = Vec::new();
        let mut i: usize = 0;
        while i < employees.len()
            invariant
                i <= employees@.len(),
                ev == day_view_emps(employees@),
                pos == (|e: EmployeeView| remaining(e) > 0),
                forall|k: int| 0 <= k < employees@.len() ==> (#[trigger] employees@[k]).fixed_days@.len() <= i32::MAX,
                forall|k: int| 0 <= k < employees@.len() ==> remaining((#[trigger] employees@[k])@) >= i32::MIN,
                forall|a: int, b: int| 0 <= a < b < grouped@.len() ==> (#[trigger] grouped@[a]).0 > (#[trigger] grouped@[b]).0,
                forall|g: int| 0 <= g < grouped@.len() ==> (#[trigger] grouped@[g]).0 > 0
                    && day_view_emps(grouped@[g].1@) == ev.take(i as int).filter(|e: EmployeeView| remaining(e) == grouped@[g].0),
                forall|k: int| 0 <= k < i && remaining(#[trigger] ev[k]) > 0 ==> exists|g: int| 0 <= g < grouped@.len() && (#[trigger] grouped@[g]).0 == remaining(ev[k]),
                groups_len(groups_view(grouped@)) == ev.take(i as int).filter(pos).len(),
            decreases employees.len() - i,
        {
            let emp = &employees[i];
            let rem: i32 = emp.required_days - emp.fixed_days.len() as i32;
            proof {
                reveal_with_fuel(Seq::filter, 1);
                assert(ev.take(i as int + 1).drop_last() =~= ev.take(i as int));
                assert(ev[i as int] == emp@);
                assert(rem == remaining(emp@));
            }
            if rem > 0 {
                let mut g: usize = 0;
                while g < grouped.len() && grouped[g].0 > rem
                    invariant
                        g <= grouped@.len(),
                        forall|a: int| 0 <= a < g ==> (#[trigger] grouped@[a]).0 > rem,
                    decreases grouped.len() - g,
                {
                    g = g + 1;
                }
                let ghost old_g = grouped@;
                if g < grouped.len() && grouped[g].0 == rem {
                    grouped[g].1.push(emp.clone());
                    proof {
                        assert(grouped@.len() == old_g.len());
                        assert forall|h: int| 0 <= h < grouped@.len() implies (#[trigger] grouped@[h]).0 > 0
                            && day_view_emps(grouped@[h].1@) == ev.take(i as int + 1).filter(|e: EmployeeView| remaining(e) == grouped@[h].0) by {
                            let ph = |e: EmployeeView| remaining(e) == grouped@[h].0;
                            assert(ev.take(i as int + 1) =~= ev.take(i as int).push(emp@));
                            if h == g {
                                assert(day_view_emps(grouped@[h].1@) =~= day_view_emps(old_g[h].1@).push(emp@));
                            } else {
                                assert(grouped@[h] == old_g[h]);
                                assert(old_g[h].0 != rem) by {
                                    if h < g {
                                    } else {
                                        assert(old_g[g as int].0 > old_g[h].0);
                                    }
                                }
                            }
                        }
                        assert(groups_view(grouped@) =~= groups_view(old_g).update(g as int, (rem, day_view_emps(grouped@[g as int].1@))));
                        lemma_groups_len_update(groups_view(old_g), g as int, (rem, day_view_emps(grouped@[g as int].1@)));
                        assert(ev.take(i as int + 1) =~= ev.take(i as int).push(emp@));
                        assert forall|k: int| 0 <= k < i + 1 && remaining(#[trigger] ev[k]) > 0 implies exists|h: int| 0 <= h < grouped@.len() && (#[trigger] grouped@[h]).0 == remaining(ev[k]) by {
                            if k == i {
                                assert(grouped@[g as int].0 == remaining(ev[k]));
                            } else {
                                let h = choose|h: int| 0 <= h < old_g.len() && (#[trigger] old_g[h]).0 == remaining(ev[k]);
                                assert(grouped@[h].0 == old_g[h].0);
                            }
                        }
                    }
                } else {
                    let mut v: Vec<Employee> = Vec::new();
                    v.push(emp.clone());
                    grouped.insert(g, (rem, v));
                    proof {
                        let ng = (rem, day_view_emps(v@));
                        assert(groups_view(grouped@) =~= groups_view(old_g).insert(g as int, ng));
                        lemma_groups_len_insert(groups_view(old_g), g as int, ng);
                        assert(ev.take(i as int + 1) =~= ev.take(i as int).push(emp@));
                        // No earlier employee needs `rem` days: otherwise a group would have that key.
                        assert forall|k: int| 0 <= k < i implies remaining(#[trigger] ev.take(i as int)[k]) != rem by {
                            assert(ev.take(i as int)[k] == ev[k]);
                            if remaining(ev[k]) == rem {
                                let h = choose|h: int| 0 <= h < old_g.len() && (#[trigger] old_g[h]).0 == remaining(ev[k]);
                                if h < g {
                                } else if h == g {
                                } else {
                                    assert(old_g[g as int].0 > old_g[h].0);
                                }
                            }
                        }
                        let pr = |e: EmployeeView| remaining(e) == rem;
                        ev.take(i as int).lemma_all_neg_filter_empty(pr);
                        assert forall|a: int, b: int| 0 <= a < b < grouped@.len() implies (#[trigger] grouped@[a]).0 > (#[trigger] grouped@[b]).0 by {
                            if a < g && b > g {
                                assert(grouped@[a] == old_g[a]);
                                assert(grouped@[b] == old_g[b - 1]);
                            }
                        }
                        assert forall|h: int| 0 <= h < grouped@.len() implies (#[trigger] grouped@[h]).0 > 0
                            && day_view_emps(grouped@[h].1@) == ev.take(i as int + 1).filter(|e: EmployeeView| remaining(e) == grouped@[h].0) by {
                            if h == g {
                                assert(day_view_emps(grouped@[h].1@) =~= seq![emp@]);
                                assert(ev.take(i as int).filter(pr) =~= Seq::<EmployeeView>::empty());
                            } else {
                                let oh = if h < g { h } else { h - 1 };
                                assert(grouped@[h] == old_g[oh]);
                                assert(old_g[oh].0 != rem);
                            }
                        }
                        assert forall|k: int| 0 <= k < i + 1 && remaining(#[trigger] ev[k]) > 0 implies exists|h: int| 0 <= h < grouped@.len() && (#[trigger] grouped@[h]).0 == remaining(ev[k]) by {
                            if k == i {
                                assert(grouped@[g as int].0 == remaining(ev[k]));
                            } else {
                                let h = choose|h: int| 0 <= h < old_g.len() && (#[trigger] old_g[h]).0 == remaining(ev[k]);
                                let nh = if h < g { h } else { h + 1 };
                                assert(grouped@[nh].0 == old_g[h].0);
                            }
                        }
                    }
                }
            } else {
                proof {
                    assert(ev.take(i as int + 1) =~= ev.take(i as int).push(emp@));
                    assert forall|h: int| 0 <= h < grouped@.len() implies (#[trigger] grouped@[h]).0 > 0
                        && day_view_emps(grouped@[h].1@) == ev.take(i as int + 1).filter(|e: EmployeeView| remaining(e) == grouped@[h].0) by {
                    }
                }
            }
            i = i + 1;
        }
        proof {
            assert(ev.take(employees@.len() as int) =~= ev);
            ev.lemma_filter_len(pos);
        }
        // Shuffle each group.
        let ghost unshuffled = grouped@;
        let mut g: usize = 0;
        while g < grouped.len()
            invariant
                g <= grouped@.len(),
                grouped@.len() == unshuffled.len(),
                forall|h: int| 0 <= h < grouped@.len() ==> (#[trigger] grouped@[h]).0 == unshuffled[h].0,
                forall|h: int| 0 <= h < grouped@.len() ==> day_view_emps((#[trigger] grouped@[h]).1@).to_multiset()
                    == day_view_emps(unshuffled[h].1@).to_multiset(),
                forall|h: int| 0 <= h < grouped@.len() ==> (#[trigger] grouped@[h]).1@.len() == unshuffled[h].1@.len(),
            decreases grouped.len() - g,
        {
            let ghost before_g = grouped@;
            shuffle_vec(&mut grouped[g].1);
            proof {
                crate::generator::lemma_map_multiset(before_g[g as int].1@, grouped@[g as int].1@, |e: Employee| e@);
                assert forall|h: int| 0 <= h < grouped@.len() && h != g implies #[trigger] grouped@[h] == before_g[h] by {}
            }
            g = g + 1;
        }
        proof {
            let gv = groups_view(grouped@);
            let uv = groups_view(unshuffled);
            lemma_groups_len_same(gv, uv);
            assert forall|h: int| 0 <= h < gv.len() implies (#[trigger] gv[h]).0 > 0
                && gv[h].1.to_multiset() == ev.filter(|e: EmployeeView| remaining(e) == gv[h].0).to_multiset() by {
                assert(gv[h].1 == day_view_emps(grouped@[h].1@));
                assert(uv[h].1 == day_view_emps(unshuffled[h].1@));
            }
            assert forall|a: int, b: int| 0 <= a < b < gv.len() implies (#[trigger] gv[a]).0 > (#[trigger] gv[b]).0 by {
                assert(unshuffled[a].0 > unshuffled[b].0);
            }
            assert forall|k: int| 0 <= k < ev.len() && remaining(#[trigger] ev[k]) > 0 implies exists|h: int| 0 <= h < gv.len() && (#[trigger] gv[h]).0 == remaining(ev[k]) by {
                let h = choose|h: int| 0 <= h < unshuffled.len() && (#[trigger] unshuffled[h]).0 == remaining(ev[k]);
                assert(gv[h].0 == unshuffled[h].0);
            }
        }
        grouped
    }

    #[verifier::rlimit(60)]
    /// Gives each employee of the pass `phase`, group by group and in each group's order, the
    /// best allowed combination for the days the group still needs.
    fn process_flexible_employees(
        &self,
        grouped: &Vec<(i32, Vec<Employee>)>,
        phase: Phase,
        schedule: &mut MonthlySchedule,
        day_counts: &mut Vec<usize>,
        past_schedules: &PastSchedules,
        mentor_schedules: &HashMap<i32, Vec<Weekday>>,
        Ghost(mentor_lists): Ghost<Seq<Seq<EmployeeView>>>,
        Ghost(fixed_mentor_ids): Ghost<Seq<i32>>,
        Ghost(use_mentors): Ghost<bool>,
    )
        requires
            self.wf(),
            old(schedule).wf(),
            usize_ints(old(day_counts)@) == lens(old(schedule)@.days),
            entries(old(schedule)@.days) + 5 * phase_jobs(groups_view(grouped@), phase).len() < COUNT_LIMIT,
            mentor_map_ok(mentor_schedules@, mentor_lists, fixed_mentor_ids, use_mentors),
        ensures
            final(schedule).wf(),
            usize_ints(final(day_counts)@) == lens(final(schedule)@.days),
            entries(final(schedule)@.days) <= entries(old(schedule)@.days) + 5 * phase_jobs(groups_view(grouped@), phase).len(),
            run_ok(old(schedule)@.days, final(schedule)@.days, phase_jobs(groups_view(grouped@), phase),
                *past_schedules, mentor_lists, fixed_mentor_ids, use_mentors),
            final(schedule).year == old(schedule).year,
            final(schedule).month == old(schedule).month,
            final(schedule).included_employees == old(schedule).included_employees,
    {
        let ghost start = schedule@.days;
        let ghost all_jobs = phase_jobs(groups_view(grouped@), phase);
        let ghost mut trace: Seq<Seq<Seq<EmployeeView>>> = seq![start];
        let mut i: usize = 0;
        while i < grouped.len()
            invariant
                i <= grouped@.len(),
                self.wf(),
                schedule.wf(),
                usize_ints(day_counts@) == lens(schedule@.days),
                all_jobs == phase_jobs(groups_view(grouped@), phase),
                entries(start) + 5 * all_jobs.len() < COUNT_LIMIT,
                phase_jobs(groups_view(grouped@).take(i as int), phase).len() <= all_jobs.len(),
                entries(schedule@.days) <= entries(start) + 5 * phase_jobs(groups_view(grouped@).take(i as int), phase).len(),
                mentor_map_ok(mentor_schedules@, mentor_lists, fixed_mentor_ids, use_mentors),
                trace_ok(trace, start, schedule@.days, phase_jobs(groups_view(grouped@).take(i as int), phase),
                    *past_schedules, mentor_lists, fixed_mentor_ids, use_mentors),
                schedule.year == old(schedule).year,
                schedule.month == old(schedule).month,
                schedule.included_employees == old(schedule).included_employees,
            decreases grouped.len() - i,
        {
            let key = grouped[i].0;
            let group = &grouped[i].1;
            let ghost gv = groups_view(grouped@);
            let ghost done = phase_jobs(gv.take(i as int), phase);
            let ghost pred = |e: EmployeeView| in_phase(e, phase);
            let ghost tag = |e: EmployeeView| (e, key as int);
            proof {
                lemma_phase_jobs_take(gv, phase, i as int + 1);
                assert(gv.take(i as int + 1).drop_last() =~= gv.take(i as int));
                assert(gv.take(i as int + 1).last() == gv[i as int]);
                assert(gv[i as int] == (key, day_view_emps(group@)));
                assert(phase_jobs(gv.take(i as int + 1), phase) == done + day_view_emps(group@).filter(pred).map_values(tag));
            }
            let mut j: usize = 0;
            while j < group.len()
                invariant
                    j <= group@.len(),
                    i < grouped@.len(),
                    self.wf(),
                    schedule.wf(),
                    gv == groups_view(grouped@),
                    gv[i as int] == (key, day_view_emps(group@)),
                    pred == (|e: EmployeeView| in_phase(e, phase)),
                    tag == (|e: EmployeeView| (e, key as int)),
                    usize_ints(day_counts@) == lens(schedule@.days),
                    all_jobs == phase_jobs(gv, phase),
                    entries(start) + 5 * all_jobs.len() < COUNT_LIMIT,
                    done.len() + day_view_emps(group@).filter(pred).len() <= all_jobs.len(),
                    phase_jobs(gv.take(i as int + 1), phase) == done + day_view_emps(group@).filter(pred).map_values(tag),
                    entries(schedule@.days) <= entries(start) + 5 * (done.len() + day_view_emps(group@).take(j as int).filter(pred).len()),
                    mentor_map_ok(mentor_schedules@, mentor_lists, fixed_mentor_ids, use_mentors),
                    trace_ok(trace, start, schedule@.days, done + day_view_emps(group@).take(j as int).filter(pred).map_values(tag),
                        *past_schedules, mentor_lists, fixed_mentor_ids, use_mentors),
                    schedule.year == old(schedule).year,
                    schedule.month == old(schedule).month,
                    schedule.included_employees == old(schedule).included_employees,
                decreases group.len() - j,
            {
                let emp = &group[j];
                let ghost gvs = day_view_emps(group@);
                let ghost prefix = gvs.take(j as int).filter(pred);
                proof {
                    reveal_with_fuel(Seq::filter, 1);
                    assert(gvs.take(j as int + 1).drop_last() =~= gvs.take(j as int));
                    assert(gvs[j as int] == emp@);
                    gvs.lemma_filter_take_len(pred, j as int + 1);
                    assert(gvs.take(j as int + 1).filter(pred).len() == prefix.len() + if pred(emp@) { 1int } else { 0int });
                }
                if in_phase_exec(emp, phase) {
                    let ghost cur = schedule@.days;
                    let mut mentor_days: &[Weekday] = &[];
                    if use_mentors_exec(emp) {
                        match emp.mentor_id {
                            Some(m) => {
                                match mentor_schedules.get(&m) {
                                    Some(days) => {
                                        mentor_days = days.as_slice();
                                    },
                                    None => {},
                                }
                            },
                            None => {},
                        }
                    }
                    proof {
                        lemma_mentor_days_of_contains(mentor_lists, fixed_mentor_ids, emp.mentor_id->0);
                        assert forall|w: Weekday| mentor_days@.contains(w) <==> job_mentor_days(emp@, mentor_lists, fixed_mentor_ids, use_mentors).contains(w) by {
                            if use_mentors && emp.is_mentee && emp.mentor_id is Some {
                                let m = emp.mentor_id->0;
                                if !mentor_schedules@.contains_key(m) {
                                    assert(!mentor_day(mentor_lists, fixed_mentor_ids, m, w));
                                }
                            }
                        }
                        assert(prefix.push(emp@) =~= gvs.take(j as int + 1).filter(pred));
                        assert(prefix.map_values(tag).push((emp@, key as int)) =~= prefix.push(emp@).map_values(tag));
                        assert((done + prefix.map_values(tag)).push((emp@, key as int)) =~= done + prefix.push(emp@).map_values(tag));
                    }
                    self.schedule_employee(emp, key, schedule, day_counts, past_schedules, mentor_days);
                    proof {
                        lemma_step_same_mentor_days(cur, schedule@.days, emp@, key as int, past_schedules.past_records(emp.id),
                            mentor_days@, job_mentor_days(emp@, mentor_lists, fixed_mentor_ids, use_mentors));
                        lemma_trace_push(trace, start, cur, schedule@.days, done + prefix.map_values(tag), (emp@, key as int),
                            *past_schedules, mentor_lists, fixed_mentor_ids, use_mentors);
                        trace = trace.push(schedule@.days);
                    }
                } else {
                    proof {
                        assert(prefix =~= gvs.take(j as int + 1).filter(pred));
                    }
                }
                j = j + 1;
            }
            proof {
                let gvs = day_view_emps(group@);
                assert(gvs.take(group@.len() as int) =~= gvs);
            }
            i = i + 1;
        }
        proof {
            assert(groups_view(grouped@).take(grouped@.len() as int) =~= groups_view(grouped@));
            assert(trace_ok(trace, start, schedule@.days, phase_jobs(groups_view(grouped@), phase),
                *past_schedules, mentor_lists, fixed_mentor_ids, use_mentors));
        }
    }

    /// The days of mentor `m`, Monday first (see [`mentor_days_of`]).
    fn mentor_days_exec(&self, schedule: &MonthlySchedule, ids: &Vec<i32>, m: i32) -> (r: Vec<Weekday>)
        requires
            schedule.wf(),
        ensures
            r@ == mentor_days_of(schedule@.days, ids@, m),
    {
        let ghost lists = schedule@.days;
        let mut fixed = false;
        let mut t: usize = 0;
        while t < ids.len()
            invariant
                t <= ids@.len(),
                fixed <==> ids@.take(t as int).contains(m),
            decreases ids.len() - t,
        {
            proof {
                assert(ids@.take(t as int + 1) =~= ids@.take(t as int).push(ids@[t as int]));
                assert(forall|y: i32| ids@.take(t as int).push(ids@[t as int]).contains(y)
                    ==> ids@.take(t as int).contains(y) || y == ids@[t as int]);
                assert(ids@.take(t as int).contains(m) ==> ids@.take(t as int + 1).contains(m));
                assert(ids@.take(t as int + 1)[t as int] == ids@[t as int]);
            }
            if ids[t] == m {
                fixed = true;
            }
            t = t + 1;
        }
        proof {
            assert(ids@.take(ids@.len() as int) =~= ids@);
        }
        let ghost pred = |w: Weekday| mentor_day(lists, ids@, m, w);
        let mut days: Vec<Weekday> = Vec::new();
        let mut d: usize = 0;
        while d < 5
            invariant
                d <= 5,
                schedule.wf(),
                lists == schedule@.days,
                fixed == ids@.contains(m),
                pred == (|w: Weekday| mentor_day(lists, ids@, m, w)),
                days@ == all_weekdays().take(d as int).filter(pred),
            decreases 5 - d,
        {
            let w = Weekday::from_index(d);
            let list = &schedule.schedules[d];
            let mut found = false;
            let mut k: usize = 0;
            while k < list.len()
                invariant
                    k <= list@.len(),
                    d < 5,
                    schedule.wf(),
                    lists == schedule@.days,
                    list == &schedule.schedules@[d as int],
                    fixed == ids@.contains(m),
                    found <==> exists|q: int| 0 <= q < k && (#[trigger] lists[d as int][q]).id == m
                        && (lists[d as int][q].is_mentor || ids@.contains(m)),
                decreases list.len() - k,
            {
                proof {
                    assert(lists[d as int][k as int] == list@[k as int]@);
                }
                if list[k].id == m && (list[k].is_mentor || fixed) {
                    found = true;
                }
                k = k + 1;
            }
            proof {
                reveal_with_fuel(Seq::filter, 1);
                assert(all_weekdays().take(d as int + 1).drop_last() =~= all_weekdays().take(d as int));
                assert(all_weekdays()[d as int] == w);
                assert(w.spec_index() == d);
                assert(found == mentor_day(lists, ids@, m, w));
            }
            if found {
                days.push(w);
            }
            d = d + 1;
        }
        assert(all_weekdays().take(5) =~= all_weekdays());
        days
    }

    /// For each mentor, the days they are in the office once the mentors have been placed:
    /// for a mentor whose days are all fixed, every day an employee with that id is listed;
    /// otherwise the days on which a mentor with that id is listed.
    fn build_mentor_schedules(&self, employees: &[Employee], schedule: &MonthlySchedule) -> (r: HashMap<i32, Vec<Weekday>>)
        requires
            schedule.wf(),
        ensures
            mentor_map_ok(r@, schedule@.days, mentor_ids(day_view_emps(employees@)), true),
    {
        let ghost ev = day_view_emps(employees@);
        let ghost ment = |e: EmployeeView| e.is_mentor;
        let mut ids: Vec<i32> = Vec::new();
        let mut i: usize = 0;
        while i < employees.len()
            invariant
                i <= employees@.len(),
                ev == day_view_emps(employees@),
                ment == (|e: EmployeeView| e.is_mentor),
                ids@ == ev.take(i as int).filter(ment).map_values(|e: EmployeeView| e.id),
            decreases employees.len() - i,
        {
            proof {
                reveal_with_fuel(Seq::filter, 1);
                assert(ev.take(i as int + 1).drop_last() =~= ev.take(i as int));
                assert(ev[i as int] == employees@[i as int]@);
            }
            if employees[i].is_mentor {
                ids.push(employees[i].id);
                proof {
                    assert(ids@ =~= ev.take(i as int + 1).filter(ment).map_values(|e: EmployeeView| e.id));
                }
            } else {
                proof {
                    assert(ids@ =~= ev.take(i as int + 1).filter(ment).map_values(|e: EmployeeView| e.id));
                }
            }
            i = i + 1;
        }
        proof {
            assert(ev.take(employees@.len() as int) =~= ev);
        }
        let ghost lists = schedule@.days;
        let mut map: HashMap<i32, Vec<Weekday>> = HashMap::new();
        let mut k: usize = 0;
        while k < ids.len()
            invariant
                k <= ids@.len(),
                schedule.wf(),
                lists == schedule@.days,
                forall|m: i32| #[trigger] map@.contains_key(m) ==> map@[m]@ == mentor_days_of(lists, ids@, m),
                forall|t: int| 0 <= t < k ==> map@.contains_key(#[trigger] ids@[t]),
            decreases ids.len() - k,
        {
            let m = ids[k];
            let days = self.mentor_days_exec(schedule, &ids, m);
            map.insert(m, days);
            k = k + 1;
        }
        let mut d: usize = 0;
        while d < 5
            invariant
                d <= 5,
                schedule.wf(),
                lists == schedule@.days,
                forall|m: i32| #[trigger] map@.contains_key(m) ==> map@[m]@ == mentor_days_of(lists, ids@, m),
                forall|t: int| 0 <= t < ids@.len() ==> map@.contains_key(#[trigger] ids@[t]),
                forall|e: int, q: int| 0 <= e < d && 0 <= q < lists[e].len() && (#[trigger] lists[e][q]).is_mentor
                    ==> map@.contains_key(lists[e][q].id),
            decreases 5 - d,
        {
            let list = &schedule.schedules[d];
            let mut q: usize = 0;
            while q < list.len()
                invariant
                    q <= list@.len(),
                    d < 5,
                    schedule.wf(),
                    lists == schedule@.days,
                    list == &schedule.schedules@[d as int],
                    forall|m: i32| #[trigger] map@.contains_key(m) ==> map@[m]@ == mentor_days_of(lists, ids@, m),
                    forall|t: int| 0 <= t < ids@.len() ==> map@.contains_key(#[trigger] ids@[t]),
                    forall|e: int, x: int| 0 <= e < d && 0 <= x < lists[e].len() && (#[trigger] lists[e][x]).is_mentor
                        ==> map@.contains_key(lists[e][x].id),
                    forall|x: int| 0 <= x < q && (#[trigger] lists[d as int][x]).is_mentor ==> map@.contains_key(lists[d as int][x].id),
                decreases list.len() - q,
            {
                proof {
                    assert(lists[d as int][q as int] == list@[q as int]@);
                }
                if list[q].is_mentor {
                    let m = list[q].id;
                    let days = self.mentor_days_exec(schedule, &ids, m);
                    map.insert(m, days);
                }
                q = q + 1;
            }
            d = d + 1;
        }
        proof {
            assert forall|m: i32| #[trigger] map@.contains_key(m) implies forall|w: Weekday|
                map@[m]@.contains(w) <==> mentor_day(lists, ids@, m, w) by {
                lemma_mentor_days_of_contains(lists, ids@, m);
            }
            assert forall|m: i32, w: Weekday| !map@.contains_key(m) && true implies !mentor_day(lists, ids@, m, w) by {
                if mentor_day(lists, ids@, m, w) {
                    let e = w.spec_index();
                    let x = choose|x: int| 0 <= x < lists[e].len() && (#[trigger] lists[e][x]).id == m
                        && (lists[e][x].is_mentor || ids@.contains(m));
                    if !lists[e][x].is_mentor {
                        let t = choose|t: int| 0 <= t < ids@.len() && ids@[t] == m;
                    }
                }
            }
        }
        map
    }

    /// A schedule for the month: fixed days first, then the mentors, the mentees and the
    /// others who need more days, each given the combination that keeps the week balanced,
    /// repeats the fewest past days and (for mentees) shares the most days with the mentor.
    /// The group orders and the order of equally good combinations are random; the
    /// `ensures` states what holds for every such outcome.
    #[verifier::rlimit(90)]
    #[verifier::spinoff_prover]
    pub fn generate_schedule(
        &self,
        employees: &[Employee],
        past_schedules: &PastSchedules,
        year: i32,
        month: u32,
    ) -> (r: MonthlySchedule)
        requires
            self.wf(),
            input_in_range(day_view_emps(employees@)),
        ensures
            r.wf(),
            schedule_ok(day_view_emps(employees@), *past_schedules, year, month, r@),
    {
        let ghost ev = day_view_emps(employees@);
        let mut schedule = MonthlySchedule::new(year, month);
        let mut included: Vec<i32> = Vec::new();
        let mut i: usize = 0;
        while i < employees.len()
            invariant
                i <= employees@.len(),
                ev == day_view_emps(employees@),
                included@ == ev.take(i as int).map_values(|e: EmployeeView| e.id),
            decreases employees.len() - i,
        {
            included.push(employees[i].id);
            proof {
                assert(included@ =~= ev.take(i as int + 1).map_values(|e: EmployeeView| e.id));
            }
            i = i + 1;
        }
        proof {
            assert(ev.take(employees@.len() as int) =~= ev);
        }
        schedule.included_employees = included;
        let mut day_counts: Vec<usize> = Vec::new();
        let mut d: usize = 0;
        while d < 5
            invariant
                d <= 5,
                day_counts@.len() == d,
                forall|e: int| 0 <= e < d ==> #[trigger] day_counts@[e] == 0,
            decreases 5 - d,
        {
            day_counts.push(0);
            d = d + 1;
        }
        proof {
            assert forall|e: int| 0 <= e < 5 implies #[trigger] schedule@.days[e] == empty_lists()[e] by {
                assert(schedule@.days[e] =~= Seq::<EmployeeView>::empty());
            }
            assert(schedule@.days =~= empty_lists());
            assert(usize_ints(day_counts@) =~= lens(schedule@.days));
            assert(entries(schedule@.days) == 0);
        }
        let (flexible, fixed_emps) = self.process_fixed_schedules(employees, &mut schedule, &mut day_counts);
        let ghost flex_pred = |e: EmployeeView| is_flexible(e);
        let ghost fv = day_view_emps(flexible@);
        proof {
            assert(fv == ev.filter(flex_pred));
            ev.lemma_filter_len(flex_pred);
            assert forall|k: int| 0 <= k < flexible@.len() implies (#[trigger] flexible@[k]).fixed_days@.len() <= i32::MAX
                && remaining(flexible@[k]@) >= i32::MIN by {
                assert(fv[k] == flexible@[k]@);
                assert(ev.filter(flex_pred).contains(fv[k]));
                ev.lemma_filter_contains_rev(flex_pred, fv[k]);
            }
        }
        let grouped = self.group_by_required_days(flexible.as_slice());
        let ghost gv = groups_view(grouped@);
        proof {
            lemma_phase_jobs_len(gv, Phase::Mentors);
            lemma_phase_jobs_len(gv, Phase::Mentees);
            lemma_phase_jobs_len(gv, Phase::Others);
        }
        let no_mentors: HashMap<i32, Vec<Weekday>> = HashMap::new();
        proof {
            assert(no_mentors@ =~= Map::<i32, Vec<Weekday>>::empty());
        }
        let ghost fixed_state = schedule@.days;
        self.process_flexible_employees(&grouped, Phase::Mentors, &mut schedule, &mut day_counts, past_schedules,
            &no_mentors, Ghost(Seq::empty()), Ghost(Seq::empty()), Ghost(false));
        let ghost mid = schedule@.days;
        let mentor_schedules = self.build_mentor_schedules(fixed_emps.as_slice(), &schedule);
        let ghost ids = mentor_ids(day_view_emps(fixed_emps@));
        self.process_flexible_employees(&grouped, Phase::Mentees, &mut schedule, &mut day_counts, past_schedules,
            &mentor_schedules, Ghost(mid), Ghost(ids), Ghost(true));
        let ghost after_mentees = schedule@.days;
        self.process_flexible_employees(&grouped, Phase::Others, &mut schedule, &mut day_counts, past_schedules,
            &mentor_schedules, Ghost(mid), Ghost(ids), Ghost(true));
        proof {
            let j2 = phase_jobs(gv, Phase::Mentees);
            let j3 = phase_jobs(gv, Phase::Others);
            let s2 = choose|st: Seq<Seq<Seq<EmployeeView>>>| #[trigger] trace_ok(st, mid, after_mentees, j2, *past_schedules, mid, ids, true);
            let s3 = choose|st: Seq<Seq<Seq<EmployeeView>>>| #[trigger] trace_ok(st, after_mentees, schedule@.days, j3, *past_schedules, mid, ids, true);
            lemma_trace_concat(s2, s3, mid, after_mentees, schedule@.days, j2, j3, *past_schedules, mid, ids, true);
            assert(trace_ok(s2 + s3.drop_first(), mid, schedule@.days, j2 + j3, *past_schedules, mid, ids, true));
            assert(ids == fixed_mentor_ids(ev));
            assert(fixed_state == fixed_fold(empty_lists(), ev));
            assert(fv == flexible_of(ev));
            assert(grouping_ok(flexible_of(ev), gv));
            assert(run_ok(fixed_fold(empty_lists(), ev), mid, phase_jobs(gv, Phase::Mentors), *past_schedules,
                Seq::empty(), Seq::empty(), false));
        }
        schedule
    }
}

/// Whether a list of employees is within the limits that schedule generation takes:
/// see [`input_in_range`].
pub fn input_fits(employees: &[Employee]) -> (r: bool)
    ensures
        r == input_in_range(day_view_emps(employees@)),
{
    let ghost ev = day_view_emps(employees@);
    let mut total: u64 = 0;
    let mut i: usize = 0;
    while i < employees.len()
        invariant
            i <= employees.len(),
            ev == day_view_emps(employees@),
            total == total_fixed(ev.take(i as int)) + 15 * i,
            total < COUNT_LIMIT,
            forall|k: int| 0 <= k < i ==> (#[trigger] ev[k]).fixed_days.len() <= i32::MAX,
            forall|k: int| 0 <= k < i ==> remaining(#[trigger] ev[k]) >= i32::MIN,
        decreases employees.len() - i,
    {
        proof {
            assert(ev.take(i as int + 1).drop_last() =~= ev.take(i as int));
        }
        let n = employees[i].fixed_days.len();
        assert(ev[i as int] == employees@[i as int]@);
        if n > 0x7fff_ffff {
            assert(!((ev[i as int]).fixed_days.len() <= i32::MAX));
            return false;
        }
        if (employees[i].required_days as i64) - (n as i64) < -0x8000_0000i64 {
            assert(!(remaining(ev[i as int]) >= i32::MIN));
            return false;
        }
        if n as u64 + 15 >= COUNT_LIMIT - total {
            proof {
                lemma_total_fixed_mono(ev, i as int + 1);
            }
            return false;
        }
        total = total + n as u64 + 15;
        i = i + 1;
    }
    assert(ev.take(employees.len() as int) =~= ev);
    true
}

/// Totals of prefixes grow.
proof fn lemma_total_fixed_mono(emps: Seq<EmployeeView>, k: int)
    requires
        0 <= k <= emps.len(),
    ensures
        total_fixed(emps.take(k)) + 15 * k <= total_fixed(emps) + 15 * emps.len(),
    decreases emps.len() - k,
{
    if k < emps.len() {
        lemma_total_fixed_mono(emps, k + 1);
        assert(emps.take(k + 1).drop_last() =~= emps.take(k));
    } else {
        assert(emps.take(k) =~= emps);
    }
}

} // verus!
