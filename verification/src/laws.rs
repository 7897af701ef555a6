use vstd::prelude::*;
use crate::types::Weekday;
use crate::employee::{EmployeeView, validation_error, first_repeat, first_repeat_from};
use crate::text::is_blank;
use crate::controller::{edited_employee, office_days};
use crate::ui::modals::EmployeeForm;
use crate::ui::attendance_table::AttendanceStatus as FormStatus;
use crate::types::{weekday_at, parse_sex, parse_role};
use crate::pdf::{place_pieces, layout_lines, line_style, wrapped, PlacedView, BOTTOM};
use crate::mentorship::{warnings_of, warnings_in, remote_mentor_warning, invalid_mentor_warning};
use crate::generator::{table_combos, strictly_increasing, law_combination_table};
use crate::records::{
    record_employee, employee_record, lemma_days_field_roundtrip, lemma_bool_roundtrip,
    lemma_mentor_field_roundtrip,
};
use crate::types::{lemma_parse_sex_name, lemma_parse_role_name};
use crate::numbers::lemma_parse_int_decimal;
use crate::attendance_table::AttendanceStatus;
use crate::roster::{month_before, month_after};
use crate::controller::{ToastView, without_id};
use crate::schedule::{PastSchedules, PastSchedulesExt, MonthlyScheduleView};
use crate::engine::{
    add_days, fixed_fold, trace_ok, run_ok, step_ok, schedule_ok, phase_jobs, grouping_ok, in_phase,
    remaining, allowed_combos, avoids, flexible_of, empty_lists, is_flexible, Phase, occ,
    combo_score, spread, tallies_with, repetition8, mentor_matches, is_best, sum,
};

verus! {

/// `a` is a prefix of `b`.
pub open spec fn is_prefix(a: Seq<EmployeeView>, b: Seq<EmployeeView>) -> bool {
    a.len() <= b.len() && b.subrange(0, a.len() as int) == a
}

/// Every day list of `b` starts with the day list of `a`.
pub open spec fn lists_grow(a: Seq<Seq<EmployeeView>>, b: Seq<Seq<EmployeeView>>) -> bool {
    &&& a.len() == 5
    &&& b.len() == 5
    &&& forall|d: int| 0 <= d < 5 ==> is_prefix(#[trigger] a[d], b[d])
}

proof fn lemma_prefix_contains(a: Seq<EmployeeView>, b: Seq<EmployeeView>, x: EmployeeView)
    requires
        is_prefix(a, b),
        a.contains(x),
    ensures
        b.contains(x),
{
    let i = choose|i: int| 0 <= i < a.len() && a[i] == x;
    assert(b.subrange(0, a.len() as int)[i] == b[i]);
}

proof fn lemma_grow_trans(a: Seq<Seq<EmployeeView>>, b: Seq<Seq<EmployeeView>>, c: Seq<Seq<EmployeeView>>)
    requires
        lists_grow(a, b),
        lists_grow(b, c),
    ensures
        lists_grow(a, c),
{
    assert forall|d: int| 0 <= d < 5 implies is_prefix(#[trigger] a[d], c[d]) by {
        assert(is_prefix(a[d], b[d]));
        assert(is_prefix(b[d], c[d]));
        assert(c[d].subrange(0, a[d].len() as int) =~= c[d].subrange(0, b[d].len() as int).subrange(0, a[d].len() as int));
    }
}

proof fn lemma_grow_refl(a: Seq<Seq<EmployeeView>>)
    requires
        a.len() == 5,
    ensures
        lists_grow(a, a),
{
    assert forall|d: int| 0 <= d < 5 implies is_prefix(#[trigger] a[d], a[d]) by {
        assert(a[d].subrange(0, a[d].len() as int) =~= a[d]);
    }
}

/// Adding days only appends, and the employee then stands on each of those days.
proof fn lemma_add_days_grows(lists: Seq<Seq<EmployeeView>>, e: EmployeeView, c: Seq<Weekday>)
    requires
        lists.len() == 5,
    ensures
        lists_grow(lists, add_days(lists, e, c)),
        forall|i: int| 0 <= i < c.len() ==> add_days(lists, e, c)[(#[trigger] c[i]).spec_index()].contains(e),
    decreases c.len(),
{
    if c.len() == 0 {
        lemma_grow_refl(lists);
    } else {
        let c2 = c.drop_last();
        lemma_add_days_grows(lists, e, c2);
        let l = add_days(lists, e, c2);
        let d = c.last().spec_index();
        let r = l.update(d, l[d].push(e));
        assert(lists_grow(l, r)) by {
            assert forall|x: int| 0 <= x < 5 implies is_prefix(#[trigger] l[x], r[x]) by {
                if x == d {
                    assert(r[x].subrange(0, l[x].len() as int) =~= l[x]);
                } else {
                    assert(r[x].subrange(0, l[x].len() as int) =~= l[x]);
                }
            }
        }
        lemma_grow_trans(lists, l, r);
        assert forall|i: int| 0 <= i < c.len() implies r[(#[trigger] c[i]).spec_index()].contains(e) by {
            if i == c.len() - 1 {
                assert(r[d][l[d].len() as int] == e);
            } else {
                assert(c2[i] == c[i]);
                assert(l[c[i].spec_index()].contains(e));
                lemma_prefix_contains(l[c[i].spec_index()], r[c[i].spec_index()], e);
            }
        }
    }
}

proof fn lemma_step_grows(
    before: Seq<Seq<EmployeeView>>,
    after: Seq<Seq<EmployeeView>>,
    e: EmployeeView,
    key: int,
    records: Seq<[bool; 5]>,
    mentor_days: Seq<Weekday>,
)
    requires
        before.len() == 5,
        step_ok(before, after, e, key, records, mentor_days),
    ensures
        lists_grow(before, after),
{
    let allowed = allowed_combos(table_combos(key), e.fixed_days);
    if allowed.len() == 0 {
        lemma_grow_refl(before);
    } else {
        let c = choose|c: Seq<Weekday>| #[trigger] allowed.contains(c)
            && crate::engine::is_best(crate::engine::lens(before), c, allowed, crate::engine::freq8_of(records), mentor_days)
            && after == add_days(before, e, c);
        lemma_add_days_grows(before, e, c);
    }
}

/// Along a trace the day lists only grow.
proof fn lemma_trace_grows(
    states: Seq<Seq<Seq<EmployeeView>>>,
    before: Seq<Seq<EmployeeView>>,
    after: Seq<Seq<EmployeeView>>,
    jobs: Seq<(EmployeeView, int)>,
    past: PastSchedules,
    mentor_lists: Seq<Seq<EmployeeView>>,
    ids: Seq<i32>,
    use_mentors: bool,
    i: int,
)
    requires
        trace_ok(states, before, after, jobs, past, mentor_lists, ids, use_mentors),
        before.len() == 5,
        0 <= i < states.len(),
    ensures
        lists_grow(states[i], after),
        lists_grow(before, states[i]),
    decreases states.len() - i,
{
    lemma_trace_prefix_grows(states, before, after, jobs, past, mentor_lists, ids, use_mentors, i);
    if i == states.len() - 1 {
        lemma_grow_refl(after);
    } else {
        lemma_trace_grows(states, before, after, jobs, past, mentor_lists, ids, use_mentors, i + 1);
        lemma_step_grows(states[i], states[i + 1], jobs[i].0, jobs[i].1, past.past_records(jobs[i].0.id),
            crate::engine::job_mentor_days(jobs[i].0, mentor_lists, ids, use_mentors));
        lemma_grow_trans(states[i], states[i + 1], after);
    }
}

proof fn lemma_trace_prefix_grows(
    states: Seq<Seq<Seq<EmployeeView>>>,
    before: Seq<Seq<EmployeeView>>,
    after: Seq<Seq<EmployeeView>>,
    jobs: Seq<(EmployeeView, int)>,
    past: PastSchedules,
    mentor_lists: Seq<Seq<EmployeeView>>,
    ids: Seq<i32>,
    use_mentors: bool,
    i: int,
)
    requires
        trace_ok(states, before, after, jobs, past, mentor_lists, ids, use_mentors),
        before.len() == 5,
        0 <= i < states.len(),
    ensures
        lists_grow(before, states[i]),
    decreases i,
{
    if i == 0 {
        lemma_grow_refl(before);
    } else {
        lemma_trace_prefix_grows(states, before, after, jobs, past, mentor_lists, ids, use_mentors, i - 1);
        lemma_step_grows(states[i - 1], states[i], jobs[i - 1].0, jobs[i - 1].1, past.past_records(jobs[i - 1].0.id),
            crate::engine::job_mentor_days(jobs[i - 1].0, mentor_lists, ids, use_mentors));
        lemma_grow_trans(before, states[i - 1], states[i]);
    }
}

proof fn lemma_run_grows(
    before: Seq<Seq<EmployeeView>>,
    after: Seq<Seq<EmployeeView>>,
    jobs: Seq<(EmployeeView, int)>,
    past: PastSchedules,
    mentor_lists: Seq<Seq<EmployeeView>>,
    ids: Seq<i32>,
    use_mentors: bool,
)
    requires
        run_ok(before, after, jobs, past, mentor_lists, ids, use_mentors),
        before.len() == 5,
    ensures
        lists_grow(before, after),
{
    let st = choose|st: Seq<Seq<Seq<EmployeeView>>>| #[trigger] trace_ok(st, before, after, jobs, past, mentor_lists, ids, use_mentors);
    lemma_trace_grows(st, before, after, jobs, past, mentor_lists, ids, use_mentors, 0);
}

/// The fixed days of every employee are on the lists after the fixed pass.
proof fn lemma_fixed_fold(lists: Seq<Seq<EmployeeView>>, emps: Seq<EmployeeView>)
    requires
        lists.len() == 5,
    ensures
        lists_grow(lists, fixed_fold(lists, emps)),
        forall|k: int, t: int| 0 <= k < emps.len() && 0 <= t < emps[k].fixed_days.len()
            ==> fixed_fold(lists, emps)[(#[trigger] emps[k].fixed_days[t]).spec_index()].contains(emps[k]),
    decreases emps.len(),
{
    if emps.len() == 0 {
        lemma_grow_refl(lists);
    } else {
        let e2 = emps.drop_last();
        lemma_fixed_fold(lists, e2);
        let l = fixed_fold(lists, e2);
        let e = emps.last();
        lemma_add_days_grows(l, e, e.fixed_days);
        lemma_grow_trans(lists, l, add_days(l, e, e.fixed_days));
        let r = add_days(l, e, e.fixed_days);
        assert forall|k: int, t: int| 0 <= k < emps.len() && 0 <= t < emps[k].fixed_days.len()
            implies r[(#[trigger] emps[k].fixed_days[t]).spec_index()].contains(emps[k]) by {
            if k < emps.len() - 1 {
                assert(e2[k] == emps[k]);
                let d = emps[k].fixed_days[t].spec_index();
                assert(l[d].contains(emps[k]));
                assert(is_prefix(l[d], r[d]));
                lemma_prefix_contains(l[d], r[d], emps[k]);
            } else {
                assert(emps[k] == e);
            }
        }
    }
}

proof fn lemma_phase_jobs_contains(groups: Seq<(i32, Seq<EmployeeView>)>, p: Phase, i: int, e: EmployeeView)
    requires
        0 <= i < groups.len(),
        groups[i].1.contains(e),
        in_phase(e, p),
    ensures
        phase_jobs(groups, p).contains((e, groups[i].0 as int)),
    decreases groups.len(),
{
    let g = groups.last();
    let pred = |x: EmployeeView| in_phase(x, p);
    let tag = |x: EmployeeView| (x, g.0 as int);
    if i == groups.len() - 1 {
        let k = choose|k: int| 0 <= k < g.1.len() && g.1[k] == e;
        g.1.lemma_filter_contains(pred, k);
        let f = g.1.filter(pred);
        let q = choose|q: int| 0 <= q < f.len() && f[q] == e;
        let tail = f.map_values(tag);
        assert(tail[q] == (e, g.0 as int));
        let all = phase_jobs(groups.drop_last(), p) + tail;
        assert(all[phase_jobs(groups.drop_last(), p).len() + q] == (e, g.0 as int));
    } else {
        lemma_phase_jobs_contains(groups.drop_last(), p, i, e);
        let front = phase_jobs(groups.drop_last(), p);
        let q = choose|q: int| 0 <= q < front.len() && front[q] == (e, groups[i].0 as int);
        let all = front + g.1.filter(pred).map_values(tag);
        assert(all[q] == front[q]);
    }
}

/// The combinations of the table for `n` days have `n` days each.
pub proof fn lemma_table_sizes(n: int)
    ensures
        forall|j: int| 0 <= j < table_combos(n).len() ==> (#[trigger] table_combos(n)[j]).len() == n,
{
}

/// An employee in the grouped list (by groups) turns up as a job in the pass they belong to.
proof fn lemma_employee_has_turn(emps: Seq<EmployeeView>, groups: Seq<(i32, Seq<EmployeeView>)>, k: int)
    requires
        grouping_ok(flexible_of(emps), groups),
        0 <= k < emps.len(),
        remaining(emps[k]) > 0,
    ensures
        exists|i: int| 0 <= i < groups.len() && (#[trigger] groups[i]).0 == remaining(emps[k]) && groups[i].1.contains(emps[k]),
{
    broadcast use vstd::seq_lib::group_to_multiset_ensures;
    let e = emps[k];
    let flex = flexible_of(emps);
    let fp = |x: EmployeeView| is_flexible(x);
    emps.lemma_filter_contains(fp, k);
    let q = choose|q: int| 0 <= q < flex.len() && flex[q] == e;
    assert(remaining(flex[q]) > 0);
    let i = choose|i: int| 0 <= i < groups.len() && (#[trigger] groups[i]).0 == remaining(flex[q]);
    let rp = |x: EmployeeView| remaining(x) == groups[i].0;
    flex.lemma_filter_contains(rp, q);
    assert(flex.filter(rp).to_multiset().count(e) > 0);
    assert(groups[i].1.to_multiset().count(e) > 0);
    assert(groups[i].1.contains(e));
}

/// Fixed days are kept: every employee is in the office on each of their fixed days.
pub proof fn law_fixed_days_kept(
    emps: Seq<EmployeeView>,
    past: PastSchedules,
    year: i32,
    month: u32,
    r: MonthlyScheduleView,
    k: int,
    t: int,
)
    requires
        schedule_ok(emps, past, year, month, r),
        0 <= k < emps.len(),
        0 <= t < emps[k].fixed_days.len(),
    ensures
        r.days[emps[k].fixed_days[t].spec_index()].contains(emps[k]),
{
    let (groups, mid) = choose|groups: Seq<(i32, Seq<EmployeeView>)>, mid: Seq<Seq<EmployeeView>>|
        #[trigger] grouping_ok(flexible_of(emps), groups)
        && #[trigger] run_ok(fixed_fold(empty_lists(), emps), mid, phase_jobs(groups, Phase::Mentors), past,
            Seq::empty(), Seq::empty(), false)
        && run_ok(mid, r.days, phase_jobs(groups, Phase::Mentees) + phase_jobs(groups, Phase::Others), past,
            mid, crate::engine::fixed_mentor_ids(emps), true);
    let start = fixed_fold(empty_lists(), emps);
    lemma_fixed_fold(empty_lists(), emps);
    lemma_run_grows(start, mid, phase_jobs(groups, Phase::Mentors), past, Seq::empty(), Seq::empty(), false);
    lemma_run_grows(mid, r.days, phase_jobs(groups, Phase::Mentees) + phase_jobs(groups, Phase::Others), past,
        mid, crate::engine::fixed_mentor_ids(emps), true);
    lemma_grow_trans(start, mid, r.days);
    let d = emps[k].fixed_days[t].spec_index();
    lemma_prefix_contains(start[d], r.days[d], emps[k]);
}

/// After a turn of `e` in a trace (when `e` had allowed combinations), `e` holds the days of
/// one of them at the end of the trace.
proof fn lemma_turn_gives_days(
    states: Seq<Seq<Seq<EmployeeView>>>,
    before: Seq<Seq<EmployeeView>>,
    after: Seq<Seq<EmployeeView>>,
    jobs: Seq<(EmployeeView, int)>,
    past: PastSchedules,
    mentor_lists: Seq<Seq<EmployeeView>>,
    ids: Seq<i32>,
    use_mentors: bool,
    e: EmployeeView,
    key: int,
)
    requires
        trace_ok(states, before, after, jobs, past, mentor_lists, ids, use_mentors),
        before.len() == 5,
        jobs.contains((e, key)),
        allowed_combos(table_combos(key), e.fixed_days).len() > 0,
    ensures
        exists|c: Seq<Weekday>| #[trigger] allowed_combos(table_combos(key), e.fixed_days).contains(c)
            && forall|i: int| 0 <= i < c.len() ==> after[(#[trigger] c[i]).spec_index()].contains(e),
{
    let t = choose|t: int| 0 <= t < jobs.len() && jobs[t] == (e, key);
    let allowed = allowed_combos(table_combos(key), e.fixed_days);
    assert(step_ok(states[t], states[t + 1], jobs[t].0, jobs[t].1, past.past_records(jobs[t].0.id),
        crate::engine::job_mentor_days(jobs[t].0, mentor_lists, ids, use_mentors)));
    lemma_trace_grows(states, before, after, jobs, past, mentor_lists, ids, use_mentors, t);
    let c = choose|c: Seq<Weekday>| #[trigger] allowed.contains(c)
        && crate::engine::is_best(crate::engine::lens(states[t]), c, allowed, crate::engine::freq8_of(past.past_records(e.id)),
            crate::engine::job_mentor_days(e, mentor_lists, ids, use_mentors))
        && states[t + 1] == add_days(states[t], e, c);
    lemma_add_days_grows(states[t], e, c);
    lemma_trace_grows(states, before, after, jobs, past, mentor_lists, ids, use_mentors, t + 1);
    assert forall|i: int| 0 <= i < c.len() implies after[(#[trigger] c[i]).spec_index()].contains(e) by {
        let d = c[i].spec_index();
        lemma_prefix_contains(states[t + 1][d], after[d], e);
    }
}

/// Required days are met: an employee who needs `n` more office days than their fixed ones,
/// where the table offers combinations of `n` days that avoid the fixed days, is in the office
/// on all the days of one such combination (besides the fixed days).
pub proof fn law_required_days_met(
    emps: Seq<EmployeeView>,
    past: PastSchedules,
    year: i32,
    month: u32,
    r: MonthlyScheduleView,
    k: int,
)
    requires
        schedule_ok(emps, past, year, month, r),
        0 <= k < emps.len(),
        remaining(emps[k]) > 0,
        allowed_combos(table_combos(remaining(emps[k])), emps[k].fixed_days).len() > 0,
    ensures
        exists|c: Seq<Weekday>| #[trigger] allowed_combos(table_combos(remaining(emps[k])), emps[k].fixed_days).contains(c)
            && c.len() == remaining(emps[k])
            && avoids(c, emps[k].fixed_days)
            && forall|i: int| 0 <= i < c.len() ==> r.days[(#[trigger] c[i]).spec_index()].contains(emps[k]),
{
    let e = emps[k];
    let key = remaining(e);
    let (groups, mid) = choose|groups: Seq<(i32, Seq<EmployeeView>)>, mid: Seq<Seq<EmployeeView>>|
        #[trigger] grouping_ok(flexible_of(emps), groups)
        && #[trigger] run_ok(fixed_fold(empty_lists(), emps), mid, phase_jobs(groups, Phase::Mentors), past,
            Seq::empty(), Seq::empty(), false)
        && run_ok(mid, r.days, phase_jobs(groups, Phase::Mentees) + phase_jobs(groups, Phase::Others), past,
            mid, crate::engine::fixed_mentor_ids(emps), true);
    let ids = crate::engine::fixed_mentor_ids(emps);
    let start = fixed_fold(empty_lists(), emps);
    lemma_fixed_fold(empty_lists(), emps);
    let j1 = phase_jobs(groups, Phase::Mentors);
    let j23 = phase_jobs(groups, Phase::Mentees) + phase_jobs(groups, Phase::Others);
    lemma_run_grows(start, mid, j1, past, Seq::empty(), Seq::empty(), false);
    lemma_run_grows(mid, r.days, j23, past, mid, ids, true);
    lemma_employee_has_turn(emps, groups, k);
    let i = choose|i: int| 0 <= i < groups.len() && (#[trigger] groups[i]).0 == key && groups[i].1.contains(e);
    let allowed = allowed_combos(table_combos(key), e.fixed_days);
    if e.is_mentor {
        lemma_phase_jobs_contains(groups, Phase::Mentors, i, e);
        let st = choose|st: Seq<Seq<Seq<EmployeeView>>>| #[trigger] trace_ok(st, start, mid, j1, past, Seq::empty(), Seq::empty(), false);
        lemma_turn_gives_days(st, start, mid, j1, past, Seq::empty(), Seq::empty(), false, e, key);
        let c = choose|c: Seq<Weekday>| #[trigger] allowed.contains(c)
            && forall|x: int| 0 <= x < c.len() ==> mid[(#[trigger] c[x]).spec_index()].contains(e);
        assert forall|x: int| 0 <= x < c.len() implies r.days[(#[trigger] c[x]).spec_index()].contains(e) by {
            let d = c[x].spec_index();
            lemma_prefix_contains(mid[d], r.days[d], e);
        }
        lemma_allowed_shape(key, e.fixed_days, c);
    } else {
        let p = if e.is_mentee { Phase::Mentees } else { Phase::Others };
        lemma_phase_jobs_contains(groups, p, i, e);
        let ja = phase_jobs(groups, Phase::Mentees);
        let jb = phase_jobs(groups, Phase::Others);
        assert(j23.contains((e, key))) by {
            if e.is_mentee {
                let q = choose|q: int| 0 <= q < ja.len() && ja[q] == (e, key);
                assert(j23[q] == ja[q]);
            } else {
                let q = choose|q: int| 0 <= q < jb.len() && jb[q] == (e, key);
                assert(j23[ja.len() + q] == jb[q]);
            }
        }
        let st = choose|st: Seq<Seq<Seq<EmployeeView>>>| #[trigger] trace_ok(st, mid, r.days, j23, past, mid, ids, true);
        lemma_turn_gives_days(st, mid, r.days, j23, past, mid, ids, true, e, key);
        let c = choose|c: Seq<Weekday>| #[trigger] allowed.contains(c)
            && forall|x: int| 0 <= x < c.len() ==> r.days[(#[trigger] c[x]).spec_index()].contains(e);
        lemma_allowed_shape(key, e.fixed_days, c);
    }
}

proof fn lemma_allowed_shape(key: int, fixed: Seq<Weekday>, c: Seq<Weekday>)
    requires
        allowed_combos(table_combos(key), fixed).contains(c),
    ensures
        c.len() == key,
        avoids(c, fixed),
{
    let pred = |x: Seq<Weekday>| avoids(x, fixed);
    table_combos(key).lemma_filter_contains_rev(pred, c);
    lemma_table_sizes(key);
    let f = table_combos(key).filter(pred);
    let q = choose|q: int| 0 <= q < f.len() && f[q] == c;
    table_combos(key).lemma_filter_pred(pred, q);
}

/// Exporting an employee to a CSV record and importing that record gives the employee back,
/// all but its id, which the store assigns.
pub proof fn law_csv_record_roundtrip(e: EmployeeView)
    ensures
        record_employee(employee_record(e)) == Ok::<EmployeeView, Seq<char>>(
            EmployeeView { id: 0, ..e },
        ),
{
    let rec = employee_record(e);
    lemma_parse_sex_name(e.sex);
    lemma_parse_role_name(e.role);
    lemma_parse_int_decimal(e.required_days);
    lemma_days_field_roundtrip(e.fixed_days);
    lemma_bool_roundtrip(e.is_mentor);
    lemma_bool_roundtrip(e.is_mentee);
    lemma_mentor_field_roundtrip(e.mentor_id);
    assert(rec[1] == crate::types::sex_name(e.sex));
    assert(rec[4] == crate::records::join_days(e.fixed_days));
}

/// Toggling a day twice gives back where the employee was.
pub proof fn law_toggle_twice(s: AttendanceStatus)
    ensures
        s.flipped().flipped() == s,
        s.flipped() != s,
{
}

/// Going a month back and then a month forward returns to the same month, and so does going
/// forward and then back.
pub proof fn law_month_steps_undo(year: i32, month: u32)
    requires
        1 <= month <= 12,
    ensures
        i32::MIN < year ==> month_after(month_before(year, month).0, month_before(year, month).1) == (year, month),
        year < i32::MAX ==> month_before(month_after(year, month).0, month_after(year, month).1) == (year, month),
        1 <= month_before(year, month).1 <= 12,
        1 <= month_after(year, month).1 <= 12,
{
}

/// After a notification is dismissed none with its id is left, and the others keep their
/// order.
pub proof fn law_dismissed_toast_gone(v: Seq<ToastView>, id: u64)
    ensures
        forall|i: int| 0 <= i < without_id(v, id).len() ==> (#[trigger] without_id(v, id)[i]).id != id,
        !(exists|i: int| 0 <= i < v.len() && (#[trigger] v[i]).id == id) ==> without_id(v, id) == v,
    decreases v.len(),
{
    if v.len() > 0 {
        law_dismissed_toast_gone(v.drop_last(), id);
        if !(exists|i: int| 0 <= i < v.len() && (#[trigger] v[i]).id == id) {
            assert forall|i: int| 0 <= i < v.drop_last().len() implies (#[trigger] v.drop_last()[i]).id != id by {
                assert(v[i] == v.drop_last()[i]);
            }
            assert(v.last().id != id) by {
                assert(v[v.len() - 1] == v.last());
            }
            assert(v.drop_last().push(v.last()) =~= v);
        }
    } else {
        assert(without_id(v, id) =~= v);
    }
}

/// Every entry of the day lists is one of `pool`.
pub open spec fn listed_from(lists: Seq<Seq<EmployeeView>>, pool: Seq<EmployeeView>) -> bool {
    forall|d: int, k: int| 0 <= d < lists.len() && 0 <= k < lists[d].len() ==> pool.contains(#[trigger] lists[d][k])
}

proof fn lemma_add_days_from(lists: Seq<Seq<EmployeeView>>, e: EmployeeView, c: Seq<Weekday>, pool: Seq<EmployeeView>)
    requires
        lists.len() == 5,
        listed_from(lists, pool),
        pool.contains(e),
    ensures
        listed_from(add_days(lists, e, c), pool),
        add_days(lists, e, c).len() == 5,
    decreases c.len(),
{
    if c.len() > 0 {
        let l = add_days(lists, e, c.drop_last());
        lemma_add_days_from(lists, e, c.drop_last(), pool);
        let d = c.last().spec_index();
        let n = l.update(d, l[d].push(e));
        assert forall|dd: int, k: int| 0 <= dd < n.len() && 0 <= k < n[dd].len() implies pool.contains(#[trigger] n[dd][k]) by {
            if dd == d {
                if k < l[d].len() {
                    assert(n[dd][k] == l[d][k]);
                } else {
                    assert(n[dd][k] == e);
                }
            } else {
                assert(n[dd] == l[dd]);
            }
        }
    }
}

proof fn lemma_fixed_fold_from(lists: Seq<Seq<EmployeeView>>, s: Seq<EmployeeView>, pool: Seq<EmployeeView>)
    requires
        lists.len() == 5,
        listed_from(lists, pool),
        forall|k: int| 0 <= k < s.len() ==> pool.contains(#[trigger] s[k]),
    ensures
        listed_from(fixed_fold(lists, s), pool),
        fixed_fold(lists, s).len() == 5,
    decreases s.len(),
{
    if s.len() > 0 {
        lemma_fixed_fold_from(lists, s.drop_last(), pool);
        assert(pool.contains(s[s.len() - 1]));
        lemma_add_days_from(fixed_fold(lists, s.drop_last()), s.last(), s.last().fixed_days, pool);
    }
}

proof fn lemma_jobs_from(groups: Seq<(i32, Seq<EmployeeView>)>, p: Phase, emps: Seq<EmployeeView>)
    requires
        forall|i: int, x: EmployeeView| 0 <= i < groups.len() && #[trigger] groups[i].1.contains(x) ==> emps.contains(x),
    ensures
        forall|j: int| 0 <= j < phase_jobs(groups, p).len() ==> emps.contains((#[trigger] phase_jobs(groups, p)[j]).0),
    decreases groups.len(),
{
    if groups.len() > 0 {
        let g = groups.last();
        let pre = groups.drop_last();
        assert forall|i: int, x: EmployeeView| 0 <= i < pre.len() && #[trigger] pre[i].1.contains(x) implies emps.contains(x) by {
            assert(pre[i] == groups[i]);
        }
        lemma_jobs_from(pre, p, emps);
        let pred = |x: EmployeeView| in_phase(x, p);
        let tag = |x: EmployeeView| (x, g.0 as int);
        let f = g.1.filter(pred);
        let tail = f.map_values(tag);
        let all = phase_jobs(pre, p) + tail;
        assert(phase_jobs(groups, p) == all);
        assert forall|j: int| 0 <= j < all.len() implies emps.contains((#[trigger] all[j]).0) by {
            if j < phase_jobs(pre, p).len() {
                assert(all[j] == phase_jobs(pre, p)[j]);
            } else {
                let q = j - phase_jobs(pre, p).len();
                assert(all[j] == tail[q]);
                assert(tail[q].0 == f[q]);
                g.1.lemma_filter_contains_rev(pred, f[q]);
                assert(f.contains(f[q]));
                assert(groups[groups.len() - 1].1.contains(f[q]));
            }
        }
    }
}

proof fn lemma_trace_from(
    states: Seq<Seq<Seq<EmployeeView>>>,
    before: Seq<Seq<EmployeeView>>,
    after: Seq<Seq<EmployeeView>>,
    jobs: Seq<(EmployeeView, int)>,
    past: PastSchedules,
    mentor_lists: Seq<Seq<EmployeeView>>,
    ids: Seq<i32>,
    use_mentors: bool,
    pool: Seq<EmployeeView>,
    i: int,
)
    requires
        trace_ok(states, before, after, jobs, past, mentor_lists, ids, use_mentors),
        before.len() == 5,
        listed_from(before, pool),
        forall|j: int| 0 <= j < jobs.len() ==> pool.contains((#[trigger] jobs[j]).0),
        0 <= i <= jobs.len(),
    ensures
        listed_from(states[i], pool),
        states[i].len() == 5,
    decreases i,
{
    if i > 0 {
        lemma_trace_from(states, before, after, jobs, past, mentor_lists, ids, use_mentors, pool, i - 1);
        let t = i - 1;
        assert(step_ok(states[t], states[t + 1], jobs[t].0, jobs[t].1, past.past_records(jobs[t].0.id),
            crate::engine::job_mentor_days(jobs[t].0, mentor_lists, ids, use_mentors)));
        assert(pool.contains(jobs[t].0));
        let allowed = allowed_combos(table_combos(jobs[t].1), jobs[t].0.fixed_days);
        if allowed.len() > 0 {
            let c = choose|c: Seq<Weekday>| #[trigger] allowed.contains(c)
                && crate::engine::is_best(crate::engine::lens(states[t]), c, allowed,
                    crate::engine::freq8_of(past.past_records(jobs[t].0.id)),
                    crate::engine::job_mentor_days(jobs[t].0, mentor_lists, ids, use_mentors))
                && states[t + 1] == add_days(states[t], jobs[t].0, c);
            lemma_add_days_from(states[t], jobs[t].0, c, pool);
        }
    }
}

proof fn lemma_run_from(
    before: Seq<Seq<EmployeeView>>,
    after: Seq<Seq<EmployeeView>>,
    jobs: Seq<(EmployeeView, int)>,
    past: PastSchedules,
    mentor_lists: Seq<Seq<EmployeeView>>,
    ids: Seq<i32>,
    use_mentors: bool,
    pool: Seq<EmployeeView>,
)
    requires
        run_ok(before, after, jobs, past, mentor_lists, ids, use_mentors),
        before.len() == 5,
        listed_from(before, pool),
        forall|j: int| 0 <= j < jobs.len() ==> pool.contains((#[trigger] jobs[j]).0),
    ensures
        listed_from(after, pool),
        after.len() == 5,
{
    let states = choose|states: Seq<Seq<Seq<EmployeeView>>>| #[trigger] trace_ok(states, before, after, jobs, past,
        mentor_lists, ids, use_mentors);
    lemma_trace_from(states, before, after, jobs, past, mentor_lists, ids, use_mentors, pool, jobs.len() as int);
}

/// Only the employees the schedule was made for are on it: every entry of every day list is
/// one of them.
pub proof fn law_only_given_employees(
    emps: Seq<EmployeeView>,
    past: PastSchedules,
    year: i32,
    month: u32,
    r: MonthlyScheduleView,
    d: int,
    k: int,
)
    requires
        schedule_ok(emps, past, year, month, r),
        0 <= d < 5,
        0 <= k < r.days[d].len(),
    ensures
        emps.contains(r.days[d][k]),
{
    let (groups, mid) = choose|groups: Seq<(i32, Seq<EmployeeView>)>, mid: Seq<Seq<EmployeeView>>|
        #[trigger] grouping_ok(flexible_of(emps), groups)
        && #[trigger] run_ok(fixed_fold(empty_lists(), emps), mid, phase_jobs(groups, Phase::Mentors), past,
            Seq::empty(), Seq::empty(), false)
        && run_ok(mid, r.days, phase_jobs(groups, Phase::Mentees) + phase_jobs(groups, Phase::Others), past,
            mid, crate::engine::fixed_mentor_ids(emps), true);
    assert(listed_from(empty_lists(), emps));
    assert forall|j: int| 0 <= j < emps.len() implies emps.contains(#[trigger] emps[j]) by {}
    lemma_fixed_fold_from(empty_lists(), emps, emps);
    let flex = flexible_of(emps);
    assert forall|i: int, x: EmployeeView| 0 <= i < groups.len() && #[trigger] groups[i].1.contains(x) implies emps.contains(x) by {
        broadcast use vstd::seq_lib::group_to_multiset_ensures;
        assert(groups[i].1.to_multiset().count(x) > 0);
        let rp = |y: EmployeeView| remaining(y) == groups[i].0;
        assert(flex.filter(rp).to_multiset().count(x) > 0);
        assert(flex.filter(rp).contains(x));
        flex.lemma_filter_contains_rev(rp, x);
        let fp = |y: EmployeeView| is_flexible(y);
        emps.lemma_filter_contains_rev(fp, x);
    }
    lemma_jobs_from(groups, Phase::Mentors, emps);
    lemma_jobs_from(groups, Phase::Mentees, emps);
    lemma_jobs_from(groups, Phase::Others, emps);
    let start = fixed_fold(empty_lists(), emps);
    lemma_run_from(start, mid, phase_jobs(groups, Phase::Mentors), past, Seq::empty(), Seq::empty(), false, emps);
    let later = phase_jobs(groups, Phase::Mentees) + phase_jobs(groups, Phase::Others);
    assert forall|j: int| 0 <= j < later.len() implies emps.contains((#[trigger] later[j]).0) by {
        if j < phase_jobs(groups, Phase::Mentees).len() {
            assert(later[j] == phase_jobs(groups, Phase::Mentees)[j]);
        } else {
            assert(later[j] == phase_jobs(groups, Phase::Others)[j - phase_jobs(groups, Phase::Mentees).len()]);
        }
    }
    lemma_run_from(mid, r.days, later, past, mid, crate::engine::fixed_mentor_ids(emps), true, emps);
}

/// How many times `e` is on a list.
pub open spec fn times_on(l: Seq<EmployeeView>, e: EmployeeView) -> nat {
    l.to_multiset().count(e)
}

proof fn lemma_times_push(l: Seq<EmployeeView>, x: EmployeeView, e: EmployeeView)
    ensures
        times_on(l.push(x), e) == times_on(l, e) + if x == e { 1nat } else { 0nat },
{
    broadcast use vstd::seq_lib::group_to_multiset_ensures;
    broadcast use vstd::multiset::group_multiset_axioms;
}

proof fn lemma_times_contains(l: Seq<EmployeeView>, e: EmployeeView)
    ensures
        l.contains(e) <==> times_on(l, e) > 0,
{
    broadcast use vstd::seq_lib::group_to_multiset_ensures;
}

/// Adding an employee on the days of `c` adds `occ(c, d)` entries of them on day `d` and
/// leaves the others as they were.
proof fn lemma_add_days_times(lists: Seq<Seq<EmployeeView>>, x: EmployeeView, c: Seq<Weekday>, e: EmployeeView, d: int)
    requires
        lists.len() == 5,
        0 <= d < 5,
    ensures
        add_days(lists, x, c).len() == 5,
        times_on(add_days(lists, x, c)[d], e) == times_on(lists[d], e) + if x == e { occ(c, d) } else { 0 },
    decreases c.len(),
{
    if c.len() > 0 {
        lemma_add_days_times(lists, x, c.drop_last(), e, d);
        let l = add_days(lists, x, c.drop_last());
        let dd = c.last().spec_index();
        if dd == d {
            lemma_times_push(l[d], x, e);
        }
    }
}

/// With no employee twice, the fixed days put each employee on day `d` as often as day `d` is
/// among their fixed days.
proof fn lemma_fixed_fold_times(emps: Seq<EmployeeView>, e: EmployeeView, d: int)
    requires
        emps.no_duplicates(),
        0 <= d < 5,
    ensures
        fixed_fold(empty_lists(), emps).len() == 5,
        times_on(fixed_fold(empty_lists(), emps)[d], e) == if emps.contains(e) { occ(e.fixed_days, d) } else { 0 },
    decreases emps.len(),
{
    if emps.len() == 0 {
        lemma_times_contains(empty_lists()[d], e);
    } else {
        let prev = emps.drop_last();
        assert(prev.no_duplicates()) by {
            assert forall|i: int, j: int| 0 <= i < prev.len() && 0 <= j < prev.len() && i != j implies prev[i] != prev[j] by {
                assert(prev[i] == emps[i] && prev[j] == emps[j]);
            }
        }
        lemma_fixed_fold_times(prev, e, d);
        let x = emps.last();
        lemma_add_days_times(fixed_fold(empty_lists(), prev), x, x.fixed_days, e, d);
        if prev.contains(e) {
            let i = choose|i: int| 0 <= i < prev.len() && prev[i] == e;
            assert(emps[i] == e);
            if x == e {
                assert(emps[emps.len() - 1] == emps[i]);
            }
        }
        if emps.contains(e) && x != e {
            let i = choose|i: int| 0 <= i < emps.len() && emps[i] == e;
            assert(prev[i] == e);
        }
    }
}

/// A turn of someone other than `e` leaves the entries of `e` as they were.
proof fn lemma_step_times_other(
    before: Seq<Seq<EmployeeView>>,
    after: Seq<Seq<EmployeeView>>,
    x: EmployeeView,
    key: int,
    records: Seq<[bool; 5]>,
    mentor_days: Seq<Weekday>,
    e: EmployeeView,
    d: int,
)
    requires
        before.len() == 5,
        step_ok(before, after, x, key, records, mentor_days),
        x != e,
        0 <= d < 5,
    ensures
        times_on(after[d], e) == times_on(before[d], e),
{
    let allowed = allowed_combos(table_combos(key), x.fixed_days);
    if allowed.len() > 0 {
        let c = choose|c: Seq<Weekday>| #[trigger] allowed.contains(c)
            && crate::engine::is_best(crate::engine::lens(before), c, allowed, crate::engine::freq8_of(records), mentor_days)
            && after == add_days(before, x, c);
        lemma_add_days_times(before, x, c, e, d);
    }
}

/// Turns of others in a stretch of a trace leave the entries of `e` as they were.
proof fn lemma_trace_times_other(
    states: Seq<Seq<Seq<EmployeeView>>>,
    before: Seq<Seq<EmployeeView>>,
    after: Seq<Seq<EmployeeView>>,
    jobs: Seq<(EmployeeView, int)>,
    past: PastSchedules,
    mentor_lists: Seq<Seq<EmployeeView>>,
    ids: Seq<i32>,
    use_mentors: bool,
    e: EmployeeView,
    a: int,
    b: int,
    d: int,
)
    requires
        trace_ok(states, before, after, jobs, past, mentor_lists, ids, use_mentors),
        before.len() == 5,
        0 <= a <= b <= jobs.len(),
        forall|j: int| a <= j < b ==> (#[trigger] jobs[j]).0 != e,
        0 <= d < 5,
    ensures
        times_on(states[b][d], e) == times_on(states[a][d], e),
    decreases b - a,
{
    if a < b {
        lemma_trace_times_other(states, before, after, jobs, past, mentor_lists, ids, use_mentors, e, a, b - 1, d);
        lemma_trace_grows(states, before, after, jobs, past, mentor_lists, ids, use_mentors, b - 1);
        assert(jobs[b - 1].0 != e);
        lemma_step_times_other(states[b - 1], states[b], jobs[b - 1].0, jobs[b - 1].1,
            past.past_records(jobs[b - 1].0.id),
            crate::engine::job_mentor_days(jobs[b - 1].0, mentor_lists, ids, use_mentors), e, d);
    }
}

/// In a trace with no turn of `e`, the entries of `e` stay as they were.
proof fn lemma_trace_no_turn(
    states: Seq<Seq<Seq<EmployeeView>>>,
    before: Seq<Seq<EmployeeView>>,
    after: Seq<Seq<EmployeeView>>,
    jobs: Seq<(EmployeeView, int)>,
    past: PastSchedules,
    mentor_lists: Seq<Seq<EmployeeView>>,
    ids: Seq<i32>,
    use_mentors: bool,
    e: EmployeeView,
)
    requires
        trace_ok(states, before, after, jobs, past, mentor_lists, ids, use_mentors),
        before.len() == 5,
        forall|j: int| 0 <= j < jobs.len() ==> (#[trigger] jobs[j]).0 != e,
    ensures
        forall|d: int| 0 <= d < 5 ==> times_on(#[trigger] after[d], e) == times_on(before[d], e),
{
    assert forall|d: int| 0 <= d < 5 implies times_on(#[trigger] after[d], e) == times_on(before[d], e) by {
        lemma_trace_times_other(states, before, after, jobs, past, mentor_lists, ids, use_mentors, e, 0, jobs.len() as int, d);
    }
}

/// In a trace with exactly one turn of `e`, for `key` days, `e` gains the days of one allowed
/// combination (none when there is none) and nothing else.
proof fn lemma_trace_one_turn(
    states: Seq<Seq<Seq<EmployeeView>>>,
    before: Seq<Seq<EmployeeView>>,
    after: Seq<Seq<EmployeeView>>,
    jobs: Seq<(EmployeeView, int)>,
    past: PastSchedules,
    mentor_lists: Seq<Seq<EmployeeView>>,
    ids: Seq<i32>,
    use_mentors: bool,
    e: EmployeeView,
    t: int,
    key: int,
)
    requires
        trace_ok(states, before, after, jobs, past, mentor_lists, ids, use_mentors),
        before.len() == 5,
        0 <= t < jobs.len(),
        jobs[t] == (e, key),
        forall|j: int| 0 <= j < jobs.len() && j != t ==> (#[trigger] jobs[j]).0 != e,
    ensures
        allowed_combos(table_combos(key), e.fixed_days).len() == 0 ==> forall|d: int| 0 <= d < 5
            ==> times_on(#[trigger] after[d], e) == times_on(before[d], e),
        allowed_combos(table_combos(key), e.fixed_days).len() > 0 ==> exists|c: Seq<Weekday>|
            #[trigger] allowed_combos(table_combos(key), e.fixed_days).contains(c) && forall|d: int| 0 <= d < 5
                ==> times_on(#[trigger] after[d], e) == times_on(before[d], e) + occ(c, d),
{
    let allowed = allowed_combos(table_combos(key), e.fixed_days);
    lemma_trace_grows(states, before, after, jobs, past, mentor_lists, ids, use_mentors, t);
    assert(step_ok(states[t], states[t + 1], jobs[t].0, jobs[t].1, past.past_records(jobs[t].0.id),
        crate::engine::job_mentor_days(jobs[t].0, mentor_lists, ids, use_mentors)));
    assert forall|d: int| 0 <= d < 5 implies times_on(states[t][d], e) == times_on(before[d], e)
        && times_on(#[trigger] after[d], e) == times_on(states[t + 1][d], e) by {
        lemma_trace_times_other(states, before, after, jobs, past, mentor_lists, ids, use_mentors, e, 0, t, d);
        lemma_trace_times_other(states, before, after, jobs, past, mentor_lists, ids, use_mentors, e, t + 1,
            jobs.len() as int, d);
    }
    if allowed.len() > 0 {
        let c = choose|c: Seq<Weekday>| #[trigger] allowed.contains(c)
            && crate::engine::is_best(crate::engine::lens(states[t]), c, allowed,
                crate::engine::freq8_of(past.past_records(e.id)),
                crate::engine::job_mentor_days(e, mentor_lists, ids, use_mentors))
            && states[t + 1] == add_days(states[t], e, c);
        assert forall|d: int| 0 <= d < 5 implies times_on(#[trigger] after[d], e) == times_on(before[d], e) + occ(c, d) by {
            lemma_add_days_times(states[t], e, c, e, d);
        }
    }
}

/// How many turns of a list are turns of `e`.
pub open spec fn job_times(jobs: Seq<(EmployeeView, int)>, e: EmployeeView) -> nat
    decreases jobs.len(),
{
    if jobs.len() == 0 {
        0
    } else {
        job_times(jobs.drop_last(), e) + if jobs.last().0 == e { 1nat } else { 0nat }
    }
}

proof fn lemma_job_times_none(jobs: Seq<(EmployeeView, int)>, e: EmployeeView)
    requires
        job_times(jobs, e) == 0,
    ensures
        forall|j: int| 0 <= j < jobs.len() ==> (#[trigger] jobs[j]).0 != e,
    decreases jobs.len(),
{
    if jobs.len() > 0 {
        lemma_job_times_none(jobs.drop_last(), e);
        assert forall|j: int| 0 <= j < jobs.len() implies (#[trigger] jobs[j]).0 != e by {
            if j < jobs.len() - 1 {
                assert(jobs.drop_last()[j] == jobs[j]);
            }
        }
    }
}

proof fn lemma_job_times_one(jobs: Seq<(EmployeeView, int)>, e: EmployeeView)
    requires
        job_times(jobs, e) == 1,
    ensures
        exists|t: int| 0 <= t < jobs.len() && (#[trigger] jobs[t]).0 == e
            && forall|j: int| 0 <= j < jobs.len() && j != t ==> (#[trigger] jobs[j]).0 != e,
    decreases jobs.len(),
{
    let prev = jobs.drop_last();
    if jobs.last().0 == e {
        lemma_job_times_none(prev, e);
        let t = jobs.len() - 1;
        assert forall|j: int| 0 <= j < jobs.len() && j != t implies (#[trigger] jobs[j]).0 != e by {
            assert(prev[j] == jobs[j]);
        }
    } else {
        lemma_job_times_one(prev, e);
        let t = choose|t: int| 0 <= t < prev.len() && (#[trigger] prev[t]).0 == e
            && forall|j: int| 0 <= j < prev.len() && j != t ==> (#[trigger] prev[j]).0 != e;
        assert(jobs[t] == prev[t]);
        assert forall|j: int| 0 <= j < jobs.len() && j != t implies (#[trigger] jobs[j]).0 != e by {
            if j < jobs.len() - 1 {
                assert(prev[j] == jobs[j]);
            }
        }
    }
}

proof fn lemma_job_times_add(a: Seq<(EmployeeView, int)>, b: Seq<(EmployeeView, int)>, e: EmployeeView)
    ensures
        job_times(a + b, e) == job_times(a, e) + job_times(b, e),
    decreases b.len(),
{
    if b.len() == 0 {
        assert(a + b =~= a);
    } else {
        lemma_job_times_add(a, b.drop_last(), e);
        assert((a + b).drop_last() =~= a + b.drop_last());
    }
}

proof fn lemma_job_times_tagged(s: Seq<EmployeeView>, k: int, e: EmployeeView)
    ensures
        job_times(s.map_values(|x: EmployeeView| (x, k)), e) == times_on(s, e),
    decreases s.len(),
{
    broadcast use vstd::seq_lib::group_to_multiset_ensures;
    if s.len() == 0 {
        assert(s.map_values(|x: EmployeeView| (x, k)) =~= Seq::<(EmployeeView, int)>::empty());
        lemma_times_contains(s, e);
    } else {
        lemma_job_times_tagged(s.drop_last(), k, e);
        assert(s.map_values(|x: EmployeeView| (x, k)).drop_last() =~= s.drop_last().map_values(|x: EmployeeView| (x, k)));
        assert(s =~= s.drop_last().push(s.last()));
        lemma_times_push(s.drop_last(), s.last(), e);
    }
}

proof fn lemma_times_filter(s: Seq<EmployeeView>, p: spec_fn(EmployeeView) -> bool, e: EmployeeView)
    ensures
        times_on(s.filter(p), e) == if p(e) { times_on(s, e) } else { 0 },
    decreases s.len(),
{
    reveal(Seq::filter);
    if s.len() == 0 {
        lemma_times_contains(s.filter(p), e);
        lemma_times_contains(s, e);
    } else {
        let prev = s.drop_last();
        lemma_times_filter(prev, p, e);
        assert(s =~= prev.push(s.last()));
        lemma_times_push(prev, s.last(), e);
        if p(s.last()) {
            lemma_times_push(prev.filter(p), s.last(), e);
        }
    }
}

proof fn lemma_times_unique(s: Seq<EmployeeView>, e: EmployeeView)
    requires
        s.no_duplicates(),
    ensures
        times_on(s, e) == if s.contains(e) { 1nat } else { 0nat },
    decreases s.len(),
{
    lemma_times_contains(s, e);
    if s.len() > 0 {
        let prev = s.drop_last();
        assert(prev.no_duplicates()) by {
            assert forall|i: int, j: int| 0 <= i < prev.len() && 0 <= j < prev.len() && i != j implies prev[i] != prev[j] by {
                assert(prev[i] == s[i] && prev[j] == s[j]);
            }
        }
        lemma_times_unique(prev, e);
        assert(s =~= prev.push(s.last()));
        lemma_times_push(prev, s.last(), e);
        if prev.contains(e) {
            let i = choose|i: int| 0 <= i < prev.len() && prev[i] == e;
            assert(s[i] == e);
            if s.last() == e {
                assert(s[s.len() - 1] == s[i]);
            }
        }
        if s.contains(e) && s.last() != e {
            let i = choose|i: int| 0 <= i < s.len() && s[i] == e;
            assert(prev[i] == e);
        }
    }
}

/// The employees of `flex` who still need `key` days.
pub open spec fn needing(flex: Seq<EmployeeView>, key: int) -> Seq<EmployeeView> {
    flex.filter(|e: EmployeeView| remaining(e) == key)
}

/// With each employee once and one group per number of days, a pass has at most one turn of
/// an employee, for the days they still need: exactly one when they belong to the pass and a
/// group holds them.
proof fn lemma_phase_jobs_times(groups: Seq<(i32, Seq<EmployeeView>)>, p: Phase, flex: Seq<EmployeeView>, e: EmployeeView)
    requires
        times_on(flex, e) == if flex.contains(e) { 1nat } else { 0nat },
        forall|i: int, j: int| 0 <= i < j < groups.len() ==> (#[trigger] groups[i]).0 > (#[trigger] groups[j]).0,
        forall|i: int| 0 <= i < groups.len() ==> (#[trigger] groups[i]).1.to_multiset() == needing(flex, groups[i].0 as int).to_multiset(),
    ensures
        job_times(phase_jobs(groups, p), e) == if in_phase(e, p) && flex.contains(e)
            && exists|i: int| 0 <= i < groups.len() && (#[trigger] groups[i]).0 == remaining(e) { 1nat } else { 0nat },
        forall|j: int| 0 <= j < phase_jobs(groups, p).len() && (#[trigger] phase_jobs(groups, p)[j]).0 == e
            ==> phase_jobs(groups, p)[j].1 == remaining(e),
    decreases groups.len(),
{
    if groups.len() > 0 {
        let prev = groups.drop_last();
        assert forall|i: int, j: int| 0 <= i < j < prev.len() implies (#[trigger] prev[i]).0 > (#[trigger] prev[j]).0 by {
            assert(prev[i] == groups[i] && prev[j] == groups[j]);
        }
        assert forall|i: int| 0 <= i < prev.len() implies (#[trigger] prev[i]).1.to_multiset() == needing(flex, prev[i].0 as int).to_multiset() by {
            assert(prev[i] == groups[i]);
        }
        lemma_phase_jobs_times(prev, p, flex, e);
        let g = groups.last();
        let inp = |x: EmployeeView| in_phase(x, p);
        let tag = |x: EmployeeView| (x, g.0 as int);
        let part = g.1.filter(inp).map_values(tag);
        let before = phase_jobs(prev, p);
        assert(phase_jobs(groups, p) == before + part);
        lemma_job_times_add(before, part, e);
        lemma_job_times_tagged(g.1.filter(inp), g.0 as int, e);
        lemma_times_filter(g.1, inp, e);
        assert(g.1.to_multiset() == needing(flex, g.0 as int).to_multiset());
        lemma_times_filter(flex, |x: EmployeeView| remaining(x) == g.0 as int, e);
        // at most one group needs remaining(e) days
        if exists|i: int| 0 <= i < prev.len() && (#[trigger] prev[i]).0 == remaining(e) {
            let i = choose|i: int| 0 <= i < prev.len() && (#[trigger] prev[i]).0 == remaining(e);
            assert(groups[i].0 > groups[groups.len() - 1].0);
            assert(groups[i] == prev[i]);
            assert(exists|i: int| 0 <= i < groups.len() && (#[trigger] groups[i]).0 == remaining(e));
        } else if g.0 == remaining(e) {
            assert(groups[groups.len() - 1].0 == remaining(e));
        } else {
            assert forall|i: int| 0 <= i < groups.len() implies (#[trigger] groups[i]).0 != remaining(e) by {
                if i < prev.len() {
                    assert(prev[i] == groups[i]);
                }
            }
        }
        let all = phase_jobs(groups, p);
        assert forall|j: int| 0 <= j < all.len() && (#[trigger] all[j]).0 == e implies all[j].1 == remaining(e) by {
            if j < before.len() {
                assert(all[j] == before[j]);
            } else {
                let q = j - before.len();
                assert(all[j] == part[q]);
                let f = g.1.filter(inp);
                assert(part[q] == (f[q], g.0 as int));
                assert(f.contains(e));
                lemma_times_contains(f, e);
                lemma_times_contains(g.1, e);
            }
        }
    }
}

proof fn lemma_occ_contains(c: Seq<Weekday>, w: Weekday)
    ensures
        occ(c, w.spec_index()) > 0 <==> c.contains(w),
        occ(c, w.spec_index()) >= 0,
    decreases c.len(),
{
    if c.len() > 0 {
        let prev = c.drop_last();
        lemma_occ_contains(prev, w);
        assert(c.last().spec_index() == w.spec_index() <==> c.last() == w);
        if c.contains(w) {
            let i = choose|i: int| 0 <= i < c.len() && c[i] == w;
            if i < c.len() - 1 {
                assert(prev[i] == w);
                assert(prev.contains(w));
            } else {
                assert(c.last() == w);
            }
        }
        if prev.contains(w) {
            let i = choose|i: int| 0 <= i < prev.len() && prev[i] == w;
            assert(c[i] == w);
            assert(c.contains(w));
        }
        if c.last() == w {
            assert(c[c.len() - 1] == w);
            assert(c.contains(w));
        }
    }
}

proof fn lemma_occ_at_most_one(c: Seq<Weekday>, w: Weekday)
    requires
        c.no_duplicates(),
    ensures
        occ(c, w.spec_index()) <= 1,
    decreases c.len(),
{
    if c.len() > 0 {
        let prev = c.drop_last();
        assert(prev.no_duplicates()) by {
            assert forall|i: int, j: int| 0 <= i < prev.len() && 0 <= j < prev.len() && i != j implies prev[i] != prev[j] by {
                assert(prev[i] == c[i] && prev[j] == c[j]);
            }
        }
        lemma_occ_at_most_one(prev, w);
        if c.last().spec_index() == w.spec_index() {
            assert(c.last() == w);
            if occ(prev, w.spec_index()) > 0 {
                lemma_occ_contains(prev, w);
                let i = choose|i: int| 0 <= i < prev.len() && prev[i] == w;
                assert(c[i] == c[c.len() - 1]);
            }
        }
    }
}

proof fn lemma_increasing_unique(c: Seq<Weekday>)
    requires
        strictly_increasing(c),
    ensures
        c.no_duplicates(),
{
    assert forall|i: int, j: int| 0 <= i < c.len() && 0 <= j < c.len() && i != j implies c[i] != c[j] by {
        if i < j {
            assert(c[i].spec_index() < c[j].spec_index());
        } else {
            assert(c[j].spec_index() < c[i].spec_index());
        }
    }
}

/// An allowed combination has no day twice and none of the fixed days.
proof fn lemma_allowed_days(key: int, fixed: Seq<Weekday>, c: Seq<Weekday>, w: Weekday)
    requires
        allowed_combos(table_combos(key), fixed).contains(c),
    ensures
        occ(c, w.spec_index()) <= 1,
        c.contains(w) ==> !fixed.contains(w),
{
    let pred = |x: Seq<Weekday>| avoids(x, fixed);
    table_combos(key).lemma_filter_contains_rev(pred, c);
    let f = table_combos(key).filter(pred);
    let q = choose|q: int| 0 <= q < f.len() && f[q] == c;
    table_combos(key).lemma_filter_pred(pred, q);
    let j = choose|j: int| 0 <= j < table_combos(key).len() && table_combos(key)[j] == c;
    law_combination_table(key);
    assert(strictly_increasing(table_combos(key)[j]));
    lemma_increasing_unique(c);
    lemma_occ_at_most_one(c, w);
    if c.contains(w) {
        let i = choose|i: int| 0 <= i < c.len() && c[i] == w;
        assert(!fixed.contains(c[i]));
    }
}

/// The entries of an employee at the end of a schedule: their fixed days, plus (with a turn
/// and an allowed combination) the days of the combination they were given.
#[verifier::rlimit(80)]
proof fn lemma_final_entries(
    emps: Seq<EmployeeView>,
    past: PastSchedules,
    year: i32,
    month: u32,
    r: MonthlyScheduleView,
    k: int,
) -> (c: Seq<Weekday>)
    requires
        schedule_ok(emps, past, year, month, r),
        0 <= k < emps.len(),
        emps.no_duplicates(),
    ensures
        r.days.len() == 5,
        remaining(emps[k]) > 0 && allowed_combos(table_combos(remaining(emps[k])), emps[k].fixed_days).len() > 0
            ==> allowed_combos(table_combos(remaining(emps[k])), emps[k].fixed_days).contains(c),
        forall|d: int| 0 <= d < 5 ==> times_on(#[trigger] r.days[d], emps[k]) == occ(emps[k].fixed_days, d)
            + if remaining(emps[k]) > 0 && allowed_combos(table_combos(remaining(emps[k])), emps[k].fixed_days).len() > 0 { occ(c, d) } else { 0 },
{
    let e = emps[k];
    let key = remaining(e);
    let fixed = e.fixed_days;
    let allowed = allowed_combos(table_combos(key), fixed);
    let (groups, mid) = choose|groups: Seq<(i32, Seq<EmployeeView>)>, mid: Seq<Seq<EmployeeView>>|
        #[trigger] grouping_ok(flexible_of(emps), groups)
        && #[trigger] run_ok(fixed_fold(empty_lists(), emps), mid, phase_jobs(groups, Phase::Mentors), past,
            Seq::empty(), Seq::empty(), false)
        && run_ok(mid, r.days, phase_jobs(groups, Phase::Mentees) + phase_jobs(groups, Phase::Others), past,
            mid, crate::engine::fixed_mentor_ids(emps), true);
    let ids = crate::engine::fixed_mentor_ids(emps);
    let start = fixed_fold(empty_lists(), emps);
    let j1 = phase_jobs(groups, Phase::Mentors);
    let j2 = phase_jobs(groups, Phase::Mentees);
    let j3 = phase_jobs(groups, Phase::Others);
    let j23 = j2 + j3;
    let flex = flexible_of(emps);
    assert(emps.contains(e));
    // entries after the fixed days
    assert forall|d: int| 0 <= d < 5 implies times_on(#[trigger] start[d], e) == occ(fixed, d) by {
        lemma_fixed_fold_times(emps, e, d);
    }
    lemma_fixed_fold_times(emps, e, 0);
    lemma_run_grows(start, mid, j1, past, Seq::empty(), Seq::empty(), false);
    lemma_run_grows(mid, r.days, j23, past, mid, ids, true);
    // the turns of `e`
    lemma_times_unique(emps, e);
    lemma_times_filter(emps, |x: EmployeeView| is_flexible(x), e);
    lemma_times_contains(flex, e);
    assert forall|i: int| 0 <= i < groups.len() implies (#[trigger] groups[i]).1.to_multiset() == needing(flex, groups[i].0 as int).to_multiset() by {}
    let has_group = exists|i: int| 0 <= i < groups.len() && (#[trigger] groups[i]).0 == key;
    if key > 0 {
        lemma_employee_has_turn(emps, groups, k);
    }
    if has_group {
        let i = choose|i: int| 0 <= i < groups.len() && (#[trigger] groups[i]).0 == key;
        assert(groups[i].0 > 0);
    }
    assert(has_group <==> key > 0);
    lemma_phase_jobs_times(groups, Phase::Mentors, flex, e);
    lemma_phase_jobs_times(groups, Phase::Mentees, flex, e);
    lemma_phase_jobs_times(groups, Phase::Others, flex, e);
    lemma_job_times_add(j2, j3, e);
    let st1 = choose|st: Seq<Seq<Seq<EmployeeView>>>| #[trigger] trace_ok(st, start, mid, j1, past, Seq::empty(), Seq::empty(), false);
    let st2 = choose|st: Seq<Seq<Seq<EmployeeView>>>| #[trigger] trace_ok(st, mid, r.days, j23, past, mid, ids, true);
    // where the turn of `e` (if any) is
    let turn1 = e.is_mentor && key > 0;
    let turn23 = !e.is_mentor && key > 0;
    assert(job_times(j1, e) == if turn1 { 1nat } else { 0nat });
    assert(job_times(j23, e) == if turn23 { 1nat } else { 0nat });
    // entries of `e` at the end: fixed days plus, with a turn and an allowed combination, its days
    let gained = key > 0 && allowed.len() > 0;
    let c: Seq<Weekday> = if turn1 {
        lemma_job_times_one(j1, e);
        let t = choose|t: int| 0 <= t < j1.len() && (#[trigger] j1[t]).0 == e
            && forall|j: int| 0 <= j < j1.len() && j != t ==> (#[trigger] j1[j]).0 != e;
        assert(j1[t].1 == key);
        assert(j1[t] == (e, key));
        lemma_trace_one_turn(st1, start, mid, j1, past, Seq::empty(), Seq::empty(), false, e, t, key);
        lemma_job_times_none(j23, e);
        lemma_trace_no_turn(st2, mid, r.days, j23, past, mid, ids, true, e);
        if allowed.len() > 0 {
            let c = choose|c: Seq<Weekday>| #[trigger] allowed.contains(c) && forall|d: int| 0 <= d < 5
                ==> times_on(#[trigger] mid[d], e) == times_on(start[d], e) + occ(c, d);
            c
        } else {
            Seq::empty()
        }
    } else if turn23 {
        lemma_job_times_none(j1, e);
        lemma_trace_no_turn(st1, start, mid, j1, past, Seq::empty(), Seq::empty(), false, e);
        lemma_job_times_one(j23, e);
        let t = choose|t: int| 0 <= t < j23.len() && (#[trigger] j23[t]).0 == e
            && forall|j: int| 0 <= j < j23.len() && j != t ==> (#[trigger] j23[j]).0 != e;
        if t < j2.len() {
            assert(j23[t] == j2[t]);
        } else {
            assert(j23[t] == j3[t - j2.len()]);
        }
        assert(j23[t].1 == key);
        assert(j23[t] == (e, key));
        lemma_trace_one_turn(st2, mid, r.days, j23, past, mid, ids, true, e, t, key);
        if allowed.len() > 0 {
            let c = choose|c: Seq<Weekday>| #[trigger] allowed.contains(c) && forall|d: int| 0 <= d < 5
                ==> times_on(#[trigger] r.days[d], e) == times_on(mid[d], e) + occ(c, d);
            c
        } else {
            Seq::empty()
        }
    } else {
        lemma_job_times_none(j1, e);
        lemma_trace_no_turn(st1, start, mid, j1, past, Seq::empty(), Seq::empty(), false, e);
        lemma_job_times_none(j23, e);
        lemma_trace_no_turn(st2, mid, r.days, j23, past, mid, ids, true, e);
        Seq::empty()
    };
    assert(gained ==> allowed.contains(c));
    assert forall|d: int| 0 <= d < 5 implies times_on(#[trigger] r.days[d], e) == occ(fixed, d)
        + if gained { occ(c, d) } else { 0 } by {
        assert(times_on(start[d], e) == occ(fixed, d));
    }
    c
}

/// Each employee is listed at most once a day, and on exactly their fixed days and, when they
/// need more days and the table offers a combination of that many days that avoids their
/// fixed days, the days of one such combination (as many as they still need); otherwise on
/// their fixed days alone. This
/// holds for a list of employees with no one twice, each with no fixed day twice.
pub proof fn law_days_listed_once(
    emps: Seq<EmployeeView>,
    past: PastSchedules,
    year: i32,
    month: u32,
    r: MonthlyScheduleView,
    k: int,
)
    requires
        schedule_ok(emps, past, year, month, r),
        0 <= k < emps.len(),
        emps.no_duplicates(),
        emps[k].fixed_days.no_duplicates(),
    ensures
        forall|w: Weekday| times_on(#[trigger] r.days[w.spec_index()], emps[k]) <= 1,
        remaining(emps[k]) > 0 && allowed_combos(table_combos(remaining(emps[k])), emps[k].fixed_days).len() > 0
            ==> exists|c: Seq<Weekday>| #[trigger] allowed_combos(table_combos(remaining(emps[k])), emps[k].fixed_days).contains(c)
                && c.len() == remaining(emps[k])
                && forall|w: Weekday| #[trigger] r.days[w.spec_index()].contains(emps[k])
                    <==> (emps[k].fixed_days.contains(w) || c.contains(w)),
        !(remaining(emps[k]) > 0 && allowed_combos(table_combos(remaining(emps[k])), emps[k].fixed_days).len() > 0)
            ==> forall|w: Weekday| #[trigger] r.days[w.spec_index()].contains(emps[k]) <==> emps[k].fixed_days.contains(w),
{
    let e = emps[k];
    let key = remaining(e);
    let fixed = e.fixed_days;
    let gained = key > 0 && allowed_combos(table_combos(key), fixed).len() > 0;
    let c = lemma_final_entries(emps, past, year, month, r, k);
    if gained {
        lemma_allowed_shape(key, fixed, c);
    }
    assert forall|w: Weekday| times_on(#[trigger] r.days[w.spec_index()], e) <= 1
        && (r.days[w.spec_index()].contains(e) <==> (fixed.contains(w) || (gained && c.contains(w)))) by {
        let d = w.spec_index();
        assert(times_on(r.days[d], e) == occ(fixed, d) + if gained { occ(c, d) } else { 0 });
        lemma_occ_at_most_one(fixed, w);
        lemma_occ_contains(fixed, w);
        lemma_times_contains(r.days[d], e);
        if gained {
            lemma_allowed_days(key, fixed, c, w);
            lemma_occ_contains(c, w);
        }
    }
}

/// Other things equal, sharing more days with the mentor makes a combination score strictly
/// better: of two combinations that leave the week equally balanced and repeat past days
/// equally, the one with more of the mentor's days has the lower score.
pub proof fn law_mentor_days_lower_score(
    counts: Seq<int>,
    c1: Seq<Weekday>,
    c2: Seq<Weekday>,
    freq8: Seq<u64>,
    mentor_days: Seq<Weekday>,
)
    requires
        spread(tallies_with(counts, c1)) == spread(tallies_with(counts, c2)),
        repetition8(freq8, c1) == repetition8(freq8, c2),
        mentor_matches(mentor_days, c1) > mentor_matches(mentor_days, c2),
    ensures
        combo_score(counts, c1, freq8, mentor_days) < combo_score(counts, c2, freq8, mentor_days),
{
}

/// With the week's tallies all equal, a single day adds the same imbalance whichever it is.
proof fn lemma_single_day_spread(counts: Seq<int>, w: Weekday)
    requires
        counts.len() == 5,
        forall|d: int| 0 <= d < 5 ==> #[trigger] counts[d] == counts[0],
    ensures
        spread(tallies_with(counts, seq![w])) == 20,
{
    let c = seq![w];
    assert(c.drop_last() =~= Seq::<Weekday>::empty());
    let v = tallies_with(counts, c);
    let a = counts[0];
    let i = w.spec_index();
    assert forall|d: int| 0 <= d < 5 implies #[trigger] v[d] == a + if d == i { 1int } else { 0int } by {
        assert(occ(c, d) == occ(c.drop_last(), d) + if c.last().spec_index() == d { 1int } else { 0int });
    }
    assert(sum(v) == 5 * a + 1) by {
        reveal_with_fuel(sum, 6);
        assert(v.drop_last().drop_last().drop_last().drop_last().drop_last() =~= Seq::<int>::empty());
    }
    let t = sum(v);
    let sq = Seq::new(5, |k: int| (5 * v[k] - t) * (5 * v[k] - t));
    assert forall|k: int| 0 <= k < 5 implies #[trigger] sq[k] == if k == i { 16int } else { 1int } by {
        let x = 5 * v[k] - t;
        if k == i {
            assert(x == 4);
            assert(x * x == 16) by (nonlinear_arith)
                requires
                    x == 4,
            ;
        } else {
            assert(x == -1);
            assert(x * x == 1) by (nonlinear_arith)
                requires
                    x == -1,
            ;
        }
    }
    assert(sum(sq) == 20) by {
        reveal_with_fuel(sum, 6);
        assert(sq.drop_last().drop_last().drop_last().drop_last().drop_last() =~= Seq::<int>::empty());
    }
}

/// A mentee whose week is evenly filled so far and who has no past days to avoid is given one
/// of the mentor's days when a single-day combination on one is offered: the best of the
/// single-day combinations is then a mentor day.
pub proof fn law_best_single_day_is_mentor_day(
    counts: Seq<int>,
    combos: Seq<Seq<Weekday>>,
    c: Seq<Weekday>,
    freq8: Seq<u64>,
    mentor_days: Seq<Weekday>,
)
    requires
        counts.len() == 5,
        forall|d: int| 0 <= d < 5 ==> #[trigger] counts[d] == counts[0],
        freq8.len() == 5,
        forall|d: int| 0 <= d < 5 ==> #[trigger] freq8[d] == freq8[0],
        forall|j: int| 0 <= j < combos.len() ==> (#[trigger] combos[j]).len() == 1,
        exists|j: int| 0 <= j < combos.len() && mentor_days.contains((#[trigger] combos[j])[0]),
        combos.contains(c),
        is_best(counts, c, combos, freq8, mentor_days),
    ensures
        mentor_days.contains(c[0]),
{
    let j = choose|j: int| 0 <= j < combos.len() && mentor_days.contains((#[trigger] combos[j])[0]);
    let q = choose|q: int| 0 <= q < combos.len() && combos[q] == c;
    let cj = combos[j];
    assert(c =~= seq![c[0]]);
    assert(cj =~= seq![cj[0]]);
    lemma_single_day_spread(counts, c[0]);
    lemma_single_day_spread(counts, cj[0]);
    assert(c.drop_last() =~= Seq::<Weekday>::empty());
    assert(cj.drop_last() =~= Seq::<Weekday>::empty());
    assert(c.last() == c[0]);
    assert(cj.last() == cj[0]);
    assert(repetition8(freq8, c.drop_last()) == 0);
    assert(repetition8(freq8, cj.drop_last()) == 0);
    assert(mentor_matches(mentor_days, c.drop_last()) == 0);
    assert(mentor_matches(mentor_days, cj.drop_last()) == 0);
    assert(repetition8(freq8, c) == freq8[c[0].spec_index()]);
    assert(repetition8(freq8, cj) == freq8[cj[0].spec_index()]);
    assert(mentor_matches(mentor_days, cj) == 1);
    assert(combo_score(counts, c, freq8, mentor_days) <= combo_score(counts, cj, freq8, mentor_days));
}

proof fn lemma_first_repeat_from(days: Seq<Weekday>, j: int)
    requires
        0 <= j <= days.len(),
    ensures
        first_repeat_from(days, j) is None <==> forall|k: int| j <= k < days.len() ==> !days.subrange(0, k).contains(#[trigger] days[k]),
    decreases days.len() - j,
{
    if j < days.len() {
        lemma_first_repeat_from(days, j + 1);
    }
}

proof fn lemma_first_repeat_none(days: Seq<Weekday>)
    ensures
        first_repeat(days) is None <==> days.no_duplicates(),
{
    lemma_first_repeat_from(days, 0);
    if first_repeat(days) is None {
        assert forall|a: int, b: int| 0 <= a < days.len() && 0 <= b < days.len() && a != b implies days[a] != days[b] by {
            if a < b {
                assert(days.subrange(0, b)[a] == days[a]);
                assert(!days.subrange(0, b).contains(days[b]));
            } else {
                assert(days.subrange(0, a)[b] == days[b]);
                assert(!days.subrange(0, a).contains(days[a]));
            }
        }
    }
    if days.no_duplicates() {
        assert forall|k: int| 0 <= k < days.len() implies !days.subrange(0, k).contains(#[trigger] days[k]) by {
            if days.subrange(0, k).contains(days[k]) {
                let q = choose|q: int| 0 <= q < k && days.subrange(0, k)[q] == days[k];
                assert(days[q] == days[k]);
            }
        }
    }
}

/// An employee is valid exactly when their name is not blank, they need between 0 and 5 office
/// days a week (both included), they have no more fixed days than that and no fixed day
/// twice.
pub proof fn law_employee_validity(e: EmployeeView)
    ensures
        validation_error(e) is None <==> {
            &&& !is_blank(e.name)
            &&& 0 <= e.required_days <= 5
            &&& e.fixed_days.len() <= e.required_days
            &&& e.fixed_days.no_duplicates()
        },
{
    lemma_first_repeat_none(e.fixed_days);
}

/// The mentor links of `m` are all sound: every mentee's mentor id names an employee who
/// comes into the office on at least one day.
pub open spec fn mentors_all_in_office(m: Map<i32, EmployeeView>) -> bool {
    forall|id: i32| #[trigger] m.contains_key(id) && m[id].is_mentee && m[id].mentor_id is Some ==> {
        &&& m.contains_key(m[id].mentor_id->0)
        &&& m[m[id].mentor_id->0].required_days > 0
    }
}

proof fn lemma_warnings_in_empty(m: Map<i32, EmployeeView>, ks: Seq<i32>)
    requires
        mentors_all_in_office(m),
        forall|i: int| 0 <= i < ks.len() ==> m.contains_key(#[trigger] ks[i]),
    ensures
        warnings_in(m, ks) == Seq::<Seq<char>>::empty(),
    decreases ks.len(),
{
    if ks.len() > 0 {
        lemma_warnings_in_empty(m, ks.drop_last());
        let id = ks.last();
        assert(m.contains_key(id));
        assert(warnings_of(m, id) =~= Seq::<Seq<char>>::empty());
        assert(warnings_in(m, ks) =~= Seq::<Seq<char>>::empty());
    }
}

proof fn lemma_warnings_in_has(m: Map<i32, EmployeeView>, ks: Seq<i32>, i: int, x: Seq<char>)
    requires
        0 <= i < ks.len(),
        warnings_of(m, ks[i]).contains(x),
    ensures
        warnings_in(m, ks).contains(x),
    decreases ks.len(),
{
    let prev = warnings_in(m, ks.drop_last());
    let last = warnings_of(m, ks.last());
    if i < ks.len() - 1 {
        assert(ks.drop_last()[i] == ks[i]);
        lemma_warnings_in_has(m, ks.drop_last(), i, x);
        let q = choose|q: int| 0 <= q < prev.len() && prev[q] == x;
        assert((prev + last)[q] == x);
    } else {
        let q = choose|q: int| 0 <= q < last.len() && last[q] == x;
        assert((prev + last)[prev.len() + q] == x);
    }
}

/// What checking the mentor links gives, whatever order the employees are visited in: no
/// warning at all when every mentee's mentor exists and comes into the office on some day;
/// the fully-remote warning for a mentee exactly when their mentor needs 0 office days; and
/// the invalid-mentor warning for a mentee whose mentor id names nobody.
pub proof fn law_mentorship_warnings(m: Map<i32, EmployeeView>, ks: Seq<i32>)
    requires
        ks.to_set() == m.dom(),
    ensures
        mentors_all_in_office(m) ==> warnings_in(m, ks) == Seq::<Seq<char>>::empty(),
        forall|id: i32| #[trigger] m.contains_key(id) && m[id].is_mentee && m[id].mentor_id is Some
            && m.contains_key(m[id].mentor_id->0) && m[m[id].mentor_id->0].required_days == 0
            ==> warnings_in(m, ks).contains(remote_mentor_warning(m[id].name, m[m[id].mentor_id->0].name)),
        forall|id: i32| #[trigger] m.contains_key(id) && m[id].is_mentee && m[id].mentor_id is Some
            && !m.contains_key(m[id].mentor_id->0)
            ==> warnings_in(m, ks).contains(invalid_mentor_warning(m[id].name)),
        forall|id: i32| #[trigger] m.contains_key(id) ==> warnings_of(m, id).len() <= 1
            && (m[id].is_mentee && m[id].mentor_id is Some && m.contains_key(m[id].mentor_id->0)
                && m[m[id].mentor_id->0].required_days != 0 ==> warnings_of(m, id).len() == 0),
{
    assert forall|i: int| 0 <= i < ks.len() implies m.contains_key(#[trigger] ks[i]) by {
        assert(ks.to_set().contains(ks[i]));
    }
    if mentors_all_in_office(m) {
        lemma_warnings_in_empty(m, ks);
    }
    assert forall|id: i32| #[trigger] m.contains_key(id) && m[id].is_mentee && m[id].mentor_id is Some
        implies warnings_of(m, id).len() == 1 ==> warnings_in(m, ks).contains(warnings_of(m, id)[0]) by {
        assert(ks.to_set().contains(id));
        let i = choose|i: int| 0 <= i < ks.len() && ks[i] == id;
        if warnings_of(m, id).len() == 1 {
            assert(warnings_of(m, id).contains(warnings_of(m, id)[0]));
            lemma_warnings_in_has(m, ks, i, warnings_of(m, id)[0]);
        }
    }
}

/// `placed` followed by the first `m` pieces of `ws`, six millimetres apart from height `y`
/// down.
pub open spec fn first_pieces(placed: Seq<PlacedView>, ws: Seq<Seq<char>>, size: nat, bold: bool, y: int, m: int) -> Seq<PlacedView> {
    placed + Seq::new(m as nat, |i: int| PlacedView { text: ws[i], size, bold, y: y - 6 * i })
}

/// Placing wrapped pieces from height `y` down loses nothing while there is room: the first `m`
/// pieces are placed, in order, six millimetres apart from `y` down, every one at or above the
/// bottom margin, and the placing stops before the whole list only once the next height is
/// below the margin.
pub proof fn law_place_pieces(ws: Seq<Seq<char>>, size: nat, bold: bool, placed: Seq<PlacedView>, y: int)
    ensures
        exists|m: int| {
            &&& 0 <= m <= ws.len()
            &&& place_pieces(ws, size, bold, (placed, y)) == (
                #[trigger] first_pieces(placed, ws, size, bold, y, m),
                y - 6 * m,
            )
            &&& m > 0 ==> y - 6 * (m - 1) >= BOTTOM
            &&& m < ws.len() ==> y - 6 * m < BOTTOM
        },
    decreases ws.len(),
{
    if ws.len() == 0 {
        assert(first_pieces(placed, ws, size, bold, y, 0) =~= placed);
        assert(place_pieces(ws, size, bold, (placed, y)) == (
            first_pieces(placed, ws, size, bold, y, 0),
            y - 6 * 0,
        ));
    } else {
        let prev = ws.drop_last();
        law_place_pieces(prev, size, bold, placed, y);
        let m = choose|m: int| {
            &&& 0 <= m <= prev.len()
            &&& place_pieces(prev, size, bold, (placed, y)) == (
                #[trigger] first_pieces(placed, prev, size, bold, y, m),
                y - 6 * m,
            )
            &&& m > 0 ==> y - 6 * (m - 1) >= BOTTOM
            &&& m < prev.len() ==> y - 6 * m < BOTTOM
        };
        let before = first_pieces(placed, prev, size, bold, y, m);
        assert(before =~= first_pieces(placed, ws, size, bold, y, m));
        if y - 6 * m < BOTTOM {
            assert(place_pieces(ws, size, bold, (placed, y)) == (before, y - 6 * m));
        } else {
            assert(m == prev.len());
            let after = before.push(PlacedView { text: ws.last(), size, bold, y: y - 6 * m });
            assert(after =~= first_pieces(placed, ws, size, bold, y, m + 1));
            assert(place_pieces(ws, size, bold, (placed, y)) == (after, y - 6 * (m + 1)));
        }
    }
}

/// A line of a report is drawn whole while the page has room: once the lines before it end at
/// a height at or above the bottom margin, the texts placed for it are the first pieces of
/// its wrapped, styled text, in order and six millimetres apart, and all of them when the
/// last would still sit at or above the margin.
pub proof fn law_layout_line_pieces(lines: Seq<Seq<char>>, line: Seq<char>)
    requires
        layout_lines(lines).1 >= BOTTOM,
    ensures
        ({
            let (placed, y) = layout_lines(lines);
            let (text, size, bold) = line_style(line);
            let ws = wrapped(text, 170, size);
            &&& exists|m: int| 0 <= m <= ws.len() && (m < ws.len() ==> y - 6 * m < BOTTOM)
                && layout_lines(lines.push(line)).0
                    == #[trigger] first_pieces(placed, ws, size, bold, y, m)
            &&& y - 6 * (ws.len() - 1) >= BOTTOM ==> layout_lines(lines.push(line)).0
                == first_pieces(placed, ws, size, bold, y, ws.len() as int)
        }),
{
    let all = lines.push(line);
    assert(all.drop_last() =~= lines);
    let (placed, y) = layout_lines(lines);
    let (text, size, bold) = line_style(line);
    let ws = wrapped(text, 170, size);
    law_place_pieces(ws, size, bold, placed, y);
    let m = choose|m: int| {
        &&& 0 <= m <= ws.len()
        &&& place_pieces(ws, size, bold, (placed, y)) == (
            #[trigger] first_pieces(placed, ws, size, bold, y, m),
            y - 6 * m,
        )
        &&& m > 0 ==> y - 6 * (m - 1) >= BOTTOM
        &&& m < ws.len() ==> y - 6 * m < BOTTOM
    };
    assert(layout_lines(all).0 == place_pieces(ws, size, bold, (placed, y)).0);
    if y - 6 * (ws.len() - 1) >= BOTTOM {
        assert(m == ws.len());
    }
}

proof fn lemma_office_days(week: Seq<FormStatus>, n: int)
    requires
        0 <= n <= 5,
    ensures
        forall|w: Weekday| #[trigger] office_days(week, n).contains(w)
            <==> (w.spec_index() < n && week[w.spec_index()] == FormStatus::Office),
        strictly_increasing(office_days(week, n)),
        forall|i: int| 0 <= i < office_days(week, n).len() ==> (#[trigger] office_days(week, n)[i]).spec_index() < n,
    decreases n,
{
    if n > 0 {
        lemma_office_days(week, n - 1);
        let prev = office_days(week, n - 1);
        let d = weekday_at(n - 1);
        assert(d.spec_index() == n - 1);
        if week[n - 1] == FormStatus::Office {
            let cur = prev.push(d);
            assert forall|w: Weekday| #[trigger] cur.contains(w)
                <==> (w.spec_index() < n && week[w.spec_index()] == FormStatus::Office) by {
                if w.spec_index() == n - 1 {
                    assert(w == d);
                    assert(cur[cur.len() - 1] == w);
                }
                if prev.contains(w) {
                    let i = choose|i: int| 0 <= i < prev.len() && prev[i] == w;
                    assert(cur[i] == w);
                }
                if cur.contains(w) && w != d {
                    let i = choose|i: int| 0 <= i < cur.len() && cur[i] == w;
                    assert(prev[i] == w);
                }
            }
            assert forall|i: int, j: int| 0 <= i < j < cur.len() implies (#[trigger] cur[i]).spec_index() < (#[trigger] cur[j]).spec_index() by {
                if j < cur.len() - 1 {
                    assert(cur[i] == prev[i] && cur[j] == prev[j]);
                } else {
                    assert(cur[i] == prev[i]);
                }
            }
        } else {
            assert forall|w: Weekday| #[trigger] prev.contains(w)
                <==> (w.spec_index() < n && week[w.spec_index()] == FormStatus::Office) by {
                if w.spec_index() == n - 1 {
                    assert(w == d);
                }
            }
        }
    }
}

/// Editing an employee through the form takes the name, the days per week (0 when none is
/// chosen) and the fixed days (the days the form marks as office days, Monday first, each
/// once) from the form, takes the sex and role the form names, and keeps the id and the mentor
/// links.
pub proof fn law_edit_takes_form(e: EmployeeView, form: EmployeeForm)
    ensures
        ({
            let x = edited_employee(e, form);
            &&& x.id == e.id
            &&& x.is_mentor == e.is_mentor
            &&& x.is_mentee == e.is_mentee
            &&& x.mentor_id == e.mentor_id
            &&& x.name == form.name@
            &&& x.required_days == match form.days_per_week {
                Some(d) => d as int,
                None => 0int,
            }
            &&& forall|w: Weekday| #[trigger] x.fixed_days.contains(w)
                <==> form.attendance@[w.spec_index()] == FormStatus::Office
            &&& strictly_increasing(x.fixed_days)
            &&& (form.sex is Some && parse_sex(form.sex->0@) is Some ==> x.sex == parse_sex(form.sex->0@)->0)
            &&& (form.role is Some && parse_role(form.role->0@) is Some ==> x.role == parse_role(form.role->0@)->0)
        }),
{
    lemma_office_days(form.attendance@, 5);
}

} // verus!
