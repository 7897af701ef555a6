use vstd::prelude::*;
use std::collections::HashMap;
use crate::schedule::{MonthlySchedule, MonthlyScheduleView, PastSchedules, ids_of, day_view, scheduled_ids};
use crate::excel::row_marks;
use crate::roster::contains_id;

verus! {

broadcast use vstd::std_specs::hash::group_hash_axioms;

/// The attendance that earlier schedules record, by employee id: for every employee listed
/// on some day of a schedule, one week per such schedule, in the order of the schedules, with
/// the weekdays on which the employee was listed.
pub open spec fn past_from(ss: Seq<MonthlyScheduleView>) -> Map<i32, Seq<Seq<bool>>>
    decreases ss.len(),
{
    if ss.len() == 0 {
        Map::empty()
    } else {
        let m = past_from(ss.drop_last());
        let last = ss.last();
        Map::new(
            |id: i32| m.contains_key(id) || scheduled_ids(last.days).contains(id),
            |id: i32|
                if scheduled_ids(last.days).contains(id) {
                    (if m.contains_key(id) {
                        m[id]
                    } else {
                        Seq::empty()
                    }).push(row_marks(last.days, id))
                } else {
                    m[id]
                },
        )
    }
}

/// The recorded attendance, with each week as a sequence.
pub open spec fn records_view(m: Map<i32, Vec<[bool; 5]>>) -> Map<i32, Seq<Seq<bool>>> {
    m.map_values(|v: Vec<[bool; 5]>| v@.map_values(|a: [bool; 5]| a@))
}

/// `past_from` for the schedules before, updated for the ids in `done` of the schedule `last`.
pub open spec fn partly_added(m: Map<i32, Seq<Seq<bool>>>, last: MonthlyScheduleView, done: Set<i32>) -> Map<i32, Seq<Seq<bool>>> {
    Map::new(
        |id: i32| m.contains_key(id) || done.contains(id),
        |id: i32|
            if done.contains(id) {
                (if m.contains_key(id) {
                    m[id]
                } else {
                    Seq::empty()
                }).push(row_marks(last.days, id))
            } else {
                m[id]
            },
    )
}

/// The id is listed on a day before `d`, or among the first `k` of day `d`.
pub open spec fn seen_so_far(days: Seq<Seq<crate::employee::EmployeeView>>, d: int, k: int, id: i32) -> bool {
    (exists|e: int| 0 <= e < d && #[trigger] ids_of(days[e]).contains(id)) || ids_of(days[d]).take(k).contains(id)
}

/// The ids listed on some day of a schedule, each once.
pub fn listed_ids(schedule: &MonthlySchedule) -> (r: Vec<i32>)
    requires
        schedule.wf(),
    ensures
        r@.no_duplicates(),
        forall|id: i32| r@.contains(id) <==> scheduled_ids(schedule@.days).contains(id),
{
    let mut ids: Vec<i32> = Vec::new();
    let mut d: usize = 0;
    while d < 5
        invariant
            d <= 5,
            schedule.wf(),
            ids@.no_duplicates(),
            forall|id: i32| ids@.contains(id) <==> exists|e: int| 0 <= e < d && #[trigger] ids_of(schedule@.days[e]).contains(id),
        decreases 5 - d,
    {
        let list = &schedule.schedules[d];
        proof {
            assert(schedule@.days[d as int] == day_view(list@));
        }
        let mut k: usize = 0;
        proof {
            assert forall|x: i32| ids@.contains(x) <==> #[trigger] seen_so_far(schedule@.days, d as int, 0, x) by {
                assert(ids_of(schedule@.days[d as int]).take(0) =~= Seq::<i32>::empty());
            }
        }
        while k < list.len()
            invariant
                d < 5,
                schedule.wf(),
                list == &schedule.schedules@[d as int],
                schedule@.days[d as int] == day_view(list@),
                k <= list.len(),
                ids@.no_duplicates(),
                forall|id: i32| ids@.contains(id) <==> #[trigger] seen_so_far(schedule@.days, d as int, k as int, id),
            decreases list.len() - k,
        {
            let id = list[k].id;
            let ghost ds = ids_of(schedule@.days[d as int]);
            proof {
                assert(ds[k as int] == id);
                assert(ds.take(k as int + 1) =~= ds.take(k as int).push(id));
            }
            let ghost old_ids = ids@;
            if !contains_id(&ids, id) {
                ids.push(id);
                proof {
                    assert forall|x: i32| ids@.contains(x) <==> old_ids.contains(x) || x == id by {
                        if ids@.contains(x) && x != id {
                            let t = choose|t: int| 0 <= t < ids@.len() && ids@[t] == x;
                            assert(old_ids[t] == x);
                        }
                        if old_ids.contains(x) {
                            let t = choose|t: int| 0 <= t < old_ids.len() && old_ids[t] == x;
                            assert(ids@[t] == x);
                        }
                        if x == id {
                            assert(ids@[old_ids.len() as int] == x);
                        }
                    }
                }
            }
            proof {
                assert forall|x: i32| ds.take(k as int + 1).contains(x) <==> ds.take(k as int).contains(x) || x == id by {
                    if ds.take(k as int + 1).contains(x) && x != id {
                        let t = choose|t: int| 0 <= t < k + 1 && #[trigger] ds.take(k as int + 1)[t] == x;
                        assert(ds.take(k as int)[t] == x);
                    }
                    if ds.take(k as int).contains(x) {
                        let t = choose|t: int| 0 <= t < k && #[trigger] ds.take(k as int)[t] == x;
                        assert(ds.take(k as int + 1)[t] == x);
                    }
                    if x == id {
                        assert(ds.take(k as int + 1)[k as int] == x);
                    }
                }
            }
            proof {
                assert forall|x: i32| ids@.contains(x) <==> #[trigger] seen_so_far(schedule@.days, d as int, k as int + 1, x) by {
                    assert(seen_so_far(schedule@.days, d as int, k as int + 1, x) == (seen_so_far(schedule@.days, d as int, k as int, x) || x == id));
                }
            }
            k = k + 1;
        }
        proof {
            let ds = ids_of(schedule@.days[d as int]);
            assert(ds.take(list.len() as int) =~= ds);
            assert forall|x: i32| ids@.contains(x) <==> exists|e: int| 0 <= e < d + 1 && #[trigger] ids_of(schedule@.days[e]).contains(x) by {
                assert(ids@.contains(x) == seen_so_far(schedule@.days, d as int, list.len() as int, x));
                if ds.contains(x) {
                    assert(ids_of(schedule@.days[d as int]).contains(x));
                }
                if exists|e: int| 0 <= e < d + 1 && #[trigger] ids_of(schedule@.days[e]).contains(x) {
                    let e = choose|e: int| 0 <= e < d + 1 && #[trigger] ids_of(schedule@.days[e]).contains(x);
                    if e == d {
                        assert(ds.contains(x));
                    }
                }
            }
        }
        d = d + 1;
    }
    ids
}

/// The attendance recorded by earlier schedules, by employee; see [`past_from`].
pub fn past_schedules_from(schedules: &Vec<MonthlySchedule>) -> (r: PastSchedules)
    requires
        forall|k: int| 0 <= k < schedules@.len() ==> (#[trigger] schedules@[k]).wf(),
    ensures
        records_view(r@) == past_from(schedules@.map_values(|s: MonthlySchedule| s@)),
{
    let ghost sv = schedules@.map_values(|s: MonthlySchedule| s@);
    let mut past: PastSchedules = HashMap::new();
    let mut i: usize = 0;
    proof {
        assert(records_view(past@) =~= past_from(sv.take(0)));
    }
    while i < schedules.len()
        invariant
            i <= schedules.len(),
            sv == schedules@.map_values(|s: MonthlySchedule| s@),
            forall|k: int| 0 <= k < schedules@.len() ==> (#[trigger] schedules@[k]).wf(),
            records_view(past@) == past_from(sv.take(i as int)),
        decreases schedules.len() - i,
    {
        let s = &schedules[i];
        let ghost m0 = records_view(past@);
        let ids = listed_ids(s);
        let mut j: usize = 0;
        proof {
            assert(partly_added(m0, s@, ids@.take(0).to_set()) =~= m0);
        }
        while j < ids.len()
            invariant
                j <= ids.len(),
                s.wf(),
                ids@.no_duplicates(),
                records_view(past@) == partly_added(m0, s@, ids@.take(j as int).to_set()),
            decreases ids.len() - j,
        {
            let id = ids[j];
            let marks = crate::excel::marks_for(s, id);
            let ghost before = records_view(past@);
            let ghost old_map = past@;
            let mut entry = match past.remove(&id) {
                Some(v) => v,
                None => Vec::new(),
            };
            let ghost ev = entry@;
            entry.push(marks);
            past.insert(id, entry);
            proof {
                assert(!ids@.take(j as int).contains(id)) by {
                    if ids@.take(j as int).contains(id) {
                        let t = choose|t: int| 0 <= t < j && ids@.take(j as int)[t] == id;
                        assert(ids@[t] == ids@[j as int]);
                    }
                }
                let tj = ids@.take(j as int);
                let tj1 = ids@.take(j as int + 1);
                assert(tj1 =~= tj.push(id));
                assert forall|x: i32| tj1.contains(x) <==> tj.contains(x) || x == id by {
                    if tj1.contains(x) && x != id {
                        let t = choose|t: int| 0 <= t < tj1.len() && tj1[t] == x;
                        assert(tj[t] == x);
                    }
                    if tj.contains(x) {
                        let t = choose|t: int| 0 <= t < tj.len() && tj[t] == x;
                        assert(tj1[t] == x);
                    }
                    if x == id {
                        assert(tj1[j as int] == x);
                    }
                }
                assert(tj1.to_set() =~= tj.to_set().insert(id));
                assert(past@ =~= old_map.insert(id, entry));
                assert(before.contains_key(id) == m0.contains_key(id));
                if m0.contains_key(id) {
                    assert(old_map.contains_key(id));
                    assert(ev == old_map[id]@);
                    assert(before[id] == old_map[id]@.map_values(|a: [bool; 5]| a@));
                    assert(ev.map_values(|a: [bool; 5]| a@) == m0[id]);
                }
                assert(old_map.contains_key(id) ==> ev == old_map[id]@);
                assert(!old_map.contains_key(id) ==> ev == Seq::<[bool; 5]>::empty());
                assert(entry@.map_values(|a: [bool; 5]| a@) =~= ev.map_values(|a: [bool; 5]| a@).push(marks@));
                let after = partly_added(m0, s@, tj1.to_set());
                assert forall|x: i32| #[trigger] records_view(past@).contains_key(x) == after.contains_key(x) by {
                    if x != id {
                        assert(records_view(old_map).contains_key(x) == before.contains_key(x));
                    }
                }
                assert forall|x: i32| records_view(past@).contains_key(x) implies #[trigger] records_view(past@)[x] == after[x] by {
                    if x != id {
                        assert(past@[x] == old_map[x]);
                        assert(records_view(old_map)[x] == before[x]);
                    }
                }
                assert(records_view(past@) =~= after);
            }
            j = j + 1;
        }
        proof {
            assert(ids@.take(ids.len() as int) =~= ids@);
            assert(ids@.to_set() =~= scheduled_ids(s@.days));
            assert(sv.take(i as int + 1).drop_last() =~= sv.take(i as int));
            assert(sv.take(i as int + 1).last() == s@);
            assert(records_view(past@) =~= past_from(sv.take(i as int + 1)));
        }
        i = i + 1;
    }
    proof {
        assert(sv.take(schedules.len() as int) =~= sv);
    }
    past
}

} // verus!
