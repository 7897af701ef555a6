use rostr::employee::Employee;
use rostr::engine::{input_fits, Engine};
use rostr::generator::{shuffle_combinations, DayCombination, ScheduleGenerator};
use rostr::history::past_schedules_from;
use rostr::schedule::{MonthlySchedule, PastSchedules, PastSchedulesExt};
use rostr::types::{Role, Sex, Weekday};
use std::collections::HashMap;

fn emp(id: i32, name: &str, required: i32, fixed: Vec<Weekday>) -> Employee {
    let mut e = Employee::new(name.to_string(), Sex::Male, Role::BackendEngineer, required, fixed, false, false, None);
    e.id = id;
    e
}

fn days_of(s: &MonthlySchedule, id: i32) -> Vec<Weekday> {
    s.get_days_for_employee(id)
}

#[test]
fn generator_table() {
    let g = ScheduleGenerator::new();
    assert_eq!(g.get_combinations(1).unwrap().len(), 5);
    assert_eq!(g.get_combinations(2).unwrap().len(), 6);
    assert_eq!(g.get_combinations(3).unwrap()[0].days, vec![Weekday::Monday, Weekday::Wednesday, Weekday::Friday]);
    assert_eq!(g.get_combinations(5).unwrap()[0].days.len(), 5);
    assert!(g.get_combinations(4).is_none());
    assert!(g.get_combinations(0).is_none());
    let mut empty = ScheduleGenerator { combinations: HashMap::new() };
    empty.initialize_combinations();
    assert_eq!(empty.get_combinations(2).unwrap().len(), 6);
}

#[test]
fn shuffle_keeps_combinations() {
    let g = ScheduleGenerator::new();
    let combos = g.get_combinations(2).unwrap();
    let shuffled = shuffle_combinations(combos);
    let mut a: Vec<Vec<Weekday>> = combos.iter().map(|c| c.days.clone()).collect();
    let mut b: Vec<Vec<Weekday>> = shuffled.iter().map(|c| c.days.clone()).collect();
    a.sort();
    b.sort();
    assert_eq!(a, b);
}

#[test]
fn variance_as_fraction() {
    let e = Engine::new();
    assert_eq!(e.calculate_variance(&[1, 2, 3, 4, 5]), (250, 25));
    assert_eq!(e.calculate_variance(&[3, 3, 3, 3, 3]), (0, 25));
}

#[test]
fn variance_of_fewer_days() {
    let e = Engine::new();
    let value = |r: (i128, u64)| r.0 as f64 / r.1 as f64;
    assert_eq!(value(e.calculate_variance(&[2, 0])), 2.0);
    assert_eq!(e.calculate_variance(&[0, 2]), (8, 4));
    assert_eq!(value(e.calculate_variance(&[1, 2, 3, 4, 5])), 10.0);
    assert_eq!(value(e.calculate_variance(&[1, 0])), 0.5);
    assert_eq!(e.calculate_variance(&[7]), (0, 1));
    assert_eq!(value(e.calculate_variance(&[])), 0.0);
}

#[test]
fn filter_by_required_days() {
    let e = Engine::new();
    let g = ScheduleGenerator::new();
    let combos = g.get_combinations(2).unwrap();
    let kept = e.filter_combinations_by_required_days(combos, &[Weekday::Friday]);
    let days: Vec<Vec<Weekday>> = kept.iter().map(|c| c.days.clone()).collect();
    assert_eq!(
        days,
        vec![
            vec![Weekday::Monday, Weekday::Friday],
            vec![Weekday::Tuesday, Weekday::Friday],
            vec![Weekday::Wednesday, Weekday::Friday],
        ]
    );
}

#[test]
fn best_combination_prefers_empty_days() {
    let e = Engine::new();
    let combos = vec![
        DayCombination { days: vec![Weekday::Monday] },
        DayCombination { days: vec![Weekday::Tuesday] },
    ];
    let who = emp(1, "A", 1, vec![]);
    let past: PastSchedules = HashMap::new();
    let best = e.find_best_combination(&combos, &[3, 0, 3, 3, 3], &who, &past, &[]);
    assert_eq!(best.days, vec![Weekday::Tuesday]);
}

#[test]
fn past_frequencies() {
    let e = Engine::new();
    let mut past: PastSchedules = HashMap::new();
    past.insert(5, vec![[true, false, false, false, false], [true, true, false, false, false]]);
    let f = e.calculate_past_day_frequencies(5, &past);
    assert_eq!(f.len(), 5);
    assert!(f[0] > f[1]);
    assert_eq!(f[2], 0);
    assert_eq!(past.get_employee_past_schedules(5, 1), vec![[true, true, false, false, false]]);
    assert_eq!(past.get_employee_past_schedules(6, 3), Vec::<[bool; 5]>::new());
}

#[test]
fn generated_schedule_keeps_fixed_and_required_days() {
    let staff = vec![
        emp(1, "A", 2, vec![Weekday::Monday]),
        emp(2, "B", 5, vec![]),
        emp(3, "C", 1, vec![]),
        emp(4, "D", 0, vec![]),
        emp(5, "E", 3, vec![Weekday::Tuesday]),
    ];
    assert!(input_fits(&staff));
    let past: PastSchedules = HashMap::new();
    let s = Engine::new().generate_schedule(&staff, &past, 2025, 3);
    assert_eq!(s.year, 2025);
    assert_eq!(s.month, 3);
    assert_eq!(s.included_employees, vec![1, 2, 3, 4, 5]);
    let a = days_of(&s, 1);
    assert!(a.contains(&Weekday::Monday));
    assert_eq!(a.len(), 2);
    assert_eq!(days_of(&s, 2).len(), 5);
    assert_eq!(days_of(&s, 3).len(), 1);
    assert!(days_of(&s, 4).is_empty());
    assert!(days_of(&s, 5).contains(&Weekday::Tuesday));
    assert_eq!(s.validate(), Ok(()));
    for list in &s.schedules {
        for e in list {
            assert!(staff.iter().any(|x| x.id == e.id && x.name == e.name));
        }
    }
}

#[test]
fn schedule_editing_and_counts() {
    let mut s = MonthlySchedule::new(2024, 12);
    s.add_employee(Weekday::Monday, emp(1, "A", 1, vec![]));
    s.add_employee(Weekday::Monday, emp(2, "B", 1, vec![]));
    s.add_employee(Weekday::Friday, emp(1, "A", 1, vec![]));
    assert_eq!(s.day_count(), vec![2, 0, 0, 0, 1]);
    assert_eq!(s.total_employees(), 2);
    assert_eq!(s.get_days_for_employee(1), vec![Weekday::Monday, Weekday::Friday]);
    s.remove_employee(Weekday::Monday, 1);
    assert_eq!(s.get_employees_for_day(Weekday::Monday).len(), 1);
    let copy = s.clone();
    assert!(s.is_same_content(&copy));
    assert_eq!(MonthlySchedule::new(1999, 1).validate(), Err("invalid year: 1999".to_string()));
    assert_eq!(MonthlySchedule::new(2020, 13).validate(), Err("invalid month: 13".to_string()));
}

#[test]
fn past_schedules_by_employee() {
    let mut newest = MonthlySchedule::new(2025, 2);
    newest.add_employee(Weekday::Tuesday, emp(1, "A", 1, vec![]));
    let mut older = MonthlySchedule::new(2025, 1);
    older.add_employee(Weekday::Monday, emp(1, "A", 1, vec![]));
    older.add_employee(Weekday::Friday, emp(2, "B", 1, vec![]));
    older.add_employee(Weekday::Friday, emp(1, "A", 1, vec![]));
    let past = past_schedules_from(&vec![newest, older]);
    assert_eq!(past.len(), 2);
    assert_eq!(
        past.get(&1).unwrap(),
        &vec![[false, true, false, false, false], [true, false, false, false, true]]
    );
    assert_eq!(past.get(&2).unwrap(), &vec![[false, false, false, false, true]]);
}

#[test]
fn combination_table_shape() {
    let g = ScheduleGenerator::new();
    for d in -1..7 {
        let got = g.get_combinations(d);
        assert_eq!(got.is_some(), [1, 2, 3, 5].contains(&d));
        if let Some(v) = got {
            for (i, c) in v.iter().enumerate() {
                assert_eq!(c.days.len() as i32, d);
                for w in c.days.windows(2) {
                    assert!((w[0] as usize) < (w[1] as usize));
                }
                for other in &v[i + 1..] {
                    assert_ne!(
                        c.days.iter().map(|x| *x as usize).collect::<Vec<_>>(),
                        other.days.iter().map(|x| *x as usize).collect::<Vec<_>>()
                    );
                }
            }
        }
    }
}

#[test]
fn each_listed_once_on_their_days() {
    let staff = vec![
        emp(1, "A", 3, vec![Weekday::Tuesday]),
        emp(2, "B", 2, vec![]),
        emp(3, "C", 1, vec![Weekday::Monday, Weekday::Friday]),
        emp(4, "D", 5, vec![]),
        emp(5, "E", 4, vec![]),
    ];
    let past: PastSchedules = HashMap::new();
    for _ in 0..20 {
        let s = Engine::new().generate_schedule(&staff, &past, 2025, 6);
        for d in [Weekday::Monday, Weekday::Tuesday, Weekday::Wednesday, Weekday::Thursday, Weekday::Friday] {
            let on_day = s.get_employees_for_day(d);
            for e in &staff {
                assert!(on_day.iter().filter(|x| x.id == e.id).count() <= 1);
            }
        }
        // A: Tuesday fixed plus two days of a combination avoiding it.
        assert_eq!(days_of(&s, 1).len(), 3);
        assert!(days_of(&s, 1).contains(&Weekday::Tuesday));
        assert_eq!(days_of(&s, 2).len(), 2);
        // C needs no more days than fixed: fixed days only.
        assert_eq!(days_of(&s, 3), vec![Weekday::Monday, Weekday::Friday]);
        assert_eq!(days_of(&s, 4).len(), 5);
        // E needs 4 days, which the table does not offer: no days.
        assert_eq!(days_of(&s, 5).len(), 0);
    }
}
