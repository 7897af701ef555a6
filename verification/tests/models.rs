use rostr::employee::Employee;
use rostr::mentorship::MentorshipValidator;
use rostr::types::{Role, Sex, Weekday, DAYS_OPTIONS};

fn emp(id: i32, name: &str, required: i32, fixed: Vec<Weekday>) -> Employee {
    let mut e = Employee::new(name.to_string(), Sex::Female, Role::DataAnalyst, required, fixed, false, false, None);
    e.id = id;
    e
}

#[test]
fn sex_all_and_names() {
    assert_eq!(Sex::all(), vec![Sex::Male, Sex::Female]);
    assert_eq!(Sex::Male.to_string(), "Male");
    assert_eq!(Sex::from_str("FEMALE"), Ok(Sex::Female));
    assert_eq!(Sex::from_str("other"), Err("invalid sex: other".to_string()));
}

#[test]
fn role_all_and_names() {
    let all = Role::all();
    assert_eq!(all.len(), 17);
    assert_eq!(all[0], Role::HR);
    assert_eq!(Role::HR.to_string(), "Human Resource Manager");
    assert_eq!(Role::FullStackEngineer.to_string(), "Full-stack Engineer");
    for r in all {
        assert_eq!(Role::from_str(&r.to_string()), Ok(r));
    }
    assert_eq!(Role::from_str("qa engineer"), Err("invalid role: qa engineer".to_string()));
}

#[test]
fn weekday_all_names_and_index() {
    let all = Weekday::all();
    assert_eq!(all.len(), 5);
    for (i, d) in all.iter().enumerate() {
        assert_eq!(d.index(), i);
        assert_eq!(Weekday::from_index(i), *d);
        assert_eq!(Weekday::from_str(&d.to_string().to_uppercase()), Ok(*d));
    }
    assert_eq!(Weekday::Wednesday.to_string(), "Wednesday");
    assert_eq!(Weekday::from_str("sunday"), Err("invalid weekday: sunday".to_string()));
    assert_eq!(DAYS_OPTIONS, [1, 2, 3, 4]);
}

#[test]
fn employee_new_and_fixed_days() {
    let e = Employee::new("Ann".to_string(), Sex::Female, Role::QaEngineer, 3, vec![Weekday::Monday], true, false, Some(4));
    assert_eq!(e.id, 0);
    assert_eq!(e.name, "Ann");
    assert_eq!(e.required_days, 3);
    assert!(e.is_mentor);
    assert_eq!(e.mentor_id, Some(4));
    assert!(e.has_fixed_day(Weekday::Monday));
    assert!(!e.has_fixed_day(Weekday::Friday));
}

#[test]
fn employee_validate_each_rule() {
    assert_eq!(emp(1, "Ann", 2, vec![Weekday::Monday]).validate(), Ok(()));
    assert_eq!(emp(1, "  ", 2, vec![]).validate(), Err("employee name cannot be empty".to_string()));
    assert_eq!(emp(1, "Ann", 6, vec![]).validate(), Err("required days must be between 0 and 5".to_string()));
    assert_eq!(emp(1, "Ann", -1, vec![]).validate(), Err("required days must be between 0 and 5".to_string()));
    assert_eq!(
        emp(1, "Ann", 1, vec![Weekday::Monday, Weekday::Tuesday]).validate(),
        Err("fixed days cannot exceed required days".to_string())
    );
    assert_eq!(
        emp(1, "Ann", 3, vec![Weekday::Monday, Weekday::Tuesday, Weekday::Monday]).validate(),
        Err("duplicate fixed day: Monday".to_string())
    );
}

#[test]
fn mentorship_warnings() {
    let mut mentor = emp(1, "Mia", 0, vec![]);
    mentor.is_mentor = true;
    let mut mentee = emp(2, "Tom", 2, vec![]);
    mentee.is_mentee = true;
    mentee.mentor_id = Some(1);
    let mut lost = emp(3, "Lia", 2, vec![]);
    lost.is_mentee = true;
    lost.mentor_id = Some(42);
    let mut no_link = emp(4, "Ned", 2, vec![]);
    no_link.is_mentee = true;
    let staff = vec![mentor, mentee, lost, no_link];
    let v = MentorshipValidator::new(&staff);
    let mut w = v.validate_mentorship();
    w.sort();
    assert_eq!(
        w,
        vec![
            "Mentee Lia has invalid mentor ID".to_string(),
            "Warning: Tom's mentor (Mia) works fully remote (0 office days)".to_string(),
        ]
    );
}

#[test]
fn mentorship_quiet_when_mentor_comes_in() {
    let mentor = emp(1, "Mia", 2, vec![]);
    let mut mentee = emp(2, "Tom", 2, vec![]);
    mentee.is_mentee = true;
    mentee.mentor_id = Some(1);
    let staff = vec![mentor, mentee];
    assert!(MentorshipValidator::new(&staff).validate_mentorship().is_empty());
}

#[test]
fn mentorship_later_duplicate_id_wins() {
    let first = emp(1, "Mia", 2, vec![]);
    let second = emp(1, "Max", 0, vec![]);
    let mut mentee = emp(2, "Tom", 2, vec![]);
    mentee.is_mentee = true;
    mentee.mentor_id = Some(1);
    let staff = vec![first, second, mentee];
    assert_eq!(
        MentorshipValidator::new(&staff).validate_mentorship(),
        vec!["Warning: Tom's mentor (Max) works fully remote (0 office days)".to_string()]
    );
}
