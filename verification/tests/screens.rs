use rostr::attendance_table::{AttendanceStatus as OldStatus, AttendanceTable as OldTable, Message as OldMessage};
use rostr::employee::Employee as CoreEmployee;
use rostr::modals::EmployeeForm as OldForm;
use rostr::schedule::MonthlySchedule;
use rostr::types::{Role, Sex, Weekday};
use rostr::ui::attendance_table::{AttendanceStatus, AttendanceTable, Employee, Message};
use rostr::ui::attendance_table::AttendanceStatus::{NA, Office, Remote};
use rostr::ui::modals::{format_days, EmployeeForm};
use rostr::ui::action_bar::{ActionBar, Message as BarMessage};
use rostr::roster::{
    apply_schedule_to_ui, calculate_report, core_to_ui_employee, employee_report, next_month, previous_month,
    report_month_label, current_month_label, rows_for,
};

fn stored(id: i32, name: &str, sex: Sex, fixed: Vec<Weekday>) -> CoreEmployee {
    let mut e = CoreEmployee::new(name.to_string(), sex, Role::QaEngineer, 2, fixed, false, false, None);
    e.id = id;
    e
}

#[test]
fn toggle_flips() {
    assert_eq!(OldStatus::Office.toggle(), OldStatus::Remote);
    assert_eq!(OldStatus::Remote.toggle(), OldStatus::Office);
    assert_eq!(OldStatus::Office.toggle().toggle(), OldStatus::Office);
}

#[test]
fn sample_table_and_messages() {
    let mut t = OldTable::new();
    assert_eq!(t.len(), 16);
    assert_eq!(t.employees()[0].name, "Sarah Jenkins");
    assert_eq!(t.employees()[15].role, "Receptionist");
    assert_eq!(t.office_totals(), vec![11, 10, 10, 11, 10]);
    assert_eq!(t.update(OldMessage::ToggleStatus(0, 2)), None);
    assert_eq!(t.employees()[0].attendance[2], OldStatus::Office);
    assert_eq!(t.update(OldMessage::ToggleStatus(99, 2)), None);
    assert_eq!(t.update(OldMessage::ToggleStatus(0, 5)), None);
    assert_eq!(t.update(OldMessage::SelectEmployee(3)), Some(3));
    assert_eq!(t.selected_employee(), Some(3));
    assert_eq!(t.update(OldMessage::AutoDeselect(2)), None);
    assert_eq!(t.selected_employee(), Some(3));
    assert_eq!(t.update(OldMessage::SelectEmployee(3)), None);
    assert_eq!(t.selected_employee(), None);
    t.update(OldMessage::SelectEmployee(1));
    t.update(OldMessage::AutoDeselect(1));
    assert_eq!(t.selected_employee(), None);
}

#[test]
fn old_form_defaults_and_validity() {
    let mut f = OldForm::default();
    assert_eq!(f.mentee.as_deref(), Some("None"));
    assert_eq!(f.attendance, [OldStatus::Remote; 5]);
    assert!(!f.is_valid());
    f.name = "Al".to_string();
    f.role = Some("QA Engineer".to_string());
    f.sex = Some("Male".to_string());
    assert!(!f.is_valid());
    f.days_per_week = Some(2);
    assert!(f.is_valid());
    f.name = " \t".to_string();
    assert!(!f.is_valid());
}

#[test]
fn form_from_employee_and_days_text() {
    let e = core_to_ui_employee(stored(3, "Bea", Sex::Female, vec![Weekday::Friday, Weekday::Monday]));
    assert_eq!(e.role, "QA Engineer");
    assert_eq!(e.sex, "Female");
    assert_eq!(e.days_per_week, 2);
    assert_eq!(e.attendance, [AttendanceStatus::NA; 5]);
    let f = EmployeeForm::from(&e);
    assert_eq!(f.attendance, [AttendanceStatus::Office, AttendanceStatus::NA, AttendanceStatus::NA, AttendanceStatus::NA, AttendanceStatus::Office]);
    assert_eq!(f.role.as_deref(), Some("QA Engineer"));
    assert!(f.is_valid());
    assert!(!EmployeeForm::default().is_valid());
    assert_eq!(format_days(&f.attendance), "Mon Fri");
    assert_eq!(format_days(&[AttendanceStatus::Remote; 5]), "Remote Week");
}

#[test]
fn schedule_weeks_on_rows() {
    let mut s = MonthlySchedule::new(2025, 5);
    s.included_employees = vec![1, 2];
    s.add_employee(Weekday::Tuesday, stored(1, "A", Sex::Male, vec![]));
    let mut rows = vec![
        core_to_ui_employee(stored(1, "A", Sex::Male, vec![])),
        core_to_ui_employee(stored(2, "B", Sex::Male, vec![])),
        core_to_ui_employee(stored(3, "C", Sex::Male, vec![])),
    ];
    apply_schedule_to_ui(&mut rows, &s);
    assert_eq!(rows[0].attendance, [Remote, Office, Remote, Remote, Remote]);
    assert_eq!(rows[1].attendance, [Remote; 5]);
    assert_eq!(rows[2].attendance, [NA; 5]);
    let again = rows_for(&vec![stored(1, "A", Sex::Male, vec![])], &Some(s));
    assert_eq!(again[0].attendance, [Remote, Office, Remote, Remote, Remote]);
}

#[test]
fn general_report_counts() {
    let mut a = core_to_ui_employee(stored(1, "A", Sex::Male, vec![]));
    a.attendance = [Office, Office, Remote, NA, Office];
    let mut b = core_to_ui_employee(stored(2, "B", Sex::Female, vec![]));
    b.attendance = [Office, Remote, Remote, NA, Office];
    b.role = "HR".to_string();
    let r = calculate_report(&vec![a, b], "May 2025".to_string());
    assert_eq!(r.date, "May 2025");
    assert_eq!(r.total_employees, 2);
    assert_eq!((r.total_males, r.total_females), (1, 1));
    assert_eq!(r.daily_attendance, [2, 1, 0, 0, 2]);
    assert_eq!(r.daily_remote, [0, 1, 2, 0, 0]);
    assert_eq!(r.males_per_day, [1, 1, 0, 0, 1]);
    assert_eq!(r.females_per_day, [1, 0, 0, 0, 1]);
    assert_eq!(r.roles_per_day[0], vec![("QA Engineer".to_string(), 1), ("HR".to_string(), 1)]);
    assert_eq!(r.roles_per_day[2], vec![]);
    assert_eq!(r.day_most_attendance, "Monday");
    assert_eq!(r.day_least_attendance, "Wednesday");
    for d in 0..5 {
        let total: usize = r.roles_per_day[d].iter().map(|(_, n)| n).sum();
        assert_eq!(total, r.daily_attendance[d]);
    }
}

#[test]
fn action_bar_buttons() {
    for read_only in [false, true] {
        for sel in [false, true] {
            assert_eq!(ActionBar::is_enabled(BarMessage::Generate, sel, read_only), !read_only);
            assert_eq!(ActionBar::is_enabled(BarMessage::Save, sel, read_only), !read_only);
            assert_eq!(ActionBar::is_enabled(BarMessage::Undo, sel, read_only), !read_only);
            assert_eq!(ActionBar::is_enabled(BarMessage::EditEmployee, sel, read_only), sel);
            assert_eq!(ActionBar::is_enabled(BarMessage::DeleteEmployee, sel, read_only), sel);
            assert!(ActionBar::is_enabled(BarMessage::AddEmployee, sel, read_only));
            assert!(ActionBar::is_enabled(BarMessage::Report, sel, read_only));
            assert!(ActionBar::is_enabled(BarMessage::Import, sel, read_only));
            assert!(ActionBar::is_enabled(BarMessage::Export, sel, read_only));
        }
    }
}

#[test]
fn employee_report_from_history() {
    let row = core_to_ui_employee(stored(1, "A", Sex::Male, vec![]));
    let mut newest = MonthlySchedule::new(2025, 3);
    newest.included_employees = vec![1];
    newest.add_employee(Weekday::Monday, stored(1, "A", Sex::Male, vec![]));
    let mut older = MonthlySchedule::new(2025, 2);
    older.included_employees = vec![1];
    let unrelated = MonthlySchedule::new(2025, 1);
    let (e, label) = employee_report(&row, Some(&vec![newest, older, unrelated]), "April 2025".to_string());
    assert_eq!(label, "March 2025");
    assert_eq!(e.attendance, [Office, Remote, Remote, Remote, Remote]);
    assert_eq!(e.past_attendance, vec![("February 2025".to_string(), [Remote; 5])]);
    let (e2, label2) = employee_report(&row, Some(&vec![]), "April 2025".to_string());
    assert_eq!(label2, "April 2025");
    assert_eq!(e2.attendance, [NA; 5]);
    let (_, label3) = employee_report(&row, None, "April 2025".to_string());
    assert_eq!(label3, "April 2025");
}

#[test]
fn month_labels_and_steps() {
    assert_eq!(current_month_label(2025, 1), "January 2025");
    assert_eq!(report_month_label(2025, 13), "January 1970");
    assert_eq!(current_month_label(7, 5), "May 0007");
    assert_eq!(current_month_label(-1, 12), "December -0001");
    assert_eq!(current_month_label(12345, 9), "September +12345");
    assert_eq!(current_month_label(999, 2), "February 0999");
    assert_eq!(previous_month(2025, 1), (2024, 12));
    assert_eq!(previous_month(2025, 7), (2025, 6));
    assert_eq!(next_month(2024, 12), (2025, 1));
    assert_eq!(next_month(previous_month(2025, 1).0, previous_month(2025, 1).1), (2025, 1));
}

#[test]
fn ui_table_selection() {
    let mut t = AttendanceTable::new();
    assert_eq!(t.len(), 0);
    assert_eq!(t.update(Message::SelectEmployee(0)), Some(0));
    assert_eq!(t.update(Message::SelectEmployee(0)), None);
    assert_eq!(t.selected_employee, None);
    let _: Vec<Employee> = t.employees;
}
