use rostr::controller::{AddStep, AppState, EditStep};
use rostr::employee::Employee as CoreEmployee;
use rostr::schedule::MonthlySchedule;
use rostr::types::{Role, Sex, Weekday};
use rostr::ui::attendance_table::{AttendanceStatus, Message};
use rostr::ui::modals::Modal;
use rostr::ui::toasts::Status;
use std::time::Instant;

fn stored(id: i32, name: &str, required: i32) -> CoreEmployee {
    let mut e = CoreEmployee::new(name.to_string(), Sex::Male, Role::BackendEngineer, required, vec![], false, false, None);
    e.id = id;
    e
}

fn loaded() -> AppState {
    let mut s = AppState::new(2025, 6);
    s.refresh_employees(&vec![stored(1, "Ada", 2), stored(2, "Bob", 5)]);
    s
}

#[test]
fn generate_without_employees_warns() {
    let mut s = AppState::new(2025, 6);
    let id = s.generate(Some(vec![]), Instant::now());
    assert_eq!(id, Some(1));
    assert_eq!(s.toasts.len(), 1);
    assert_eq!(s.toasts[0].title, "No Employees");
    assert_eq!(s.toasts[0].status, Status::Error);
    assert!(s.current_schedule.is_none());
}

#[test]
fn generate_fills_weeks() {
    let mut s = loaded();
    let id = s.generate(Some(vec![stored(1, "Ada", 2), stored(2, "Bob", 5)]), Instant::now());
    assert_eq!(id, Some(1));
    assert_eq!(s.toasts[0].title, "Schedule Generated");
    assert!(s.current_schedule.is_some());
    let bob = &s.attendance_table.employees[1];
    assert_eq!(bob.attendance, [AttendanceStatus::Office; 5]);
    let ada = &s.attendance_table.employees[0];
    assert_eq!(ada.attendance.iter().filter(|a| **a == AttendanceStatus::Office).count(), 2);
    assert_eq!(ada.attendance.iter().filter(|a| **a == AttendanceStatus::Remote).count(), 3);
    assert_eq!(s.generate(None, Instant::now()), None);
}

#[test]
fn save_steps() {
    let mut s = loaded();
    assert_eq!(s.check_save(Instant::now()), Some(1));
    assert_eq!(s.toasts[0].title, "No Schedule");
    s.generate(Some(vec![stored(1, "Ada", 2)]), Instant::now());
    assert_eq!(s.check_save(Instant::now()), None);
    let same = s.current_schedule.clone();
    assert_eq!(s.compare_saved(same, Instant::now()), Some(3));
    assert_eq!(s.toasts[2].body, "This exact schedule is already saved.");
    assert_eq!(s.compare_saved(Some(MonthlySchedule::new(2025, 6)), Instant::now()), None);
    assert_eq!(s.compare_saved(None, Instant::now()), None);
    let id = s.finish_save(Err("disk full".to_string()), Instant::now());
    assert_eq!(s.toasts.last().unwrap().title, "Save Failed");
    assert_eq!(s.toasts.last().unwrap().body, "disk full");
    s.dismiss_toast(id);
    assert!(s.toasts.iter().all(|t| t.id != id));
    assert_eq!(s.toasts.len(), 3);
}

#[test]
fn undo_and_load() {
    let mut s = loaded();
    s.finish_undo(Instant::now());
    assert_eq!(s.toasts[0].body, "Reverted to empty state (no saved schedule).");
    s.load_schedule(Some(MonthlySchedule::new(2025, 6)), Some(true));
    assert!(s.is_locked);
    s.finish_undo(Instant::now());
    assert_eq!(s.toasts[1].status, Status::Success);
}

#[test]
fn add_dialog_flow() {
    let mut s = loaded();
    assert!(matches!(s.check_add(Instant::now()), AddStep::Ignored));
    s.open_add_form();
    s.form_name_changed("  ada ".to_string());
    match s.check_add(Instant::now()) {
        AddStep::Refused(id) => assert_eq!(id, 1),
        _ => panic!("duplicate name accepted"),
    }
    assert_eq!(s.toasts[0].title, "Duplicate Name");
    s.form_name_changed("Cy".to_string());
    s.form_sex_selected("Female".to_string());
    s.form_days_changed(3);
    s.form_toggle_day(4);
    s.form_toggle_day(1);
    s.form_toggle_day(1);
    s.form_mentor_selected("Yes".to_string());
    s.form_mentee_selected("Ada".to_string());
    s.form_mentee_selected("Ada".to_string());
    match &s.modal {
        Modal::AddEmployee(f) => assert_eq!(f.mentee, vec!["Ada".to_string()]),
        _ => panic!("dialog closed"),
    }
    match s.check_add(Instant::now()) {
        AddStep::Create(e) => {
            assert_eq!(e.name, "Cy");
            assert_eq!(e.sex, Sex::Female);
            assert_eq!(e.role, Role::FullStackEngineer);
            assert_eq!(e.required_days, 3);
            assert_eq!(e.fixed_days, vec![Weekday::Friday]);
            assert!(e.is_mentor);
            assert!(!e.is_mentee);
        },
        _ => panic!("not created"),
    }
    s.finish_add(Ok(()), "Cy", Instant::now());
    assert!(matches!(s.modal, Modal::Closed));
    assert_eq!(s.toasts.last().unwrap().body, "Cy has been successfully added.");
}

#[test]
fn edit_and_delete_flow() {
    let mut s = loaded();
    s.open_edit_form();
    assert!(matches!(s.modal, Modal::Closed));
    assert_eq!(s.table_message(Message::SelectEmployee(0)), Some(0));
    s.open_edit_form();
    assert!(matches!(s.modal, Modal::EditEmployee(0, _)));
    s.form_name_changed("BOB".to_string());
    assert!(matches!(s.check_edit(0, Instant::now()), EditStep::Refused(_)));
    s.form_name_changed("Ada L".to_string());
    s.form_role_selected("Data Analyst".to_string());
    match s.check_edit(0, Instant::now()) {
        EditStep::Lookup(id) => assert_eq!(id, 1),
        _ => panic!("no lookup"),
    }
    let changed = s.apply_edit(Some(stored(1, "Ada", 2))).unwrap();
    assert_eq!(changed.id, 1);
    assert_eq!(changed.name, "Ada L");
    assert_eq!(changed.role, Role::DataAnalyst);
    assert_eq!(changed.sex, Sex::Male);
    s.finish_edit(Ok(()), "Ada L", Instant::now());
    assert_eq!(s.toasts.last().unwrap().body, "Ada L's details have been updated.");
    assert!(matches!(s.check_edit(0, Instant::now()), EditStep::Closed));
    s.open_delete_confirmation();
    assert!(matches!(s.modal, Modal::DeleteEmployee(0)));
    let (id, name) = s.check_delete(0).unwrap();
    assert_eq!((id, name.as_str()), (1, "Ada"));
    s.finish_delete(Ok(()), &name, Instant::now());
    assert!(s.current_schedule.is_none());
    assert_eq!(s.attendance_table.selected_employee, None);
    assert_eq!(s.toasts.last().unwrap().body, "Ada has been removed.");
    assert!(s.check_delete(7).is_none());
}

#[test]
fn reports_and_navigation() {
    let mut s = loaded();
    s.open_report(None);
    match &s.modal {
        Modal::GeneralReport(c) => {
            assert_eq!(c.date, "June 2025");
            assert_eq!(c.total_employees, 2);
            assert_eq!(c.total_males, 2);
        },
        _ => panic!("no report"),
    }
    s.table_message(Message::SelectEmployee(1));
    s.open_report(Some(vec![]));
    match &s.modal {
        Modal::EmployeeReport(e, label) => {
            assert_eq!(e.name, "Bob");
            assert_eq!(label, "June 2025");
        },
        _ => panic!("no report"),
    }
    s.close_modal();
    assert!(matches!(s.modal, Modal::Closed));
    s.previous_date();
    assert_eq!((s.year, s.month), (2025, 5));
    s.next_date();
    s.next_date();
    assert_eq!((s.year, s.month), (2025, 7));
    s.toggle_theme();
    assert!(s.is_dark);
    s.search_changed("bo".to_string());
    assert_eq!(s.search_query, "bo");
    s.download_pdf(Instant::now());
    assert_eq!(s.toasts.last().unwrap().title, "Download PDF");
}
