use rostr::employee::Employee;
use rostr::excel::{schedule_sheet, sheet_name_for, str_less};
use rostr::llm::receive_chunk;
use rostr::pdf::{layout_report, lines_of, split_whitespace, style_line, wrap_text};
use rostr::schedule::MonthlySchedule;
use rostr::types::{Role, Sex, Weekday};

fn emp(id: i32, name: &str) -> Employee {
    let mut e = Employee::new(name.to_string(), Sex::Male, Role::HR, 1, vec![], false, false, None);
    e.id = id;
    e
}

#[test]
fn sheet_file_names() {
    assert_eq!(sheet_name_for(2025, 1), "office_schedule_January_2025.xlsx");
    assert_eq!(sheet_name_for(2024, 12), "office_schedule_December_2024.xlsx");
    assert_eq!(sheet_name_for(2024, 13), "office_schedule_Month_13_2024.xlsx");
    assert_eq!(sheet_name_for(2024, 257), "office_schedule_January_2024.xlsx");
}

#[test]
fn sheet_rows_sorted_and_marked() {
    let mut s = MonthlySchedule::new(2025, 4);
    s.add_employee(Weekday::Monday, emp(2, "Zed"));
    s.add_employee(Weekday::Monday, emp(1, "Amy"));
    s.add_employee(Weekday::Wednesday, emp(2, "Zed"));
    s.add_employee(Weekday::Friday, emp(3, "Max"));
    let sheet = schedule_sheet(&s);
    assert_eq!(sheet.filename, "office_schedule_April_2025.xlsx");
    assert_eq!(sheet.header, vec!["Name", "Monday", "Tuesday", "Wednesday", "Thursday", "Friday"]);
    assert_eq!(sheet.counts, vec!["2", "0", "1", "0", "1"]);
    let names: Vec<&str> = sheet.rows.iter().map(|r| r.name.as_str()).collect();
    assert_eq!(names, vec!["Amy", "Max", "Zed"]);
    assert_eq!(sheet.rows[2].marks, [true, false, true, false, false]);
    assert_eq!(sheet.rows[1].marks, [false, false, false, false, true]);
}

#[test]
fn string_order() {
    assert!(str_less("Amy", "Amz"));
    assert!(str_less("Am", "Amy"));
    assert!(!str_less("Amy", "Amy"));
    assert!(str_less("Zed", "ábc"));
}

#[test]
fn words_and_wrapping() {
    assert_eq!(split_whitespace("  a  bc\td\n"), vec!["a", "bc", "d"]);
    assert_eq!(wrap_text("aa bb cc", 10, 4), vec!["aa bb", "cc"]);
    assert_eq!(wrap_text("averyverylongword x", 2, 10), vec!["averyverylongword", "x"]);
    assert_eq!(wrap_text("   ", 170, 10), vec!["   "]);
}

#[test]
fn markdown_lines_and_styles() {
    assert_eq!(lines_of("a\r\nb\n\nc\n"), vec!["a", "b", "", "c"]);
    assert_eq!(style_line("# Title"), ("Title".to_string(), 18, true));
    assert_eq!(style_line("## Sub"), ("Sub".to_string(), 14, true));
    assert_eq!(style_line("### Small"), ("Small".to_string(), 12, true));
    assert_eq!(style_line("- item"), ("- item".to_string(), 10, false));
    assert_eq!(style_line("   "), (" ".to_string(), 10, false));
    assert_eq!(style_line("#NoSpace"), ("#NoSpace".to_string(), 10, false));
}

#[test]
fn report_layout_heights() {
    let placed = layout_report("# Report\nBody text\n\n## Next");
    let ys: Vec<i32> = placed.iter().map(|p| p.y).collect();
    assert_eq!(ys, vec![280, 268, 262, 256]);
    assert_eq!(placed[0].text, "Report");
    assert!(placed[0].bold);
    assert_eq!(placed[2].text, " ");
    let long: String = (0..60).map(|i| format!("line {}\n", i)).collect();
    let placed = layout_report(&long);
    assert_eq!(placed.len(), 44);
    assert_eq!(placed.last().unwrap().y, 22);
}

#[test]
fn stream_chunks() {
    let mut buf = String::new();
    let (p, done) = receive_chunk(&mut buf, "data: {\"a\":1}\nda");
    assert_eq!(p, vec!["{\"a\":1}\n"]);
    assert!(!done);
    assert_eq!(buf, "da");
    let (p, done) = receive_chunk(&mut buf, "ta: x\n: comment\ndata: [DONE]\n");
    assert_eq!(p, vec!["x\n", "[DONE]\n"]);
    assert!(!done);
    assert_eq!(buf, "");
    let (p, done) = receive_chunk(&mut buf, "data: [DONE]");
    assert!(p.is_empty());
    assert!(!done);
    assert_eq!(buf, "data: [DONE]");
}
