use rostr::employee::Employee;
use rostr::numbers::{parse_i32_text, IntErrorKind};
use rostr::records::{
    employee_from_record, employee_record_header, employee_to_record, employees_from_csv, employees_from_records, employees_to_csv,
    join_day_names, parse_bool_text,
    parse_day_list, split_semicolons,
};
use rostr::storage::{search_pattern, EmployeeRepository};
use rostr::types::{Role, Sex, Weekday};

fn rec(fields: &[&str]) -> Vec<String> {
    fields.iter().map(|s| s.to_string()).collect()
}

#[test]
fn parse_i32_like_std() {
    assert_eq!(parse_i32_text("42"), Ok(42));
    assert_eq!(parse_i32_text("+7"), Ok(7));
    assert_eq!(parse_i32_text("-2147483648"), Ok(i32::MIN));
    assert_eq!(parse_i32_text("2147483647"), Ok(i32::MAX));
    assert_eq!(parse_i32_text(""), Err(IntErrorKind::Empty));
    assert_eq!(parse_i32_text("-"), Err(IntErrorKind::InvalidDigit));
    assert_eq!(parse_i32_text("12a"), Err(IntErrorKind::InvalidDigit));
    assert_eq!(parse_i32_text("2147483648"), Err(IntErrorKind::PosOverflow));
    assert_eq!(parse_i32_text("-2147483649"), Err(IntErrorKind::NegOverflow));
    assert_eq!(parse_i32_text("99999999999x"), Err(IntErrorKind::PosOverflow));
    for s in ["0", "-0", "+15", "007", "1x", " 1", "-99999999999"] {
        let ours = parse_i32_text(s).ok();
        assert_eq!(ours, s.parse::<i32>().ok(), "{}", s);
    }
}

#[test]
fn parse_bool_like_std() {
    assert_eq!(parse_bool_text("true"), Ok(true));
    assert_eq!(parse_bool_text("false"), Ok(false));
    assert_eq!(parse_bool_text("True"), Err("provided string was not `true` or `false`".to_string()));
}

#[test]
fn split_and_join_days() {
    assert_eq!(split_semicolons("a;;b"), vec!["a", "", "b"]);
    assert_eq!(split_semicolons(""), vec![""]);
    assert_eq!(parse_day_list("monday;;Friday;"), Ok(vec![Weekday::Monday, Weekday::Friday]));
    assert_eq!(parse_day_list("Monday;Funday"), Err("invalid weekday: Funday".to_string()));
    assert_eq!(join_day_names(&vec![Weekday::Tuesday, Weekday::Thursday]), "Tuesday;Thursday");
}

#[test]
fn record_round_trip() {
    let mut e = Employee::new(
        "Zoe, \"Z\"".to_string(),
        Sex::Female,
        Role::UiUxDesigner,
        3,
        vec![Weekday::Monday, Weekday::Wednesday],
        false,
        true,
        Some(-12),
    );
    e.id = 99;
    let r = employee_to_record(&e);
    assert_eq!(r, rec(&["Zoe, \"Z\"", "Female", "UI/UX Designer", "3", "Monday;Wednesday", "false", "true", "-12"]));
    let back = employee_from_record(&r).unwrap();
    assert_eq!(back.id, 0);
    assert_eq!(back.name, e.name);
    assert_eq!(back.sex, e.sex);
    assert_eq!(back.role, e.role);
    assert_eq!(back.required_days, 3);
    assert_eq!(back.fixed_days, e.fixed_days);
    assert_eq!(back.is_mentee, true);
    assert_eq!(back.mentor_id, Some(-12));
}

#[test]
fn record_header_fields() {
    assert_eq!(
        employee_record_header(),
        rec(&["Name", "Sex", "Role", "Required Days", "Fixed Days", "Is Mentor", "Is Mentee", "Mentor ID"])
    );
}

#[test]
fn record_errors() {
    let ok = ["A", "Male", "QA Engineer", "2", "", "false", "false", ""];
    let e = employee_from_record(&rec(&ok)).unwrap();
    assert_eq!(e.fixed_days, vec![]);
    assert_eq!(e.mentor_id, None);
    assert_eq!(employee_from_record(&rec(&ok[..7])).unwrap_err(), "Invalid record length");
    let mut bad = ok;
    bad[1] = "x";
    assert_eq!(employee_from_record(&rec(&bad)).unwrap_err(), "invalid sex: x");
    let mut bad = ok;
    bad[2] = "Chef";
    assert_eq!(employee_from_record(&rec(&bad)).unwrap_err(), "invalid role: Chef");
    let mut bad = ok;
    bad[3] = "two";
    assert_eq!(employee_from_record(&rec(&bad)).unwrap_err(), "invalid digit found in string");
    let mut bad = ok;
    bad[3] = "";
    assert_eq!(employee_from_record(&rec(&bad)).unwrap_err(), "cannot parse integer from empty string");
    let mut bad = ok;
    bad[4] = "Mon";
    assert_eq!(employee_from_record(&rec(&bad)).unwrap_err(), "invalid weekday: Mon");
    let mut bad = ok;
    bad[5] = "yes";
    assert_eq!(employee_from_record(&rec(&bad)).unwrap_err(), "provided string was not `true` or `false`");
    let mut bad = ok;
    bad[7] = "99999999999";
    assert_eq!(employee_from_record(&rec(&bad)).unwrap_err(), "number too large to fit in target type");
}

#[test]
fn store_rows_and_search() {
    assert_eq!(search_pattern("AbÇ"), "%abç%");
    let e = EmployeeRepository::employee_from_row(7, "Bo".to_string(), "Male", "Data Scientist", 2, vec![Weekday::Friday], true, false, None)
        .unwrap();
    assert_eq!(e.id, 7);
    assert_eq!(e.role, Role::DataScientist);
    assert_eq!(
        EmployeeRepository::employee_from_row(7, "Bo".to_string(), "Male", "Chef", 2, vec![], true, false, None).unwrap_err(),
        "invalid role: Chef"
    );
}

#[test]
fn csv_file_round_trip() {
    let a = Employee::new(
        "Ann, Jr.".to_string(), Sex::Female, Role::DataAnalyst, 3,
        vec![Weekday::Monday, Weekday::Friday], true, false, None,
    );
    let b = Employee::new(
        "Bo".to_string(), Sex::Male, Role::HR, 2, vec![], false, true, Some(4),
    );
    let bytes = employees_to_csv(&[a.clone(), b.clone()]).unwrap();
    assert_eq!(
        String::from_utf8(bytes.clone()).unwrap(),
        "Name,Sex,Role,Required Days,Fixed Days,Is Mentor,Is Mentee,Mentor ID\n\
         \"Ann, Jr.\",Female,Data Analyst,3,Monday;Friday,true,false,\n\
         Bo,Male,Human Resource Manager,2,,false,true,4\n"
    );
    let back = employees_from_csv(&bytes).unwrap();
    assert_eq!(back.len(), 2);
    assert_eq!(back[0].name, "Ann, Jr.");
    assert_eq!(back[0].fixed_days, vec![Weekday::Monday, Weekday::Friday]);
    assert_eq!(back[1].role, Role::HR);
    assert_eq!(back[1].mentor_id, Some(4));
}

#[test]
fn csv_file_errors() {
    let header = "Name,Sex,Role,Required Days,Fixed Days,Is Mentor,Is Mentee,Mentor ID\n";
    assert_eq!(employees_from_csv(header.as_bytes()).unwrap().len(), 0);
    let short = format!("{}Ann,Female\n", header);
    assert!(employees_from_csv(short.as_bytes()).is_err());
    let bad_role = format!("{}Ann,Female,Chef,3,,true,false,\n", header);
    assert_eq!(employees_from_csv(bad_role.as_bytes()).unwrap_err(), "invalid role: Chef");
    let bad_sex = format!("{}Ann,Other,HR,3,,true,false,\nBo,Male,Chef,1,,true,false,\n", header);
    assert_eq!(employees_from_csv(bad_sex.as_bytes()).unwrap_err(), "invalid sex: Other");
}

#[test]
fn records_to_employees() {
    let good = rec(&["Ann", "Female", "Data Analyst", "2", "", "false", "false", ""]);
    let bad = rec(&["Bo", "Male", "Chef", "2", "", "false", "false", ""]);
    let v = employees_from_records(&vec![good.clone()], None).unwrap();
    assert_eq!(v.len(), 1);
    assert_eq!(v[0].name, "Ann");
    assert_eq!(
        employees_from_records(&vec![good.clone()], Some("CSV error: bad record".to_string())).unwrap_err(),
        "CSV error: bad record"
    );
    assert_eq!(
        employees_from_records(&vec![good, bad], Some("later".to_string())).unwrap_err(),
        "invalid role: Chef"
    );
    assert_eq!(employees_from_records(&vec![], None).unwrap().len(), 0);
}
