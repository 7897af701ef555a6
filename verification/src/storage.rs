use vstd::prelude::*;
use crate::employee::{Employee, EmployeeView};
use crate::types::{Sex, Role, Weekday, parse_sex, parse_role};
use crate::text::concat_str;

verus! {

/// Reads and writes employees in the store.
pub struct EmployeeRepository;

/// Reads and writes month schedules in the store.
pub struct ScheduleRepository;

/// What the lower-case form of a text is, as `str::to_lowercase` gives it (Unicode rules).
pub uninterp spec fn lowercase(s: Seq<char>) -> Seq<char>;

/// `str::to_lowercase`.
#[verifier::external_body]
fn to_lowercase(s: &str) -> (r: String)
    ensures
        r@ == lowercase(s@),
{
    s.to_lowercase()
}

/// The pattern with which the store's names are searched: the query in lower case, with any
/// text before and after it.
pub fn search_pattern(query: &str) -> (r: String)
    ensures
        r@ == "%"@ + lowercase(query@) + "%"@,
{
    let lower = to_lowercase(query);
    let a = concat_str("%", lower.as_str());
    concat_str(a.as_str(), "%")
}

/// The employee that a row of the store describes, or the message of the sex or role that
/// names nothing (the store keeps their display names).
pub open spec fn row_employee(
    id: i32,
    name: Seq<char>,
    sex: Seq<char>,
    role: Seq<char>,
    required_days: i32,
    fixed_days: Seq<Weekday>,
    is_mentor: bool,
    is_mentee: bool,
    mentor_id: Option<i32>,
) -> Result<EmployeeView, Seq<char>> {
    match parse_sex(sex) {
        None => Err("invalid sex: "@ + sex),
        Some(s) => match parse_role(role) {
            None => Err("invalid role: "@ + role),
            Some(r) => Ok(
                EmployeeView { id, name, sex: s, role: r, required_days, fixed_days, is_mentor, is_mentee, mentor_id },
            ),
        },
    }
}

impl EmployeeRepository {
    /// The employee of a row of the store; see [`row_employee`]. The fixed days come already
    /// read from their JSON column.
    pub fn employee_from_row(
        id: i32,
        name: String,
        sex: &str,
        role: &str,
        required_days: i32,
        fixed_days: Vec<Weekday>,
        is_mentor: bool,
        is_mentee: bool,
        mentor_id: Option<i32>,
    ) -> (r: Result<Employee, String>)
        ensures
            match r {
                Ok(e) => row_employee(id, name@, sex@, role@, required_days, fixed_days@, is_mentor, is_mentee, mentor_id)
                    == Ok::<EmployeeView, Seq<char>>(e@),
                Err(m) => row_employee(id, name@, sex@, role@, required_days, fixed_days@, is_mentor, is_mentee, mentor_id)
                    == Err::<EmployeeView, Seq<char>>(m@),
            },
    {
        let s = match Sex::from_str(sex) {
            Ok(s) => s,
            Err(m) => return Err(m),
        };
        let r = match Role::from_str(role) {
            Ok(r) => r,
            Err(m) => return Err(m),
        };
        Ok(Employee { id, name, sex: s, role: r, required_days, fixed_days, is_mentor, is_mentee, mentor_id })
    }
}

} // verus!
