use vstd::prelude::*;

verus! {

/// Where an employee works on a day.
#[derive(Clone, Copy, Debug, PartialEq, Eq, Structural)]
pub enum AttendanceStatus {
    Office,
    Remote,
}

impl AttendanceStatus {
    /// The other place: office becomes remote and remote becomes office.
    pub open spec fn flipped(self) -> AttendanceStatus {
        match self {
            AttendanceStatus::Office => AttendanceStatus::Remote,
            AttendanceStatus::Remote => AttendanceStatus::Office,
        }
    }

    /// The other place: office becomes remote and remote becomes office.
    pub fn toggle(&self) -> (r: Self)
        ensures
            r == self.flipped(),
    {
        match self {
            Self::Office => Self::Remote,
            Self::Remote => Self::Office,
        }
    }
}

/// One row of the attendance table: a person and where they work each weekday.
#[derive(Debug)]
pub struct Employee {
    pub name: String,
    pub role: String,
    /// Monday to Friday.
    pub attendance: [AttendanceStatus; 5],
}

/// The value of a row.
pub struct RowView {
    pub name: Seq<char>,
    pub role: Seq<char>,
    pub attendance: Seq<AttendanceStatus>,
}

impl View for Employee {
    type V = RowView;

    open spec fn view(&self) -> RowView {
        RowView { name: self.name@, role: self.role@, attendance: self.attendance@ }
    }
}

impl Clone for Employee {
    fn clone(&self) -> (r: Self)
        ensures
            r@ == self@,
    {
        Employee { name: self.name.clone(), role: self.role.clone(), attendance: self.attendance }
    }
}

/// A table of employees and their weekly attendance, with at most one row selected.
#[derive(Debug)]
pub struct AttendanceTable {
    employees: Vec<Employee>,
    selected_employee: Option<usize>,
}

/// The value of a table: its rows and the selected row, if any.
pub struct TableView {
    pub rows: Seq<RowView>,
    pub selected: Option<usize>,
}

impl View for AttendanceTable {
    type V = TableView;

    closed spec fn view(&self) -> TableView {
        TableView {
            rows: self.employees@.map_values(|e: Employee| e@),
            selected: self.selected_employee,
        }
    }
}

/// What the table is told to do.
#[derive(Clone, Copy, Debug, PartialEq, Eq, Structural)]
pub enum Message {
    /// Flip where an employee (first index) works on a weekday (second index).
    ToggleStatus(usize, usize),
    /// Select a row, or clear the selection when the row is already selected.
    SelectEmployee(usize),
    /// Clear the selection if it is still this row.
    AutoDeselect(usize),
}

/// A sample row.
pub open spec fn sample_row(name: Seq<char>, role: Seq<char>, a: [AttendanceStatus; 5]) -> RowView {
    RowView { name, role, attendance: a@ }
}

/// The sample roster that a new table shows.
pub open spec fn sample_rows() -> Seq<RowView> {
    seq![
        sample_row("Sarah Jenkins"@, "UX Designer"@, [AttendanceStatus::Office, AttendanceStatus::Office, AttendanceStatus::Remote, AttendanceStatus::Office, AttendanceStatus::Office]),
        sample_row("Michael Ross"@, "Product Manager"@, [AttendanceStatus::Remote, AttendanceStatus::Office, AttendanceStatus::Office, AttendanceStatus::Remote, AttendanceStatus::Office]),
        sample_row("Emily Chen"@, "Frontend Dev"@, [AttendanceStatus::Office, AttendanceStatus::Remote, AttendanceStatus::Office, AttendanceStatus::Office, AttendanceStatus::Remote]),
        sample_row("David Kim"@, "Backend Dev"@, [AttendanceStatus::Office, AttendanceStatus::Office, AttendanceStatus::Office, AttendanceStatus::Remote, AttendanceStatus::Office]),
        sample_row("Linda Martinez"@, "HR Director"@, [AttendanceStatus::Remote, AttendanceStatus::Office, AttendanceStatus::Remote, AttendanceStatus::Office, AttendanceStatus::Remote]),
        sample_row("Robert Fox"@, "DevOps"@, [AttendanceStatus::Office, AttendanceStatus::Remote, AttendanceStatus::Remote, AttendanceStatus::Office, AttendanceStatus::Office]),
        sample_row("Alice Cooper"@, "Marketing Lead"@, [AttendanceStatus::Office, AttendanceStatus::Office, AttendanceStatus::Office, AttendanceStatus::Office, AttendanceStatus::Office]),
        sample_row("Emmanuel Felix Nunoo"@, "Sales Manager"@, [AttendanceStatus::Remote, AttendanceStatus::Remote, AttendanceStatus::Office, AttendanceStatus::Office, AttendanceStatus::Remote]),
        sample_row("Charlie Brown"@, "Intern"@, [AttendanceStatus::Office, AttendanceStatus::Office, AttendanceStatus::Remote, AttendanceStatus::Remote, AttendanceStatus::Office]),
        sample_row("Diana Prince"@, "Security Analyst"@, [AttendanceStatus::Office, AttendanceStatus::Office, AttendanceStatus::Office, AttendanceStatus::Office, AttendanceStatus::Remote]),
        sample_row("Evan Wright"@, "Data Scientist"@, [AttendanceStatus::Remote, AttendanceStatus::Office, AttendanceStatus::Remote, AttendanceStatus::Office, AttendanceStatus::Office]),
        sample_row("Fiona Gallagher"@, "HR Assistant"@, [AttendanceStatus::Office, AttendanceStatus::Remote, AttendanceStatus::Office, AttendanceStatus::Office, AttendanceStatus::Remote]),
        sample_row("George Martin"@, "Copywriter"@, [AttendanceStatus::Remote, AttendanceStatus::Remote, AttendanceStatus::Remote, AttendanceStatus::Office, AttendanceStatus::Office]),
        sample_row("Hannah Lee"@, "QA Engineer"@, [AttendanceStatus::Office, AttendanceStatus::Office, AttendanceStatus::Office, AttendanceStatus::Remote, AttendanceStatus::Remote]),
        sample_row("Ian Somerhalder"@, "System Admin"@, [AttendanceStatus::Office, AttendanceStatus::Remote, AttendanceStatus::Office, AttendanceStatus::Remote, AttendanceStatus::Office]),
        sample_row("Julia Roberts"@, "Receptionist"@, [AttendanceStatus::Office, AttendanceStatus::Office, AttendanceStatus::Office, AttendanceStatus::Office, AttendanceStatus::Office]),
    ]
}

fn sample_employee(name: &str, role: &str, attendance: [AttendanceStatus; 5]) -> (r: Employee)
    ensures
        r@ == sample_row(name@, role@, attendance),
{
    Employee { name: String::from_str(name), role: String::from_str(role), attendance }
}

/// How many rows have the employee in the office on weekday `d`.
pub open spec fn office_count(rows: Seq<RowView>, d: int) -> nat
    decreases rows.len(),
{
    if rows.len() == 0 {
        0
    } else {
        office_count(rows.drop_last(), d) + if rows.last().attendance[d] == AttendanceStatus::Office {
            1nat
        } else {
            0nat
        }
    }
}

/// What a message does to a table, and the row whose selection is to be cleared after a
/// while, if any.
pub open spec fn table_step(t: TableView, m: Message) -> (TableView, Option<usize>) {
    match m {
        Message::ToggleStatus(e, d) => {
            if e < t.rows.len() && d < 5 {
                let row = t.rows[e as int];
                let new_row = RowView {
                    attendance: row.attendance.update(d as int, row.attendance[d as int].flipped()),
                    ..row
                };
                (TableView { rows: t.rows.update(e as int, new_row), ..t }, None)
            } else {
                (t, None)
            }
        },
        Message::SelectEmployee(i) => {
            if t.selected == Some(i) {
                (TableView { selected: None, ..t }, None)
            } else {
                (TableView { selected: Some(i), ..t }, Some(i))
            }
        },
        Message::AutoDeselect(i) => {
            if t.selected == Some(i) {
                (TableView { selected: None, ..t }, None)
            } else {
                (t, None)
            }
        },
    }
}

impl AttendanceTable {
    /// A table with the sample roster and no row selected.
    pub fn new() -> (r: Self)
        ensures
            r@.rows == sample_rows(),
            r@.selected is None,
    {
        let mut employees: Vec<Employee> = Vec::new();
    employees.push(sample_employee("Sarah Jenkins", "UX Designer", [AttendanceStatus::Office, AttendanceStatus::Office, AttendanceStatus::Remote, AttendanceStatus::Office, AttendanceStatus::Office]));
    employees.push(sample_employee("Michael Ross", "Product Manager", [AttendanceStatus::Remote, AttendanceStatus::Office, AttendanceStatus::Office, AttendanceStatus::Remote, AttendanceStatus::Office]));
    employees.push(sample_employee("Emily Chen", "Frontend Dev", [AttendanceStatus::Office, AttendanceStatus::Remote, AttendanceStatus::Office, AttendanceStatus::Office, AttendanceStatus::Remote]));
    employees.push(sample_employee("David Kim", "Backend Dev", [AttendanceStatus::Office, AttendanceStatus::Office, AttendanceStatus::Office, AttendanceStatus::Remote, AttendanceStatus::Office]));
    employees.push(sample_employee("Linda Martinez", "HR Director", [AttendanceStatus::Remote, AttendanceStatus::Office, AttendanceStatus::Remote, AttendanceStatus::Office, AttendanceStatus::Remote]));
    employees.push(sample_employee("Robert Fox", "DevOps", [AttendanceStatus::Office, AttendanceStatus::Remote, AttendanceStatus::Remote, AttendanceStatus::Office, AttendanceStatus::Office]));
    employees.push(sample_employee("Alice Cooper", "Marketing Lead", [AttendanceStatus::Office, AttendanceStatus::Office, AttendanceStatus::Office, AttendanceStatus::Office, AttendanceStatus::Office]));
    employees.push(sample_employee("Emmanuel Felix Nunoo", "Sales Manager", [AttendanceStatus::Remote, AttendanceStatus::Remote, AttendanceStatus::Office, AttendanceStatus::Office, AttendanceStatus::Remote]));
    employees.push(sample_employee("Charlie Brown", "Intern", [AttendanceStatus::Office, AttendanceStatus::Office, AttendanceStatus::Remote, AttendanceStatus::Remote, AttendanceStatus::Office]));
    employees.push(sample_employee("Diana Prince", "Security Analyst", [AttendanceStatus::Office, AttendanceStatus::Office, AttendanceStatus::Office, AttendanceStatus::Office, AttendanceStatus::Remote]));
    employees.push(sample_employee("Evan Wright", "Data Scientist", [AttendanceStatus::Remote, AttendanceStatus::Office, AttendanceStatus::Remote, AttendanceStatus::Office, AttendanceStatus::Office]));
    employees.push(sample_employee("Fiona Gallagher", "HR Assistant", [AttendanceStatus::Office, AttendanceStatus::Remote, AttendanceStatus::Office, AttendanceStatus::Office, AttendanceStatus::Remote]));
    employees.push(sample_employee("George Martin", "Copywriter", [AttendanceStatus::Remote, AttendanceStatus::Remote, AttendanceStatus::Remote, AttendanceStatus::Office, AttendanceStatus::Office]));
    employees.push(sample_employee("Hannah Lee", "QA Engineer", [AttendanceStatus::Office, AttendanceStatus::Office, AttendanceStatus::Office, AttendanceStatus::Remote, AttendanceStatus::Remote]));
    employees.push(sample_employee("Ian Somerhalder", "System Admin", [AttendanceStatus::Office, AttendanceStatus::Remote, AttendanceStatus::Office, AttendanceStatus::Remote, AttendanceStatus::Office]));
    employees.push(sample_employee("Julia Roberts", "Receptionist", [AttendanceStatus::Office, AttendanceStatus::Office, AttendanceStatus::Office, AttendanceStatus::Office, AttendanceStatus::Office]));
        let r = AttendanceTable { employees, selected_employee: None };
        assert(r@.rows =~= sample_rows());
        r
    }

    /// Applies a message. Selecting a row that was not selected returns it: the caller clears
    /// the selection with `AutoDeselect` after fifteen seconds.
    pub fn update(&mut self, message: Message) -> (r: Option<usize>)
        ensures
            (final(self)@, r) == table_step(old(self)@, message),
    {
        match message {
            Message::ToggleStatus(emp_idx, day_idx) => {
                if emp_idx < self.employees.len() && day_idx < 5 {
                    let ghost before = self.employees@;
                    let mut row = self.employees[emp_idx].clone();
                    let flipped = row.attendance[day_idx].toggle();
                    row.attendance.set(day_idx, flipped);
                    self.employees.set(emp_idx, row);
                    proof {
                        assert(self.employees@.map_values(|e: Employee| e@) =~= before.map_values(
                            |e: Employee| e@,
                        ).update(emp_idx as int, self.employees@[emp_idx as int]@));
                    }
                }
                None
            },
            Message::SelectEmployee(idx) => {
                if self.selected_employee == Some(idx) {
                    self.selected_employee = None;
                    None
                } else {
                    self.selected_employee = Some(idx);
                    Some(idx)
                }
            },
            Message::AutoDeselect(idx) => {
                if self.selected_employee == Some(idx) {
                    self.selected_employee = None;
                }
                None
            },
        }
    }

    /// The number of rows.
    pub fn len(&self) -> (r: usize)
        ensures
            r == self@.rows.len(),
    {
        self.employees.len()
    }

    /// The rows, in order.
    pub fn employees(&self) -> (r: &Vec<Employee>)
        ensures
            r@.map_values(|e: Employee| e@) == self@.rows,
    {
        &self.employees
    }

    /// The selected row, if any.
    pub fn selected_employee(&self) -> (r: Option<usize>)
        ensures
            r == self@.selected,
    {
        self.selected_employee
    }

    /// For each weekday, how many employees are in the office (the table's footer).
    pub fn office_totals(&self) -> (r: Vec<usize>)
        ensures
            r@.len() == 5,
            forall|d: int| 0 <= d < 5 ==> r@[d] == office_count(self@.rows, d),
    {
        let mut totals: Vec<usize> = Vec::new();
        let mut d: usize = 0;
        while d < 5
            invariant
                d <= 5,
                totals@.len() == d,
                forall|k: int| 0 <= k < d ==> totals@[k] == office_count(self@.rows, k),
            decreases 5 - d,
        {
            let mut count: usize = 0;
            let mut i: usize = 0;
            while i < self.employees.len()
                invariant
                    d < 5,
                    i <= self.employees.len(),
                    count <= i,
                    count == office_count(self@.rows.take(i as int), d as int),
                decreases self.employees.len() - i,
            {
                proof {
                    let rows = self@.rows;
                    assert(rows.take(i as int + 1).drop_last() =~= rows.take(i as int));
                }
                if self.employees[i].attendance[d] == AttendanceStatus::Office {
                    count = count + 1;
                }
                i = i + 1;
            }
            proof {
                assert(self@.rows.take(self.employees.len() as int) =~= self@.rows);
            }
            totals.push(count);
            d = d + 1;
        }
        totals
    }
}

} // verus!
