use vstd::prelude::*;
use crate::types::{Sex, Role, Weekday, weekday_name};
use crate::text::{is_blank, str_is_blank, concat_str};

verus! {

/// An employee of the roster, as the scheduling engine sees it.
#[derive(Debug)]
pub struct Employee {
    pub id: i32,
    pub name: String,
    pub sex: Sex,
    pub role: Role,
    pub required_days: i32,
    pub fixed_days: Vec<Weekday>,
    pub is_mentor: bool,
    pub is_mentee: bool,
    pub mentor_id: Option<i32>,
}

/// The value of an [`Employee`], with its text and day list as sequences.
pub struct EmployeeView {
    pub id: i32,
    pub name: Seq<char>,
    pub sex: Sex,
    pub role: Role,
    pub required_days: i32,
    pub fixed_days: Seq<Weekday>,
    pub is_mentor: bool,
    pub is_mentee: bool,
    pub mentor_id: Option<i32>,
}

impl View for Employee {
    type V = EmployeeView;

    open spec fn view(&self) -> EmployeeView {
        EmployeeView {
            id: self.id,
            name: self.name@,
            sex: self.sex,
            role: self.role,
            required_days: self.required_days,
            fixed_days: self.fixed_days@,
            is_mentor: self.is_mentor,
            is_mentee: self.is_mentee,
            mentor_id: self.mentor_id,
        }
    }
}

impl Clone for Employee {
    fn clone(&self) -> (r: Self)
        ensures
            r@ == self@,
    {
        let days = self.fixed_days.clone();
        assert(days@ =~= self.fixed_days@);
        Employee {
            id: self.id,
            name: self.name.clone(),
            sex: self.sex,
            role: self.role,
            required_days: self.required_days,
            fixed_days: days,
            is_mentor: self.is_mentor,
            is_mentee: self.is_mentee,
            mentor_id: self.mentor_id,
        }
    }
}

/// The first position at or after `j` at which a fixed day repeats an earlier one, if any.
pub open spec fn first_repeat_from(days: Seq<Weekday>, j: int) -> Option<int>
    decreases days.len() - j,
{
    if j < 0 || j >= days.len() {
        None
    } else if days.subrange(0, j).contains(days[j]) {
        Some(j)
    } else {
        first_repeat_from(days, j + 1)
    }
}

/// The first position at which a fixed day repeats an earlier one, if any.
pub open spec fn first_repeat(days: Seq<Weekday>) -> Option<int> {
    first_repeat_from(days, 0)
}

/// What `Employee::validate` reports for an employee: the first broken rule, if any.
pub open spec fn validation_error(e: EmployeeView) -> Option<Seq<char>> {
    if is_blank(e.name) {
        Some("employee name cannot be empty"@)
    } else if e.required_days < 0 || e.required_days > 5 {
        Some("required days must be between 0 and 5"@)
    } else if e.fixed_days.len() > e.required_days {
        Some("fixed days cannot exceed required days"@)
    } else {
        match first_repeat(e.fixed_days) {
            Some(j) => Some("duplicate fixed day: "@ + weekday_name(e.fixed_days[j])),
            None => None,
        }
    }
}

impl Employee {
    /// A new employee with id 0 (the store assigns the real id).
    pub fn new(
        name: String,
        sex: Sex,
        role: Role,
        required_days: i32,
        fixed_days: Vec<Weekday>,
        is_mentor: bool,
        is_mentee: bool,
        mentor_id: Option<i32>,
    ) -> (r: Self)
        ensures
            r.id == 0,
            r.name == name,
            r.sex == sex,
            r.role == role,
            r.required_days == required_days,
            r.fixed_days == fixed_days,
            r.is_mentor == is_mentor,
            r.is_mentee == is_mentee,
            r.mentor_id == mentor_id,
    {
        Employee {
            id: 0,
            name,
            sex,
            role,
            required_days,
            fixed_days,
            is_mentor,
            is_mentee,
            mentor_id,
        }
    }

    /// Checks the employee's own data: a name, 0 to 5 required days, no more fixed days than
    /// required days and no fixed day twice.
    pub fn validate(&self) -> (r: Result<(), String>)
        ensures
            match r {
                Ok(_) => validation_error(self@) is None,
                Err(m) => validation_error(self@) == Some(m@),
            },
    {
        if str_is_blank(self.name.as_str()) {
            return Err(String::from_str("employee name cannot be empty"));
        }
        if self.required_days < 0 || self.required_days > 5 {
            return Err(String::from_str("required days must be between 0 and 5"));
        }
        if self.fixed_days.len() > self.required_days as usize {
            return Err(String::from_str("fixed days cannot exceed required days"));
        }
        let days = &self.fixed_days;
        let mut j: usize = 0;
        while j < days.len()
            invariant
                j <= days.len(),
                first_repeat(days@) == first_repeat_from(days@, j as int),
                days == &self.fixed_days,
                !is_blank(self.name@),
                0 <= self.required_days <= 5,
                self.fixed_days.len() <= self.required_days,
            decreases days.len() - j,
        {
            let mut k: usize = 0;
            let mut found = false;
            while k < j
                invariant
                    k <= j < days.len(),
                    found <==> exists|t: int| 0 <= t < k && days@[t] == days@[j as int],
                decreases j - k,
            {
                if days[k] == days[j] {
                    found = true;
                }
                k = k + 1;
            }
            proof {
                let w = j as int;
                if found {
                    let t = choose|t: int| 0 <= t < w && days@[t] == days@[w];
                    assert(days@.subrange(0, w)[t] == days@[w]);
                } else {
                    assert(!days@.subrange(0, w).contains(days@[w]));
                }
            }
            if found {
                return Err(concat_str("duplicate fixed day: ", days[j].to_string().as_str()));
            }
            j = j + 1;
        }
        Ok(())
    }

    /// Whether `day` is one of the employee's fixed office days.
    pub fn has_fixed_day(&self, day: Weekday) -> (r: bool)
        ensures
            r == self.fixed_days@.contains(day),
    {
        let mut i: usize = 0;
        while i < self.fixed_days.len()
            invariant
                i <= self.fixed_days.len(),
                forall|j: int| 0 <= j < i ==> self.fixed_days@[j] != day,
            decreases self.fixed_days.len() - i,
        {
            if self.fixed_days[i] == day {
                return true;
            }
            i = i + 1;
        }
        false
    }
}

} // verus!
