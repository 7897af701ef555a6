use vstd::prelude::*;
use std::collections::HashMap;
use crate::employee::{Employee, EmployeeView};
use crate::text::concat_str;
use vstd::std_specs::iter::IteratorSpec;

verus! {

broadcast use vstd::std_specs::hash::group_hash_axioms;

/// The employees of `s` by id; where two share an id, the later one stands.
pub open spec fn by_id(s: Seq<EmployeeView>) -> Map<i32, EmployeeView>
    decreases s.len(),
{
    if s.len() == 0 {
        Map::empty()
    } else {
        by_id(s.drop_last()).insert(s.last().id, s.last())
    }
}

/// The values of a sequence of employees.
pub open spec fn views(s: Seq<Employee>) -> Seq<EmployeeView> {
    s.map_values(|e: Employee| e@)
}

/// The warning for a mentee whose mentor has no office days.
pub open spec fn remote_mentor_warning(mentee: Seq<char>, mentor: Seq<char>) -> Seq<char> {
    "Warning: "@ + mentee + "'s mentor ("@ + mentor + ") works fully remote (0 office days)"@
}

/// The warning for a mentee whose mentor id names nobody.
pub open spec fn invalid_mentor_warning(mentee: Seq<char>) -> Seq<char> {
    "Mentee "@ + mentee + " has invalid mentor ID"@
}

/// The warnings that the employee with id `id` gives rise to: none, or one.
pub open spec fn warnings_of(m: Map<i32, EmployeeView>, id: i32) -> Seq<Seq<char>> {
    let e = m[id];
    if e.is_mentee && e.mentor_id is Some {
        let mid = e.mentor_id->0;
        if m.contains_key(mid) {
            if m[mid].required_days == 0 {
                seq![remote_mentor_warning(e.name, m[mid].name)]
            } else {
                seq![]
            }
        } else {
            seq![invalid_mentor_warning(e.name)]
        }
    } else {
        seq![]
    }
}

/// The warnings of the employees with the ids of `ks`, in that order.
pub open spec fn warnings_in(m: Map<i32, EmployeeView>, ks: Seq<i32>) -> Seq<Seq<char>>
    decreases ks.len(),
{
    if ks.len() == 0 {
        seq![]
    } else {
        warnings_in(m, ks.drop_last()) + warnings_of(m, ks.last())
    }
}

/// The texts of a list of strings.
pub open spec fn texts(v: Seq<String>) -> Seq<Seq<char>> {
    v.map_values(|s: String| s@)
}

/// Checks the mentor links among a set of employees.
pub struct MentorshipValidator<'a> {
    employees: HashMap<i32, &'a Employee>,
}

impl<'a> View for MentorshipValidator<'a> {
    type V = Map<i32, EmployeeView>;

    closed spec fn view(&self) -> Map<i32, EmployeeView> {
        self.employees@.map_values(|e: &'a Employee| e@)
    }
}

impl<'a> MentorshipValidator<'a> {
    /// A validator over `employees`, which it looks up by id.
    pub fn new(employees: &'a [Employee]) -> (r: Self)
        ensures
            r@ == by_id(views(employees@)),
    {
        let mut emp_map: HashMap<i32, &'a Employee> = HashMap::new();
        let mut i: usize = 0;
        while i < employees.len()
            invariant
                i <= employees.len(),
                emp_map@.map_values(|e: &'a Employee| e@) == by_id(views(employees@).take(i as int)),
            decreases employees.len() - i,
        {
            let emp = &employees[i];
            proof {
                let s = views(employees@).take(i as int + 1);
                assert(s.drop_last() =~= views(employees@).take(i as int));
                assert(s.last() == emp@);
            }
            emp_map.insert(emp.id, emp);
            proof {
                let s = views(employees@).take(i as int + 1);
                assert(emp_map@.map_values(|e: &'a Employee| e@) =~= by_id(s));
            }
            i = i + 1;
        }
        proof {
            assert(views(employees@).take(employees.len() as int) =~= views(employees@));
        }
        MentorshipValidator { employees: emp_map }
    }

    /// The warnings for mentees whose mentor works fully remote or is unknown. The employees
    /// are visited in the map's own order, which is not fixed; each id is visited once.
    pub fn validate_mentorship(&self) -> (r: Vec<String>)
        ensures
            exists|ks: Seq<i32>|
                #![trigger warnings_in(self@, ks)]
                {
                    &&& ks.no_duplicates()
                    &&& ks.to_set() == self@.dom()
                    &&& texts(r@) == warnings_in(self@, ks)
                },
    {
        let mut warnings: Vec<String> = Vec::new();
        let ghost m = self@;
        let ghost mut done: Seq<i32> = seq![];
        let ghost all: Seq<i32> =
            vstd::std_specs::hash::spec_keys_iter(&self.employees).remaining().unref();
        proof {
            assert(all.to_set() == m.dom());
        }
        for k in it: self.employees.keys()
            invariant
                m == self@,
                all.to_set() == m.dom(),
                all.no_duplicates(),
                it.seq().unref() == all,
                done == it.history().unref(),
                texts(warnings@) == warnings_in(m, done),
        {
            let id: i32 = *k;
            assert(all.contains(id));
            assert(m.contains_key(id));
            let ghost before = warnings@;
            let emp: &Employee = *self.employees.get(&id).unwrap();
            if emp.is_mentee {
                match emp.mentor_id {
                    Some(mentor_id) => match self.employees.get(&mentor_id) {
                        Some(mentor) => {
                            if mentor.required_days == 0 {
                                let a = concat_str("Warning: ", emp.name.as_str());
                                let b = concat_str(a.as_str(), "'s mentor (");
                                let c = concat_str(b.as_str(), mentor.name.as_str());
                                let d = concat_str(c.as_str(), ") works fully remote (0 office days)");
                                warnings.push(d);
                            }
                        },
                        None => {
                            let a = concat_str("Mentee ", emp.name.as_str());
                            let b = concat_str(a.as_str(), " has invalid mentor ID");
                            warnings.push(b);
                        },
                    },
                    None => {},
                }
            }
            proof {
                let nd = done.push(id);
                assert(nd.drop_last() =~= done);
                assert(m[id] == emp@);
                assert(texts(warnings@) =~= warnings_in(m, done) + warnings_of(m, id));
                done = nd;
            }
        }
        assert(done =~= all);
        assert(done.no_duplicates());
        assert(done.to_set() == m.dom());
        warnings
    }
}

} // verus!
