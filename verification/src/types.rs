use vstd::prelude::*;
use crate::text::{lower_eq, ascii_lower, concat_str};

verus! {

/// Sex of an employee, as recorded in the roster.
#[derive(Clone, Copy, Debug, PartialEq, Eq, Hash, Structural)]
pub enum Sex {
    Male,
    Female,
}

/// Job role of an employee.
#[derive(Clone, Copy, Debug, PartialEq, Eq, Hash, Structural)]
pub enum Role {
    HR,
    AiLlmEngineer,
    SocialMediaMarketing,
    ITSupport,
    MLEngineer,
    DataScientist,
    DataAnalyst,
    FullStackEngineer,
    BackendEngineer,
    FrontendEngineer,
    BlockchainEngineer,
    QaEngineer,
    ProjectManager,
    UiUxDesigner,
    MobileEngineer,
    DevOpsEngineer,
    OperationsManager,
}

/// An office weekday.
#[derive(Clone, Copy, Debug, PartialEq, Eq, Hash, PartialOrd, Ord, Structural)]
pub enum Weekday {
    Monday,
    Tuesday,
    Wednesday,
    Thursday,
    Friday,
}

/// The numbers of office days a week that an employee can be given.
pub const DAYS_OPTIONS: [u8; 4] = [1, 2, 3, 4];

pub open spec fn all_sexes() -> Seq<Sex> {
    seq![Sex::Male, Sex::Female]
}

pub open spec fn sex_name(s: Sex) -> Seq<char> {
    match s {
        Sex::Male => "Male"@,
        Sex::Female => "Female"@,
    }
}

pub open spec fn all_roles() -> Seq<Role> {
    seq![
        Role::HR,
        Role::AiLlmEngineer,
        Role::SocialMediaMarketing,
        Role::ITSupport,
        Role::MLEngineer,
        Role::DataScientist,
        Role::DataAnalyst,
        Role::FullStackEngineer,
        Role::BackendEngineer,
        Role::FrontendEngineer,
        Role::BlockchainEngineer,
        Role::QaEngineer,
        Role::ProjectManager,
        Role::UiUxDesigner,
        Role::MobileEngineer,
        Role::DevOpsEngineer,
        Role::OperationsManager,
    ]
}

pub open spec fn role_name(r: Role) -> Seq<char> {
    match r {
        Role::HR => "Human Resource Manager"@,
        Role::AiLlmEngineer => "AI-LLM Engineer"@,
        Role::SocialMediaMarketing => "Social Media Marketing"@,
        Role::ITSupport => "IT Support"@,
        Role::MLEngineer => "Machine Learning Engineer"@,
        Role::DataScientist => "Data Scientist"@,
        Role::DataAnalyst => "Data Analyst"@,
        Role::FullStackEngineer => "Full-stack Engineer"@,
        Role::BackendEngineer => "Backend Engineer"@,
        Role::FrontendEngineer => "Frontend Engineer"@,
        Role::BlockchainEngineer => "Blockchain Engineer"@,
        Role::QaEngineer => "QA Engineer"@,
        Role::ProjectManager => "Project Manager"@,
        Role::UiUxDesigner => "UI/UX Designer"@,
        Role::MobileEngineer => "Mobile Engineer"@,
        Role::DevOpsEngineer => "DevOps Engineer"@,
        Role::OperationsManager => "Operations Manager"@,
    }
}

/// The role that a text names exactly, if any.
pub open spec fn parse_role(s: Seq<char>) -> Option<Role> {
    if exists|v: Role| role_name(v) == s {
        Some(choose|v: Role| role_name(v) == s)
    } else {
        None
    }
}

/// No two roles share a display name.
pub proof fn lemma_role_name_injective(a: Role, b: Role)
    ensures
        role_name(a) == role_name(b) ==> a == b,
{
    reveal_strlit("Human Resource Manager");
    reveal_strlit("AI-LLM Engineer");
    reveal_strlit("Social Media Marketing");
    reveal_strlit("IT Support");
    reveal_strlit("Machine Learning Engineer");
    reveal_strlit("Data Scientist");
    reveal_strlit("Data Analyst");
    reveal_strlit("Full-stack Engineer");
    reveal_strlit("Backend Engineer");
    reveal_strlit("Frontend Engineer");
    reveal_strlit("Blockchain Engineer");
    reveal_strlit("QA Engineer");
    reveal_strlit("Project Manager");
    reveal_strlit("UI/UX Designer");
    reveal_strlit("Mobile Engineer");
    reveal_strlit("DevOps Engineer");
    reveal_strlit("Operations Manager");
    if role_name(a) == role_name(b) {
        assert(role_name(a).len() == role_name(b).len());
        assert(role_name(a)[0] == role_name(b)[0]);
    }
}

/// Parsing a role's display name gives the role back.
pub proof fn lemma_parse_role_name(r: Role)
    ensures
        parse_role(role_name(r)) == Some(r),
{
    let v = choose|v: Role| role_name(v) == role_name(r);
    lemma_role_name_injective(v, r);
}

/// Parsing a sex's display name gives it back.
pub proof fn lemma_parse_sex_name(x: Sex)
    ensures
        parse_sex(sex_name(x)) == Some(x),
{
    reveal_strlit("Male");
    reveal_strlit("Female");
    reveal_strlit("male");
    reveal_strlit("female");
    assert(!lower_eq("Female"@, "male"@));
    assert(lower_eq(sex_name(x), if x == Sex::Male { "male"@ } else { "female"@ }));
}

/// Parsing a weekday's display name gives the day back.
pub proof fn lemma_parse_weekday_name(d: Weekday)
    ensures
        parse_weekday(weekday_name(d)) == Some(d),
{
    reveal_strlit("Monday");
    reveal_strlit("Tuesday");
    reveal_strlit("Wednesday");
    reveal_strlit("Thursday");
    reveal_strlit("Friday");
    reveal_strlit("monday");
    reveal_strlit("tuesday");
    reveal_strlit("wednesday");
    reveal_strlit("thursday");
    reveal_strlit("friday");
    assert(ascii_lower("Friday"@[0]) != "monday"@[0]);
    assert(ascii_lower("Monday"@[0]) != "friday"@[0]);
    assert(lower_eq(weekday_name(d), match d {
        Weekday::Monday => "monday"@,
        Weekday::Tuesday => "tuesday"@,
        Weekday::Wednesday => "wednesday"@,
        Weekday::Thursday => "thursday"@,
        Weekday::Friday => "friday"@,
    }));
}

pub open spec fn all_weekdays() -> Seq<Weekday> {
    seq![Weekday::Monday, Weekday::Tuesday, Weekday::Wednesday, Weekday::Thursday, Weekday::Friday]
}

pub open spec fn weekday_name(d: Weekday) -> Seq<char> {
    match d {
        Weekday::Monday => "Monday"@,
        Weekday::Tuesday => "Tuesday"@,
        Weekday::Wednesday => "Wednesday"@,
        Weekday::Thursday => "Thursday"@,
        Weekday::Friday => "Friday"@,
    }
}

/// The weekday at a position of the working week (Monday is 0).
pub open spec fn weekday_at(i: int) -> Weekday {
    if i == 0 {
        Weekday::Monday
    } else if i == 1 {
        Weekday::Tuesday
    } else if i == 2 {
        Weekday::Wednesday
    } else if i == 3 {
        Weekday::Thursday
    } else {
        Weekday::Friday
    }
}

impl Sex {
    /// Every sex, in declaration order.
    pub fn all() -> (r: Vec<Sex>)
        ensures
            r@ == all_sexes(),
    {
        vec![Sex::Male, Sex::Female]
    }

    /// The display name ("Male" or "Female").
    pub fn to_string(&self) -> (r: String)
        ensures
            r@ == sex_name(*self),
    {
        match self {
            Sex::Male => String::from_str("Male"),
            Sex::Female => String::from_str("Female"),
        }
    }

    /// Parses "male" or "female" in any letter case.
    pub fn from_str(s: &str) -> (r: Result<Sex, String>)
        ensures
            match r {
                Ok(v) => parse_sex(s@) == Some(v),
                Err(m) => parse_sex(s@) is None && m@ == "invalid sex: "@ + s@,
            },
    {
        proof {
            reveal_strlit("male");
            reveal_strlit("female");
        }
        if crate::text::eq_ignore_ascii_case_lit(s, "male") {
            Ok(Sex::Male)
        } else if crate::text::eq_ignore_ascii_case_lit(s, "female") {
            Ok(Sex::Female)
        } else {
            Err(concat_str("invalid sex: ", s))
        }
    }
}

/// The sex that a text names, if any (letter case aside).
pub open spec fn parse_sex(s: Seq<char>) -> Option<Sex> {
    if lower_eq(s, "male"@) {
        Some(Sex::Male)
    } else if lower_eq(s, "female"@) {
        Some(Sex::Female)
    } else {
        None
    }
}

impl Role {
    /// Every role, in declaration order.
    pub fn all() -> (r: Vec<Role>)
        ensures
            r@ == all_roles(),
    {
        vec![
            Role::HR,
            Role::AiLlmEngineer,
            Role::SocialMediaMarketing,
            Role::ITSupport,
            Role::MLEngineer,
            Role::DataScientist,
            Role::DataAnalyst,
            Role::FullStackEngineer,
            Role::BackendEngineer,
            Role::FrontendEngineer,
            Role::BlockchainEngineer,
            Role::QaEngineer,
            Role::ProjectManager,
            Role::UiUxDesigner,
            Role::MobileEngineer,
            Role::DevOpsEngineer,
            Role::OperationsManager,
        ]
    }

    /// The display name of the role.
    pub fn to_string(&self) -> (r: String)
        ensures
            r@ == role_name(*self),
    {
        match self {
            Role::HR => String::from_str("Human Resource Manager"),
            Role::AiLlmEngineer => String::from_str("AI-LLM Engineer"),
            Role::SocialMediaMarketing => String::from_str("Social Media Marketing"),
            Role::ITSupport => String::from_str("IT Support"),
            Role::MLEngineer => String::from_str("Machine Learning Engineer"),
            Role::DataScientist => String::from_str("Data Scientist"),
            Role::DataAnalyst => String::from_str("Data Analyst"),
            Role::FullStackEngineer => String::from_str("Full-stack Engineer"),
            Role::BackendEngineer => String::from_str("Backend Engineer"),
            Role::FrontendEngineer => String::from_str("Frontend Engineer"),
            Role::BlockchainEngineer => String::from_str("Blockchain Engineer"),
            Role::QaEngineer => String::from_str("QA Engineer"),
            Role::ProjectManager => String::from_str("Project Manager"),
            Role::UiUxDesigner => String::from_str("UI/UX Designer"),
            Role::MobileEngineer => String::from_str("Mobile Engineer"),
            Role::DevOpsEngineer => String::from_str("DevOps Engineer"),
            Role::OperationsManager => String::from_str("Operations Manager"),
        }
    }

    /// Parses a role from its exact display name.
    pub fn from_str(s: &str) -> (r: Result<Role, String>)
        ensures
            match r {
                Ok(v) => role_name(v) == s@ && parse_role(s@) == Some(v),
                Err(m) => parse_role(s@) is None && (forall|v: Role| role_name(v) != s@) && m@
                    == "invalid role: "@ + s@,
            },
    {
        let roles = Role::all();
        let mut i: usize = 0;
        while i < roles.len()
            invariant
                roles@ == all_roles(),
                i <= roles.len(),
                forall|j: int| 0 <= j < i ==> role_name(#[trigger] roles@[j]) != s@,
            decreases roles.len() - i,
        {
            let name = roles[i].to_string();
            if crate::text::eq_str(s, name.as_str()) {
                proof {
                    lemma_parse_role_name(roles@[i as int]);
                }
                return Ok(roles[i]);
            }
            i = i + 1;
        }
        assert forall|v: Role| role_name(v) != s@ by {
            assert(all_roles().contains(v)) by {
                match v {
                    Role::HR => assert(all_roles()[0] == v),
                    Role::AiLlmEngineer => assert(all_roles()[1] == v),
                    Role::SocialMediaMarketing => assert(all_roles()[2] == v),
                    Role::ITSupport => assert(all_roles()[3] == v),
                    Role::MLEngineer => assert(all_roles()[4] == v),
                    Role::DataScientist => assert(all_roles()[5] == v),
                    Role::DataAnalyst => assert(all_roles()[6] == v),
                    Role::FullStackEngineer => assert(all_roles()[7] == v),
                    Role::BackendEngineer => assert(all_roles()[8] == v),
                    Role::FrontendEngineer => assert(all_roles()[9] == v),
                    Role::BlockchainEngineer => assert(all_roles()[10] == v),
                    Role::QaEngineer => assert(all_roles()[11] == v),
                    Role::ProjectManager => assert(all_roles()[12] == v),
                    Role::UiUxDesigner => assert(all_roles()[13] == v),
                    Role::MobileEngineer => assert(all_roles()[14] == v),
                    Role::DevOpsEngineer => assert(all_roles()[15] == v),
                    Role::OperationsManager => assert(all_roles()[16] == v),
                }
            }
        }
        Err(concat_str("invalid role: ", s))
    }
}

impl Weekday {
    /// Every weekday, Monday first.
    pub fn all() -> (r: Vec<Weekday>)
        ensures
            r@ == all_weekdays(),
    {
        vec![Weekday::Monday, Weekday::Tuesday, Weekday::Wednesday, Weekday::Thursday, Weekday::Friday]
    }

    /// Position of the day in the working week, Monday first.
    pub open spec fn spec_index(self) -> int {
        match self {
            Weekday::Monday => 0,
            Weekday::Tuesday => 1,
            Weekday::Wednesday => 2,
            Weekday::Thursday => 3,
            Weekday::Friday => 4,
        }
    }

    /// Position of the day in the working week, Monday first.
    pub fn index(&self) -> (r: usize)
        ensures
            r == self.spec_index(),
            r < 5,
            weekday_at(r as int) == *self,
    {
        match self {
            Weekday::Monday => 0,
            Weekday::Tuesday => 1,
            Weekday::Wednesday => 2,
            Weekday::Thursday => 3,
            Weekday::Friday => 4,
        }
    }

    /// The weekday at a position of the working week.
    pub fn from_index(i: usize) -> (r: Weekday)
        requires
            i < 5,
        ensures
            r == weekday_at(i as int),
            r.spec_index() == i,
    {
        if i == 0 {
            Weekday::Monday
        } else if i == 1 {
            Weekday::Tuesday
        } else if i == 2 {
            Weekday::Wednesday
        } else if i == 3 {
            Weekday::Thursday
        } else {
            Weekday::Friday
        }
    }

    /// The display name of the day.
    pub fn to_string(&self) -> (r: String)
        ensures
            r@ == weekday_name(*self),
    {
        match self {
            Weekday::Monday => String::from_str("Monday"),
            Weekday::Tuesday => String::from_str("Tuesday"),
            Weekday::Wednesday => String::from_str("Wednesday"),
            Weekday::Thursday => String::from_str("Thursday"),
            Weekday::Friday => String::from_str("Friday"),
        }
    }

    /// Parses a weekday name in any letter case.
    pub fn from_str(s: &str) -> (r: Result<Weekday, String>)
        ensures
            match r {
                Ok(v) => parse_weekday(s@) == Some(v),
                Err(m) => parse_weekday(s@) is None && m@ == "invalid weekday: "@ + s@,
            },
    {
        proof {
            reveal_strlit("monday");
            reveal_strlit("tuesday");
            reveal_strlit("wednesday");
            reveal_strlit("thursday");
            reveal_strlit("friday");
        }
        if crate::text::eq_ignore_ascii_case_lit(s, "monday") {
            Ok(Weekday::Monday)
        } else if crate::text::eq_ignore_ascii_case_lit(s, "tuesday") {
            Ok(Weekday::Tuesday)
        } else if crate::text::eq_ignore_ascii_case_lit(s, "wednesday") {
            Ok(Weekday::Wednesday)
        } else if crate::text::eq_ignore_ascii_case_lit(s, "thursday") {
            Ok(Weekday::Thursday)
        } else if crate::text::eq_ignore_ascii_case_lit(s, "friday") {
            Ok(Weekday::Friday)
        } else {
            Err(concat_str("invalid weekday: ", s))
        }
    }
}

/// The weekday that a text names, if any (letter case aside).
pub open spec fn parse_weekday(s: Seq<char>) -> Option<Weekday> {
    if lower_eq(s, "monday"@) {
        Some(Weekday::Monday)
    } else if lower_eq(s, "tuesday"@) {
        Some(Weekday::Tuesday)
    } else if lower_eq(s, "wednesday"@) {
        Some(Weekday::Wednesday)
    } else if lower_eq(s, "thursday"@) {
        Some(Weekday::Thursday)
    } else if lower_eq(s, "friday"@) {
        Some(Weekday::Friday)
    } else {
        None
    }
}

} // verus!
