use vstd::prelude::*;
use crate::employee::{Employee, EmployeeView};
use crate::types::{Sex, Role, Weekday, sex_name, role_name, weekday_name, parse_sex, parse_role, parse_weekday, lemma_parse_weekday_name};
use crate::numbers::{IntErrorKind, parse_i32, parse_i32_text, int_error_message, lemma_parse_int_decimal};
use crate::text::{concat_str, int_decimal, i64_to_string, eq_str};
use crate::mentorship::texts;
use csv::{ReaderBuilder, WriterBuilder};

verus! {

/// What `str::parse::<bool>` gives: only the exact words "true" and "false" are booleans.
pub open spec fn parse_bool(s: Seq<char>) -> Option<bool> {
    if s == "true"@ {
        Some(true)
    } else if s == "false"@ {
        Some(false)
    } else {
        None
    }
}

/// How `bool::to_string` writes a boolean.
pub open spec fn bool_text(b: bool) -> Seq<char> {
    if b {
        "true"@
    } else {
        "false"@
    }
}

/// The message of std's `ParseBoolError`.
pub open spec fn bool_error() -> Seq<char> {
    "provided string was not `true` or `false`"@
}

/// The pieces of `s` between the semicolons, as `str::split(';')` gives them.
pub open spec fn split_semis(s: Seq<char>) -> Seq<Seq<char>>
    decreases s.len(),
{
    if s.len() == 0 {
        seq![Seq::<char>::empty()]
    } else {
        let p = split_semis(s.drop_last());
        if s.last() == ';' {
            p.push(Seq::<char>::empty())
        } else {
            p.update(p.len() - 1, p.last().push(s.last()))
        }
    }
}

/// The fixed days that a list of day names gives: empty names are skipped, and the first
/// name that is no weekday is reported.
pub open spec fn parse_days(segs: Seq<Seq<char>>) -> Result<Seq<Weekday>, Seq<char>>
    decreases segs.len(),
{
    if segs.len() == 0 {
        Ok(Seq::<Weekday>::empty())
    } else {
        match parse_days(segs.drop_last()) {
            Err(e) => Err(e),
            Ok(ds) => {
                let t = segs.last();
                if t.len() == 0 {
                    Ok(ds)
                } else {
                    match parse_weekday(t) {
                        Some(d) => Ok(ds.push(d)),
                        None => Err("invalid weekday: "@ + t),
                    }
                }
            },
        }
    }
}

/// The day names of `ds` joined with semicolons.
pub open spec fn join_days(ds: Seq<Weekday>) -> Seq<char>
    decreases ds.len(),
{
    if ds.len() == 0 {
        Seq::<char>::empty()
    } else if ds.len() == 1 {
        weekday_name(ds[0])
    } else {
        join_days(ds.drop_last()) + seq![';'] + weekday_name(ds.last())
    }
}

/// The mentor id of a record: empty for none.
pub open spec fn parse_mentor_id(s: Seq<char>) -> Result<Option<i32>, IntErrorKind> {
    if s.len() == 0 {
        Ok(None)
    } else {
        match parse_i32(s) {
            Ok(v) => Ok(Some(v)),
            Err(k) => Err(k),
        }
    }
}

/// The employee that a CSV record describes, or the message of the first field that is wrong.
/// The fields are: name, sex, role, required days, fixed days (separated by semicolons),
/// is mentor, is mentee and mentor id (empty for none). The id is left 0.
pub open spec fn record_employee(rec: Seq<Seq<char>>) -> Result<EmployeeView, Seq<char>> {
    if rec.len() < 8 {
        Err("Invalid record length"@)
    } else {
        match parse_sex(rec[1]) {
            None => Err("invalid sex: "@ + rec[1]),
            Some(sex) => match parse_role(rec[2]) {
                None => Err("invalid role: "@ + rec[2]),
                Some(role) => match parse_i32(rec[3]) {
                    Err(k) => Err(int_error_message(k)),
                    Ok(required_days) => match parse_days(split_semis(rec[4])) {
                        Err(m) => Err(m),
                        Ok(fixed_days) => match parse_bool(rec[5]) {
                            None => Err(bool_error()),
                            Some(is_mentor) => match parse_bool(rec[6]) {
                                None => Err(bool_error()),
                                Some(is_mentee) => match parse_mentor_id(rec[7]) {
                                    Err(k) => Err(int_error_message(k)),
                                    Ok(mentor_id) => Ok(
                                        EmployeeView {
                                            id: 0,
                                            name: rec[0],
                                            sex,
                                            role,
                                            required_days,
                                            fixed_days,
                                            is_mentor,
                                            is_mentee,
                                            mentor_id,
                                        },
                                    ),
                                },
                            },
                        },
                    },
                },
            },
        }
    }
}

/// The CSV record of an employee (its id is not written).
pub open spec fn employee_record(e: EmployeeView) -> Seq<Seq<char>> {
    seq![
        e.name,
        sex_name(e.sex),
        role_name(e.role),
        int_decimal(e.required_days as int),
        join_days(e.fixed_days),
        bool_text(e.is_mentor),
        bool_text(e.is_mentee),
        match e.mentor_id {
            Some(v) => int_decimal(v as int),
            None => Seq::<char>::empty(),
        },
    ]
}

/// The header line of an employee CSV file.
pub open spec fn record_header() -> Seq<Seq<char>> {
    seq![
        "Name"@,
        "Sex"@,
        "Role"@,
        "Required Days"@,
        "Fixed Days"@,
        "Is Mentor"@,
        "Is Mentee"@,
        "Mentor ID"@,
    ]
}

proof fn lemma_split_semis_nonempty(s: Seq<char>)
    ensures
        split_semis(s).len() >= 1,
    decreases s.len(),
{
    if s.len() > 0 {
        lemma_split_semis_nonempty(s.drop_last());
    }
}

/// Parses the text of a boolean as `str::parse::<bool>` does.
pub fn parse_bool_text(s: &str) -> (r: Result<bool, String>)
    ensures
        match r {
            Ok(b) => parse_bool(s@) == Some(b),
            Err(m) => parse_bool(s@) is None && m@ == bool_error(),
        },
{
    proof {
        reveal_strlit("true");
        reveal_strlit("false");
    }
    if eq_str(s, "true") {
        Ok(true)
    } else if eq_str(s, "false") {
        Ok(false)
    } else {
        Err(String::from_str("provided string was not `true` or `false`"))
    }
}

/// Writes a boolean as `bool::to_string` does.
pub fn bool_to_string(b: bool) -> (r: String)
    ensures
        r@ == bool_text(b),
{
    if b {
        String::from_str("true")
    } else {
        String::from_str("false")
    }
}

/// The message of a failed integer parse.
pub fn int_error_text(k: IntErrorKind) -> (r: String)
    ensures
        r@ == int_error_message(k),
{
    match k {
        IntErrorKind::Empty => String::from_str("cannot parse integer from empty string"),
        IntErrorKind::InvalidDigit => String::from_str("invalid digit found in string"),
        IntErrorKind::PosOverflow => String::from_str("number too large to fit in target type"),
        IntErrorKind::NegOverflow => String::from_str("number too small to fit in target type"),
    }
}

/// Splits a text at its semicolons, as `str::split(';')` does.
pub fn split_semicolons(s: &str) -> (r: Vec<String>)
    ensures
        texts(r@) == split_semis(s@),
{
    let n = s.unicode_len();
    let mut parts: Vec<String> = Vec::new();
    let mut start: usize = 0;
    let mut i: usize = 0;
    proof {
        assert(texts(parts@) =~= Seq::<Seq<char>>::empty());
        assert(s@.take(0) =~= Seq::<char>::empty());
        assert(s@.subrange(0, 0) =~= Seq::<char>::empty());
        assert(texts(parts@).push(s@.subrange(0, 0)) =~= split_semis(s@.take(0)));
    }
    while i < n
        invariant
            n == s@.len(),
            start <= i <= n,
            texts(parts@).push(s@.subrange(start as int, i as int)) == split_semis(s@.take(i as int)),
        decreases n - i,
    {
        let c = s.get_char(i);
        proof {
            let t = s@.take(i as int + 1);
            assert(t.drop_last() =~= s@.take(i as int));
            assert(t.last() == c);
            lemma_split_semis_nonempty(s@.take(i as int));
        }
        if c == ';' {
            let piece = String::from_str(s.substring_char(start, i));
            parts.push(piece);
            start = i + 1;
            proof {
                assert(s@.subrange(start as int, i as int + 1) =~= Seq::<char>::empty());
                assert(texts(parts@).push(s@.subrange(start as int, i as int + 1))
                    =~= split_semis(s@.take(i as int + 1)));
            }
        } else {
            proof {
                assert(s@.subrange(start as int, i as int + 1) =~= s@.subrange(start as int, i as int).push(c));
                assert(texts(parts@).push(s@.subrange(start as int, i as int + 1))
                    =~= split_semis(s@.take(i as int + 1)));
            }
        }
        i = i + 1;
    }
    let last = String::from_str(s.substring_char(start, n));
    parts.push(last);
    proof {
        assert(s@.take(n as int) =~= s@);
        assert(texts(parts@) =~= texts(parts@.drop_last()).push(s@.subrange(start as int, n as int)));
    }
    parts
}

/// Reads the fixed days from their semicolon-separated names.
pub fn parse_day_list(s: &str) -> (r: Result<Vec<Weekday>, String>)
    ensures
        match r {
            Ok(ds) => parse_days(split_semis(s@)) == Ok::<Seq<Weekday>, Seq<char>>(ds@),
            Err(m) => parse_days(split_semis(s@)) == Err::<Seq<Weekday>, Seq<char>>(m@),
        },
{
    let segs = split_semicolons(s);
    let mut days: Vec<Weekday> = Vec::new();
    let mut i: usize = 0;
    while i < segs.len()
        invariant
            i <= segs.len(),
            texts(segs@) == split_semis(s@),
            parse_days(texts(segs@).take(i as int)) == Ok::<Seq<Weekday>, Seq<char>>(days@),
        decreases segs.len() - i,
    {
        proof {
            let t = texts(segs@).take(i as int + 1);
            assert(t.drop_last() =~= texts(segs@).take(i as int));
            assert(t.last() == segs@[i as int]@);
        }
        let seg = segs[i].as_str();
        if seg.unicode_len() > 0 {
            match Weekday::from_str(seg) {
                Ok(d) => {
                    days.push(d);
                },
                Err(m) => {
                    proof {
                        lemma_parse_days_error(texts(segs@), i as int + 1);
                        assert(texts(segs@).take(segs.len() as int) =~= texts(segs@));
                    }
                    return Err(m);
                },
            }
        }
        i = i + 1;
    }
    proof {
        assert(texts(segs@).take(segs.len() as int) =~= texts(segs@));
    }
    Ok(days)
}

/// Once a prefix of the names fails, the whole list fails with the same message.
proof fn lemma_parse_days_error(segs: Seq<Seq<char>>, k: int)
    requires
        0 <= k <= segs.len(),
        parse_days(segs.take(k)) is Err,
    ensures
        parse_days(segs) == parse_days(segs.take(k)),
    decreases segs.len() - k,
{
    if k < segs.len() {
        let t = segs.take(k + 1);
        assert(t.drop_last() =~= segs.take(k));
        lemma_parse_days_error(segs, k + 1);
    } else {
        assert(segs.take(k) =~= segs);
    }
}

/// The names of the days joined with semicolons.
pub fn join_day_names(ds: &Vec<Weekday>) -> (r: String)
    ensures
        r@ == join_days(ds@),
{
    let mut out = String::new();
    let mut i: usize = 0;
    while i < ds.len()
        invariant
            i <= ds.len(),
            out@ == join_days(ds@.take(i as int)),
        decreases ds.len() - i,
    {
        proof {
            let t = ds@.take(i as int + 1);
            assert(t.drop_last() =~= ds@.take(i as int));
            reveal_strlit(";");
        }
        let name = ds[i].to_string();
        if i == 0 {
            out = name;
        } else {
            let with_sep = concat_str(out.as_str(), ";");
            out = concat_str(with_sep.as_str(), name.as_str());
        }
        i = i + 1;
    }
    proof {
        assert(ds@.take(ds.len() as int) =~= ds@);
    }
    out
}

/// Reads an employee from the fields of a CSV record; see [`record_employee`].
pub fn employee_from_record(record: &[String]) -> (r: Result<Employee, String>)
    ensures
        match r {
            Ok(e) => record_employee(texts(record@)) == Ok::<EmployeeView, Seq<char>>(e@),
            Err(m) => record_employee(texts(record@)) == Err::<EmployeeView, Seq<char>>(m@),
        },
{
    proof {
        reveal_strlit("Invalid record length");
    }
    if record.len() < 8 {
        return Err(String::from_str("Invalid record length"));
    }
    let ghost rec = texts(record@);
    let name = record[0].clone();
    let sex = match Sex::from_str(record[1].as_str()) {
        Ok(v) => v,
        Err(m) => return Err(m),
    };
    let role = match Role::from_str(record[2].as_str()) {
        Ok(v) => v,
        Err(m) => return Err(m),
    };
    let required_days = match parse_i32_text(record[3].as_str()) {
        Ok(v) => v,
        Err(k) => return Err(int_error_text(k)),
    };
    let fixed_days = match parse_day_list(record[4].as_str()) {
        Ok(v) => v,
        Err(m) => return Err(m),
    };
    let is_mentor = match parse_bool_text(record[5].as_str()) {
        Ok(v) => v,
        Err(m) => return Err(m),
    };
    let is_mentee = match parse_bool_text(record[6].as_str()) {
        Ok(v) => v,
        Err(m) => return Err(m),
    };
    let mentor_text = record[7].as_str();
    let mentor_id = if mentor_text.unicode_len() == 0 {
        None
    } else {
        match parse_i32_text(mentor_text) {
            Ok(v) => Some(v),
            Err(k) => return Err(int_error_text(k)),
        }
    };
    Ok(Employee::new(name, sex, role, required_days, fixed_days, is_mentor, is_mentee, mentor_id))
}

/// The CSV record of an employee; see [`employee_record`].
pub fn employee_to_record(e: &Employee) -> (r: Vec<String>)
    ensures
        texts(r@) == employee_record(e@),
{
    let mut out: Vec<String> = Vec::new();
    out.push(e.name.clone());
    out.push(e.sex.to_string());
    out.push(e.role.to_string());
    out.push(i64_to_string(e.required_days as i64));
    out.push(join_day_names(&e.fixed_days));
    out.push(bool_to_string(e.is_mentor));
    out.push(bool_to_string(e.is_mentee));
    let mentor = match e.mentor_id {
        Some(v) => i64_to_string(v as i64),
        None => String::new(),
    };
    out.push(mentor);
    assert(texts(out@) =~= employee_record(e@));
    out
}

/// The header of an employee CSV file.
pub fn employee_record_header() -> (r: Vec<String>)
    ensures
        texts(r@) == record_header(),
{
    let r = vec![
        String::from_str("Name"),
        String::from_str("Sex"),
        String::from_str("Role"),
        String::from_str("Required Days"),
        String::from_str("Fixed Days"),
        String::from_str("Is Mentor"),
        String::from_str("Is Mentee"),
        String::from_str("Mentor ID"),
    ];
    assert(texts(r@) =~= record_header());
    r
}

/// Appending text without semicolons only lengthens the last piece.
proof fn lemma_split_append(x: Seq<char>, b: Seq<char>)
    requires
        !b.contains(';'),
    ensures
        split_semis(x + b) == split_semis(x).update(
            split_semis(x).len() - 1,
            split_semis(x).last() + b,
        ),
        split_semis(x + b).len() == split_semis(x).len(),
    decreases b.len(),
{
    lemma_split_semis_nonempty(x);
    if b.len() == 0 {
        assert(x + b =~= x);
        assert(split_semis(x).last() + b =~= split_semis(x).last());
        assert(split_semis(x).update(split_semis(x).len() - 1, split_semis(x).last())
            =~= split_semis(x));
    } else {
        let b0 = b.drop_last();
        let c = b.last();
        assert(!b0.contains(';')) by {
            if b0.contains(';') {
                let i = choose|i: int| 0 <= i < b0.len() && b0[i] == ';';
                assert(b[i] == ';');
            }
        }
        assert(b[b.len() - 1] == c);
        lemma_split_append(x, b0);
        assert((x + b).drop_last() =~= x + b0);
        assert((x + b).last() == c);
        assert((split_semis(x).last() + b0).push(c) =~= split_semis(x).last() + b);
        assert(split_semis(x + b) =~= split_semis(x).update(
            split_semis(x).len() - 1,
            split_semis(x).last() + b,
        ));
    }
}

/// A day name is not empty and holds no semicolon.
proof fn lemma_weekday_name_plain(d: Weekday)
    ensures
        weekday_name(d).len() > 0,
        !weekday_name(d).contains(';'),
{
    reveal_strlit("Monday");
    reveal_strlit("Tuesday");
    reveal_strlit("Wednesday");
    reveal_strlit("Thursday");
    reveal_strlit("Friday");
}

/// Splitting joined day names gives the names back.
proof fn lemma_split_join(ds: Seq<Weekday>)
    requires
        ds.len() > 0,
    ensures
        split_semis(join_days(ds)) == ds.map_values(|d: Weekday| weekday_name(d)),
    decreases ds.len(),
{
    let e = Seq::<char>::empty();
    if ds.len() == 1 {
        lemma_weekday_name_plain(ds[0]);
        lemma_split_append(e, weekday_name(ds[0]));
        assert(e + weekday_name(ds[0]) =~= weekday_name(ds[0]));
        assert(split_semis(e) =~= seq![e]);
        assert(split_semis(join_days(ds)) =~= ds.map_values(|d: Weekday| weekday_name(d)));
    } else {
        let p = ds.drop_last();
        lemma_split_join(p);
        let jp = join_days(p);
        let js = jp + seq![';'];
        assert(js.drop_last() =~= jp);
        assert(js.last() == ';');
        lemma_split_semis_nonempty(jp);
        assert(split_semis(js) == split_semis(jp).push(e));
        lemma_weekday_name_plain(ds.last());
        lemma_split_append(js, weekday_name(ds.last()));
        assert(e + weekday_name(ds.last()) =~= weekday_name(ds.last()));
        assert(split_semis(join_days(ds)) =~= ds.map_values(|d: Weekday| weekday_name(d)));
    }
}

/// Parsing the names of days gives the days back.
proof fn lemma_parse_day_names(ds: Seq<Weekday>)
    ensures
        parse_days(ds.map_values(|d: Weekday| weekday_name(d))) == Ok::<Seq<Weekday>, Seq<char>>(ds),
    decreases ds.len(),
{
    if ds.len() > 0 {
        let p = ds.drop_last();
        lemma_parse_day_names(p);
        assert(ds.map_values(|d: Weekday| weekday_name(d)).drop_last()
            =~= p.map_values(|d: Weekday| weekday_name(d)));
        lemma_weekday_name_plain(ds.last());
        lemma_parse_weekday_name(ds.last());
        let names = ds.map_values(|d: Weekday| weekday_name(d));
        assert(names.len() == ds.len());
        assert(names.last() == weekday_name(ds.last()));
        assert(p.push(ds.last()) =~= ds);
    } else {
        assert(ds.map_values(|d: Weekday| weekday_name(d)) =~= Seq::<Seq<char>>::empty());
        assert(ds =~= Seq::<Weekday>::empty());
    }
}

/// Reading the fixed-days field of a record gives the days that were written.
pub proof fn lemma_days_field_roundtrip(ds: Seq<Weekday>)
    ensures
        parse_days(split_semis(join_days(ds))) == Ok::<Seq<Weekday>, Seq<char>>(ds),
{
    if ds.len() > 0 {
        lemma_split_join(ds);
        lemma_parse_day_names(ds);
    } else {
        let e = Seq::<char>::empty();
        assert(join_days(ds) =~= e);
        assert(split_semis(e) =~= seq![e]);
        assert(seq![e].drop_last() =~= Seq::<Seq<char>>::empty());
        assert(seq![e].last() == e);
        assert(parse_days(Seq::<Seq<char>>::empty()) == Ok::<Seq<Weekday>, Seq<char>>(Seq::<Weekday>::empty()));
        assert(ds =~= Seq::<Weekday>::empty());
    }
}

/// Parsing the text of a boolean gives it back.
pub proof fn lemma_bool_roundtrip(b: bool)
    ensures
        parse_bool(bool_text(b)) == Some(b),
{
    reveal_strlit("true");
    reveal_strlit("false");
    assert("true"@ != "false"@) by {
        assert("true"@.len() != "false"@.len());
    }
}

/// Reading the mentor field of a record gives the mentor id that was written.
pub proof fn lemma_mentor_field_roundtrip(m: Option<i32>)
    ensures
        parse_mentor_id(
            match m {
                Some(v) => int_decimal(v as int),
                None => Seq::<char>::empty(),
            },
        ) == Ok::<Option<i32>, IntErrorKind>(m),
{
    if let Some(v) = m {
        lemma_parse_int_decimal(v);
        if v < 0 {
            assert(int_decimal(v as int).len() > 0);
        } else {
            crate::numbers::lemma_nat_decimal_value(v as nat);
        }
    }
}

/// The texts of the records of a CSV file.
pub open spec fn rows_text(v: Seq<Vec<String>>) -> Seq<Seq<Seq<char>>> {
    v.map_values(|r: Vec<String>| texts(r@))
}

/// The text of an optional message.
pub open spec fn opt_text(o: Option<String>) -> Option<Seq<char>> {
    match o {
        Some(m) => Some(m@),
        None => None,
    }
}

/// What the `csv` crate's reader (`ReaderBuilder::new()`: comma-separated, the first line a
/// header that is skipped) reads from the bytes of a file: the fields of the records before
/// the first error, and the message of that error if there is one.
pub uninterp spec fn csv_read(bytes: Seq<u8>) -> (Seq<Seq<Seq<char>>>, Option<Seq<char>>);

/// What the `csv` crate's writer (`WriterBuilder::new()`) makes of one record: its bytes,
/// line ending included, or the message of its error.
pub uninterp spec fn csv_line(fields: Seq<Seq<char>>) -> Result<Seq<u8>, Seq<char>>;

/// Reads the records of a CSV file with `csv::ReaderBuilder` and `Reader::records`, up to
/// the first error; each field is taken as a `String` and an error by its message.
#[verifier::external_body]
fn csv_records(bytes: &[u8]) -> (r: (Vec<Vec<String>>, Option<String>))
    ensures
        csv_read(bytes@) == (rows_text(r.0@), opt_text(r.1)),
{
    let mut rdr = ReaderBuilder::new().from_reader(bytes);
    let mut rows: Vec<Vec<String>> = Vec::new();
    for result in rdr.records() {
        match result {
            Ok(rec) => rows.push(rec.iter().map(|f| f.to_string()).collect()),
            Err(e) => return (rows, Some(e.to_string())),
        }
    }
    (rows, None)
}

/// Writes one record with a fresh `csv::WriterBuilder` writer into a `Vec<u8>` and gives
/// the bytes, or the message of the writer's error.
#[verifier::external_body]
fn csv_record_bytes(fields: &[String]) -> (r: Result<Vec<u8>, String>)
    ensures
        match r {
            Ok(b) => csv_line(texts(fields@)) == Ok::<Seq<u8>, Seq<char>>(b@),
            Err(m) => csv_line(texts(fields@)) == Err::<Seq<u8>, Seq<char>>(m@),
        },
{
    let mut wtr = WriterBuilder::new().from_writer(Vec::new());
    if let Err(e) = wtr.write_record(fields) {
        return Err(e.to_string());
    }
    match wtr.into_inner() {
        Ok(b) => Ok(b),
        Err(e) => Err(e.to_string()),
    }
}

/// The employees of a list of records, or the message of the first record that is wrong
/// (see [`record_employee`]).
pub open spec fn records_employees(recs: Seq<Seq<Seq<char>>>) -> Result<Seq<EmployeeView>, Seq<char>>
    decreases recs.len(),
{
    if recs.len() == 0 {
        Ok(Seq::empty())
    } else {
        match records_employees(recs.drop_last()) {
            Err(m) => Err(m),
            Ok(es) => match record_employee(recs.last()) {
                Err(m) => Err(m),
                Ok(e) => Ok(es.push(e)),
            },
        }
    }
}

/// The employees that a CSV file lists, one per record after the header, in order. The
/// records are taken in turn: the first one that is wrong gives its message, and a record
/// that the reader cannot read gives the reader's message once the records before it are
/// read.
pub open spec fn csv_employees(bytes: Seq<u8>) -> Result<Seq<EmployeeView>, Seq<char>> {
    read_employees(csv_read(bytes).0, csv_read(bytes).1)
}

/// The values of a list of employees.
pub open spec fn employee_views(v: Seq<Employee>) -> Seq<EmployeeView> {
    v.map_values(|e: Employee| e@)
}

/// The employees that the records a CSV reader gave describe, in order: the first record
/// that is wrong gives its message; otherwise the reader's message, if it stopped on an
/// error; otherwise the employees.
pub open spec fn read_employees(recs: Seq<Seq<Seq<char>>>, end: Option<Seq<char>>) -> Result<Seq<EmployeeView>, Seq<char>> {
    match records_employees(recs) {
        Err(m) => Err(m),
        Ok(es) => match end {
            Some(m) => Err(m),
            None => Ok(es),
        },
    }
}

/// Turns the records that a CSV reader gave, and the message of the error it stopped on (if
/// any), into employees; see [`read_employees`].
pub fn employees_from_records(rows: &Vec<Vec<String>>, end: Option<String>) -> (r: Result<Vec<Employee>, String>)
    ensures
        match r {
            Ok(v) => read_employees(rows_text(rows@), opt_text(end))
                == Ok::<Seq<EmployeeView>, Seq<char>>(employee_views(v@)),
            Err(m) => read_employees(rows_text(rows@), opt_text(end))
                == Err::<Seq<EmployeeView>, Seq<char>>(m@),
        },
{
    let ghost recs = rows_text(rows@);
    let mut out: Vec<Employee> = Vec::new();
    let mut i: usize = 0;
    proof {
        assert(recs.take(0) =~= Seq::<Seq<Seq<char>>>::empty());
        assert(employee_views(out@) =~= Seq::<EmployeeView>::empty());
    }
    while i < rows.len()
        invariant
            i <= rows.len(),
            recs == rows_text(rows@),
            records_employees(recs.take(i as int)) == Ok::<Seq<EmployeeView>, Seq<char>>(employee_views(out@)),
        decreases rows.len() - i,
    {
        proof {
            assert(recs.take(i as int + 1).drop_last() =~= recs.take(i as int));
            assert(recs.take(i as int + 1).last() == texts(rows@[i as int]@));
        }
        match employee_from_record(rows[i].as_slice()) {
            Ok(e) => {
                let ghost before = out@;
                out.push(e);
                proof {
                    assert(employee_views(out@) =~= employee_views(before).push(e@));
                }
            },
            Err(m) => {
                proof {
                    assert(records_employees(recs.take(i as int + 1)) == Err::<Seq<EmployeeView>, Seq<char>>(m@));
                    lemma_records_error_stays(recs, i as int + 1);
                }
                return Err(m);
            },
        }
        i = i + 1;
    }
    proof {
        assert(recs.take(rows.len() as int) =~= recs);
    }
    match end {
        Some(m) => Err(m),
        None => Ok(out),
    }
}

/// Reads the employees of a CSV file from its bytes; see [`csv_employees`].
pub fn employees_from_csv(bytes: &[u8]) -> (r: Result<Vec<Employee>, String>)
    ensures
        match r {
            Ok(v) => csv_employees(bytes@) == Ok::<Seq<EmployeeView>, Seq<char>>(employee_views(v@)),
            Err(m) => csv_employees(bytes@) == Err::<Seq<EmployeeView>, Seq<char>>(m@),
        },
{
    let (rows, end) = csv_records(bytes);
    employees_from_records(&rows, end)
}

/// A record that is wrong makes every longer list of records give its message.
proof fn lemma_records_error_stays(recs: Seq<Seq<Seq<char>>>, k: int)
    requires
        0 <= k <= recs.len(),
        records_employees(recs.take(k)) is Err,
    ensures
        records_employees(recs) == records_employees(recs.take(k)),
    decreases recs.len() - k,
{
    if k < recs.len() {
        assert(recs.take(k + 1).drop_last() =~= recs.take(k));
        lemma_records_error_stays(recs, k + 1);
    } else {
        assert(recs.take(k) =~= recs);
    }
}

/// The bytes of a list of records written one after another, or the message of the first
/// record that cannot be written.
pub open spec fn csv_joined(recs: Seq<Seq<Seq<char>>>) -> Result<Seq<u8>, Seq<char>>
    decreases recs.len(),
{
    if recs.len() == 0 {
        Ok(Seq::empty())
    } else {
        match csv_joined(recs.drop_last()) {
            Err(m) => Err(m),
            Ok(b) => match csv_line(recs.last()) {
                Err(m) => Err(m),
                Ok(l) => Ok(b + l),
            },
        }
    }
}

/// The records of an employee CSV file: the header, then one record per employee.
pub open spec fn employee_file_records(v: Seq<EmployeeView>) -> Seq<Seq<Seq<char>>> {
    seq![record_header()] + v.map_values(|e: EmployeeView| employee_record(e))
}

/// The bytes of an employee CSV file: the header line, then one line per employee, in order
/// (see [`employee_record`]).
pub fn employees_to_csv(employees: &[Employee]) -> (r: Result<Vec<u8>, String>)
    ensures
        match r {
            Ok(b) => csv_joined(employee_file_records(employee_views(employees@)))
                == Ok::<Seq<u8>, Seq<char>>(b@),
            Err(m) => csv_joined(employee_file_records(employee_views(employees@)))
                == Err::<Seq<u8>, Seq<char>>(m@),
        },
{
    let ghost recs = employee_file_records(employee_views(employees@));
    let header = employee_record_header();
    proof {
        assert(recs[0] == record_header());
        assert(recs.take(1).last() == recs[0]);
        assert(recs.take(1).len() == 1);
        assert(recs.take(1).drop_last() =~= Seq::<Seq<Seq<char>>>::empty());
        assert(csv_joined(Seq::<Seq<Seq<char>>>::empty()) == Ok::<Seq<u8>, Seq<char>>(Seq::empty()));
        assert(texts(header@) == record_header());
    }
    let mut out: Vec<u8> = match csv_record_bytes(header.as_slice()) {
        Ok(b) => b,
        Err(m) => {
            proof {
                assert(recs.take(1).drop_last() =~= Seq::<Seq<Seq<char>>>::empty());
                lemma_joined_error_stays(recs, 1);
            }
            return Err(m);
        },
    };
    proof {
        assert(recs.take(1).drop_last() =~= Seq::<Seq<Seq<char>>>::empty());
        assert(Seq::<u8>::empty() + out@ =~= out@);
    }
    let mut i: usize = 0;
    while i < employees.len()
        invariant
            i <= employees.len(),
            recs == employee_file_records(employee_views(employees@)),
            recs.len() == employees.len() + 1,
            csv_joined(recs.take(i as int + 1)) == Ok::<Seq<u8>, Seq<char>>(out@),
        decreases employees.len() - i,
    {
        let fields = employee_to_record(&employees[i]);
        proof {
            assert(recs.take(i as int + 2).drop_last() =~= recs.take(i as int + 1));
            assert(recs.take(i as int + 2).last() == employee_record(employees@[i as int]@));
        }
        match csv_record_bytes(fields.as_slice()) {
            Ok(b) => {
                let ghost before = out@;
                let mut j: usize = 0;
                while j < b.len()
                    invariant
                        j <= b.len(),
                        out@ == before + b@.take(j as int),
                    decreases b.len() - j,
                {
                    out.push(b[j]);
                    proof {
                        assert(before + b@.take(j as int + 1) =~= (before + b@.take(j as int)).push(b@[j as int]));
                    }
                    j = j + 1;
                }
                proof {
                    assert(b@.take(b.len() as int) =~= b@);
                }
            },
            Err(m) => {
                proof {
                    lemma_joined_error_stays(recs, i as int + 2);
                }
                return Err(m);
            },
        }
        i = i + 1;
    }
    proof {
        assert(recs.take(employees.len() as int + 1) =~= recs);
    }
    Ok(out)
}

/// A record that cannot be written makes every longer list of records give its message.
proof fn lemma_joined_error_stays(recs: Seq<Seq<Seq<char>>>, k: int)
    requires
        0 <= k <= recs.len(),
        csv_joined(recs.take(k)) is Err,
    ensures
        csv_joined(recs) == csv_joined(recs.take(k)),
    decreases recs.len() - k,
{
    if k < recs.len() {
        assert(recs.take(k + 1).drop_last() =~= recs.take(k));
        lemma_joined_error_stays(recs, k + 1);
    } else {
        assert(recs.take(k) =~= recs);
    }
}

} // verus!
