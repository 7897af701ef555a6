use vstd::prelude::*;
use std::collections::HashMap;
use crate::types::Weekday;
use crate::random::shuffle_vec;

verus! {

broadcast use vstd::std_specs::hash::group_hash_axioms;

/// A set of weekdays that can be given to an employee as a block.
#[derive(Debug)]
pub struct DayCombination {
    pub days: Vec<Weekday>,
}

impl Clone for DayCombination {
    fn clone(&self) -> (r: Self)
        ensures
            r.days@ == self.days@,
    {
        let days = self.days.clone();
        assert(days@ =~= self.days@);
        DayCombination { days }
    }
}

/// The day lists of a list of combinations.
pub open spec fn combos_view(v: Seq<DayCombination>) -> Seq<Seq<Weekday>> {
    v.map_values(|c: DayCombination| c.days@)
}

/// The day combinations offered for an employee who needs `n` more office days.
pub open spec fn combination_table(n: int) -> Option<Seq<Seq<Weekday>>> {
    if n == 1 {
        Some(seq![
            seq![Weekday::Monday],
            seq![Weekday::Tuesday],
            seq![Weekday::Wednesday],
            seq![Weekday::Thursday],
            seq![Weekday::Friday],
        ])
    } else if n == 2 {
        Some(seq![
            seq![Weekday::Monday, Weekday::Wednesday],
            seq![Weekday::Monday, Weekday::Thursday],
            seq![Weekday::Monday, Weekday::Friday],
            seq![Weekday::Tuesday, Weekday::Thursday],
            seq![Weekday::Tuesday, Weekday::Friday],
            seq![Weekday::Wednesday, Weekday::Friday],
        ])
    } else if n == 3 {
        Some(seq![seq![Weekday::Monday, Weekday::Wednesday, Weekday::Friday]])
    } else if n == 5 {
        Some(seq![seq![Weekday::Monday, Weekday::Tuesday, Weekday::Wednesday, Weekday::Thursday, Weekday::Friday]])
    } else {
        None
    }
}

/// The combinations of the table for `n` days (none when the table has no entry for `n`).
pub open spec fn table_combos(n: int) -> Seq<Seq<Weekday>> {
    match combination_table(n) {
        Some(c) => c,
        None => Seq::empty(),
    }
}

/// Holds the day combinations for each number of office days.
pub struct ScheduleGenerator {
    pub combinations: HashMap<i32, Vec<DayCombination>>,
}

fn combo(days: Vec<Weekday>) -> (r: DayCombination)
    ensures
        r.days == days,
{
    DayCombination { days }
}

fn one_day(a: Weekday) -> (r: DayCombination)
    ensures
        r.days@ == seq![a],
{
    let mut v: Vec<Weekday> = Vec::new();
    v.push(a);
    assert(v@ =~= seq![a]);
    combo(v)
}

fn two_days(a: Weekday, b: Weekday) -> (r: DayCombination)
    ensures
        r.days@ == seq![a, b],
{
    let mut v: Vec<Weekday> = Vec::new();
    v.push(a);
    v.push(b);
    assert(v@ =~= seq![a, b]);
    combo(v)
}

impl ScheduleGenerator {
    /// The generator holds exactly the table of combinations.
    pub open spec fn holds_table(&self) -> bool {
        forall|n: i32| {
            &&& #[trigger] self.combinations@.contains_key(n) <==> combination_table(n as int) is Some
            &&& self.combinations@.contains_key(n) ==> combos_view(self.combinations@[n]@)
                == combination_table(n as int)->0
        }
    }

    /// A generator with the combinations for 1, 2, 3 and 5 days.
    pub fn new() -> (r: Self)
        ensures
            r.holds_table(),
    {
        let mut generator = ScheduleGenerator { combinations: HashMap::new() };
        generator.initialize_combinations();
        generator
    }

    pub fn initialize_combinations(&mut self)
        requires
            old(self).combinations@ == Map::<i32, Vec<DayCombination>>::empty(),
        ensures
            final(self).holds_table(),
    {
        let mut one: Vec<DayCombination> = Vec::new();
        one.push(one_day(Weekday::Monday));
        one.push(one_day(Weekday::Tuesday));
        one.push(one_day(Weekday::Wednesday));
        one.push(one_day(Weekday::Thursday));
        one.push(one_day(Weekday::Friday));
        assert(combos_view(one@) =~= combination_table(1)->0);
        self.combinations.insert(1, one);
        let mut two: Vec<DayCombination> = Vec::new();
        two.push(two_days(Weekday::Monday, Weekday::Wednesday));
        two.push(two_days(Weekday::Monday, Weekday::Thursday));
        two.push(two_days(Weekday::Monday, Weekday::Friday));
        two.push(two_days(Weekday::Tuesday, Weekday::Thursday));
        two.push(two_days(Weekday::Tuesday, Weekday::Friday));
        two.push(two_days(Weekday::Wednesday, Weekday::Friday));
        assert(combos_view(two@) =~= combination_table(2)->0);
        self.combinations.insert(2, two);
        let mut days3: Vec<Weekday> = Vec::new();
        days3.push(Weekday::Monday);
        days3.push(Weekday::Wednesday);
        days3.push(Weekday::Friday);
        assert(days3@ =~= seq![Weekday::Monday, Weekday::Wednesday, Weekday::Friday]);
        let mut three: Vec<DayCombination> = Vec::new();
        three.push(combo(days3));
        assert(combos_view(three@) =~= combination_table(3)->0);
        self.combinations.insert(3, three);
        let mut days5: Vec<Weekday> = Vec::new();
        days5.push(Weekday::Monday);
        days5.push(Weekday::Tuesday);
        days5.push(Weekday::Wednesday);
        days5.push(Weekday::Thursday);
        days5.push(Weekday::Friday);
        assert(days5@ =~= seq![Weekday::Monday, Weekday::Tuesday, Weekday::Wednesday, Weekday::Thursday, Weekday::Friday]);
        let mut five: Vec<DayCombination> = Vec::new();
        five.push(combo(days5));
        assert(combos_view(five@) =~= combination_table(5)->0);
        self.combinations.insert(5, five);
        assert forall|n: i32| {
            &&& #[trigger] self.combinations@.contains_key(n) <==> combination_table(n as int) is Some
            &&& self.combinations@.contains_key(n) ==> combos_view(self.combinations@[n]@)
                == combination_table(n as int)->0
        } by {}
    }

    /// The combinations for `days` office days, if the generator has any.
    pub fn get_combinations(&self, days: i32) -> (r: Option<&Vec<DayCombination>>)
        ensures
            match r {
                Some(v) => self.combinations@.contains_key(days) && *v == self.combinations@[days],
                None => !self.combinations@.contains_key(days),
            },
    {
        self.combinations.get(&days)
    }
}

/// A copy of the combinations in a random order: the same day lists, each as often as before.
pub fn shuffle_combinations(combos: &[DayCombination]) -> (r: Vec<DayCombination>)
    ensures
        r@.len() == combos@.len(),
        combos_view(r@).to_multiset() == combos_view(combos@).to_multiset(),
{
    let mut shuffled: Vec<DayCombination> = Vec::new();
    let mut i: usize = 0;
    while i < combos.len()
        invariant
            i <= combos@.len(),
            shuffled@.len() == i,
            combos_view(shuffled@) == combos_view(combos@).take(i as int),
        decreases combos.len() - i,
    {
        let c = combos[i].clone();
        shuffled.push(c);
        proof {
            assert(combos_view(shuffled@)[i as int] == combos_view(combos@)[i as int]);
            assert(combos_view(shuffled@) =~= combos_view(combos@).take(i as int + 1));
        }
        i = i + 1;
    }
    proof {
        assert(combos_view(combos@).take(combos@.len() as int) =~= combos_view(combos@));
    }
    let ghost before = shuffled@;
    shuffle_vec(&mut shuffled);
    proof {
        lemma_map_multiset(before, shuffled@, |c: DayCombination| c.days@);
        assert(combos_view(before) == before.map_values(|c: DayCombination| c.days@));
    }
    shuffled
}

/// Two lists with the same items, each as often, keep that property under any map.
pub proof fn lemma_map_multiset<A, B>(a: Seq<A>, b: Seq<A>, f: spec_fn(A) -> B)
    requires
        a.to_multiset() == b.to_multiset(),
    ensures
        a.map_values(f).to_multiset() == b.map_values(f).to_multiset(),
    decreases a.len(),
{
    broadcast use vstd::seq_lib::group_to_multiset_ensures;
    if a.len() == 0 {
        assert(b.to_multiset().len() == 0);
        assert(b.len() == 0);
        assert(a.map_values(f) =~= b.map_values(f));
    } else {
        let x = a.last();
        assert(a.to_multiset().count(x) > 0);
        assert(b.contains(x));
        let j = choose|j: int| 0 <= j < b.len() && b[j] == x;
        let a2 = a.drop_last();
        let b2 = b.remove(j);
        assert(a2.to_multiset() =~= a.to_multiset().remove(x)) by {
            assert(a == a2.push(x));
        }
        lemma_map_multiset(a2, b2, f);
        assert(a.map_values(f) =~= a2.map_values(f).push(f(x)));
        assert(b2.map_values(f) =~= b.map_values(f).remove(j));
        assert(b.map_values(f)[j] == f(x));
        assert(b.map_values(f).to_multiset() =~= b2.map_values(f).to_multiset().insert(f(x))) by {
            assert(b.map_values(f).remove(j).to_multiset() =~= b.map_values(f).to_multiset().remove(f(x)));
        }
    }
}

/// The days of `c` come in strictly increasing weekday order (so none is repeated).
pub open spec fn strictly_increasing(c: Seq<Weekday>) -> bool {
    forall|i: int, j: int| 0 <= i < j < c.len() ==> (#[trigger] c[i]).spec_index() < (#[trigger] c[j]).spec_index()
}

/// The combinations of a table all have `n` days, in strictly increasing order, and no two
/// are the same.
pub open spec fn table_well_formed(t: Seq<Seq<Weekday>>, n: int) -> bool {
    &&& forall|j: int| 0 <= j < t.len() ==> (#[trigger] t[j]).len() == n && strictly_increasing(t[j])
    &&& forall|i: int, j: int| 0 <= i < j < t.len() ==> #[trigger] t[i] != #[trigger] t[j]
}

proof fn lemma_two_increasing(a: Weekday, b: Weekday)
    requires
        a.spec_index() < b.spec_index(),
    ensures
        strictly_increasing(seq![a, b]),
{
}

/// The table of day combinations has entries for 1, 2, 3 and 5 days and no others; each
/// combination has that many days, listed in strictly increasing weekday order, and the
/// combinations of an entry are all different.
pub proof fn law_combination_table(n: int)
    ensures
        combination_table(n) is Some <==> (n == 1 || n == 2 || n == 3 || n == 5),
        table_well_formed(table_combos(n), n),
{
    let t = table_combos(n);
    if n == 1 {
        assert forall|j: int| 0 <= j < t.len() implies (#[trigger] t[j]).len() == n && strictly_increasing(t[j]) by {
            assert(t[j].len() == 1);
        }
        assert forall|i: int, j: int| 0 <= i < j < t.len() implies #[trigger] t[i] != #[trigger] t[j] by {
            assert(t[i][0].spec_index() == i);
            assert(t[j][0].spec_index() == j);
        }
    } else if n == 2 {
        let first = seq![0int, 0, 0, 1, 1, 2];
        let second = seq![2int, 3, 4, 3, 4, 4];
        assert forall|j: int| 0 <= j < t.len() implies (#[trigger] t[j]).len() == n && strictly_increasing(t[j])
            && t[j][0].spec_index() == first[j] && t[j][1].spec_index() == second[j] by {
            if j == 0 {
                lemma_two_increasing(Weekday::Monday, Weekday::Wednesday);
            } else if j == 1 {
                lemma_two_increasing(Weekday::Monday, Weekday::Thursday);
            } else if j == 2 {
                lemma_two_increasing(Weekday::Monday, Weekday::Friday);
            } else if j == 3 {
                lemma_two_increasing(Weekday::Tuesday, Weekday::Thursday);
            } else if j == 4 {
                lemma_two_increasing(Weekday::Tuesday, Weekday::Friday);
            } else {
                lemma_two_increasing(Weekday::Wednesday, Weekday::Friday);
            }
        }
        assert forall|i: int, j: int| 0 <= i < j < t.len() implies #[trigger] t[i] != #[trigger] t[j] by {
            assert(t[i][0].spec_index() == first[i] && t[i][1].spec_index() == second[i]);
            assert(t[j][0].spec_index() == first[j] && t[j][1].spec_index() == second[j]);
        }
    } else if n == 3 {
        let c = t[0];
        assert(c =~= seq![Weekday::Monday, Weekday::Wednesday, Weekday::Friday]);
        assert forall|i: int, j: int| 0 <= i < j < c.len() implies (#[trigger] c[i]).spec_index() < (#[trigger] c[j]).spec_index() by {}
    } else if n == 5 {
        let c = t[0];
        assert(c =~= seq![Weekday::Monday, Weekday::Tuesday, Weekday::Wednesday, Weekday::Thursday, Weekday::Friday]);
        assert forall|i: int, j: int| 0 <= i < j < c.len() implies (#[trigger] c[i]).spec_index() < (#[trigger] c[j]).spec_index() by {
            assert(c[i].spec_index() == i);
            assert(c[j].spec_index() == j);
        }
    }
}

} // verus!
