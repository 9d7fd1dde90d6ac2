//! Collections addressed by name: a set of names and a table of named values.
//! Both remember the order in which names came.

use vstd::prelude::*;
use crate::text;

verus! {

broadcast use vstd::string::group_string_axioms;

/// Where a name stands in a list; the length of the list when it does not.
pub open spec fn place(names: Seq<Seq<char>>, name: Seq<char>) -> int
    decreases names.len(),
{
    if names.len() == 0 {
        0
    } else if names[0] == name {
        0
    } else {
        1 + place(names.drop_first(), name)
    }
}

pub proof fn place_is_first(names: Seq<Seq<char>>, name: Seq<char>)
    ensures
        0 <= place(names, name) <= names.len(),
        place(names, name) < names.len() ==> names[place(names, name)] == name,
        forall|i: int| 0 <= i < place(names, name) ==> #[trigger] names[i] != name,
        place(names, name) < names.len() <==> names.contains(name),
    decreases names.len(),
{
    if names.len() > 0 && names[0] != name {
        let rest = names.drop_first();
        place_is_first(rest, name);
        assert forall|i: int| 0 <= i < place(names, name) implies #[trigger] names[i] != name by {
            if i > 0 {
                assert(names[i] == rest[i - 1]);
            }
        }
        if names.contains(name) {
            let i = choose|i: int| 0 <= i < names.len() && names[i] == name;
            assert(rest[i - 1] == name);
            assert(rest.contains(name));
        }
        if rest.contains(name) {
            let i = choose|i: int| 0 <= i < rest.len() && rest[i] == name;
            assert(names[i + 1] == name);
        }
    }
}

/// Finds a name in a list.
fn find(names: &Vec<String>, name: &str) -> (at: usize)
    ensures
        at == place(text::texts(names@), name@),
        at <= names.len(),
        at < names.len() <==> text::texts(names@).contains(name@),
{
    let ghost all = text::texts(names@);
    let mut at: usize = 0;
    assert(all.skip(0) =~= all);
    proof {
        place_is_first(all, name@);
    }
    while at < names.len()
        invariant
            at <= names.len(),
            all == text::texts(names@),
            at + place(all.skip(at as int), name@) == place(all, name@),
            place(all, name@) < all.len() <==> all.contains(name@),
        decreases names.len() - at,
    {
        assert(all.skip(at as int)[0] == names@[at as int]@);
        if text::same(&names[at], name) {
            return at;
        }
        assert(all.skip(at as int).drop_first() =~= all.skip(at + 1));
        at += 1;
    }
    at
}

// -- A set of names --

/// A set of names.
pub struct Names {
    names: Vec<String>,
}

impl View for Names {
    type V = Set<Seq<char>>;

    closed spec fn view(&self) -> Set<Seq<char>> {
        self.listed().to_set()
    }
}

impl Names {
    /// The names in the order in which they came, each once.
    pub closed spec fn listed(&self) -> Seq<Seq<char>> {
        text::texts(self.names@)
    }

    #[verifier::type_invariant]
    closed spec fn each_once(self) -> bool {
        text::texts(self.names@).no_duplicates()
    }

    pub fn new() -> (names: Names)
        ensures
            names@ == Set::<Seq<char>>::empty(),
            names.listed() == Seq::<Seq<char>>::empty(),
    {
        let names: Names = Names { names: Vec::new() };
        assert(names.listed() =~= Seq::empty());
        assert(names@ =~= Set::empty());
        names
    }

    /// The list names what the set holds.
    pub proof fn listed_is_the_set(&self)
        ensures
            self@ == self.listed().to_set(),
            forall|name: Seq<char>| #[trigger] self@.contains(name) <==> self.listed().contains(name),
    {
    }

    pub fn contains(&self, name: &str) -> (yes: bool)
        ensures
            yes == self@.contains(name@),
    {
        find(&self.names, name) < self.names.len()
    }

    pub fn len(&self) -> (count: usize)
        ensures
            count == self.listed().len(),
            count == self@.len(),
            self@.finite(),
    {
        proof {
            use_type_invariant(&*self);
            self.listed().unique_seq_to_set();
        }
        self.names.len()
    }

    pub fn is_empty(&self) -> (yes: bool)
        ensures
            yes == (self@ == Set::<Seq<char>>::empty()),
            yes == (self.listed().len() == 0),
    {
        proof {
            if self.listed().len() > 0 {
                assert(self.listed().contains(self.listed()[0]));
                assert(self@.contains(self.listed()[0]));
            } else {
                assert(self@ =~= Set::empty());
            }
        }
        self.names.len() == 0
    }

    /// The name at a place in the list.
    pub fn at(&self, place: usize) -> (name: &String)
        requires
            place < self.listed().len(),
        ensures
            name@ == self.listed()[place as int],
    {
        &self.names[place]
    }

    /// Adds a name; says whether it is new.
    pub fn insert(&mut self, name: String) -> (fresh: bool)
        ensures
            fresh == !old(self)@.contains(name@),
            final(self)@ == old(self)@.insert(name@),
            final(self).listed() == if fresh { old(self).listed().push(name@) } else { old(self).listed() },
    {
        proof {
            use_type_invariant(&*self);
        }
        let ghost before = self.listed();
        if find(&self.names, &name) < self.names.len() {
            assert(self@ =~= before.to_set().insert(name@));
            return false;
        }
        let mut names: Vec<String> = Vec::new();
        std::mem::swap(&mut names, &mut self.names);
        let ghost added = name@;
        names.push(name);
        assert(text::texts(names@) =~= before.push(added));
        proof {
            assert forall|i: int, j: int| 0 <= i < j < names@.len() implies text::texts(names@)[i] != text::texts(names@)[j] by {
                if j == before.len() {
                    assert(before.contains(before[i]));
                }
            }
        }
        self.names = names;
        proof {
            assert(self.listed() =~= before.push(added));
            assert forall|n: Seq<char>| self@.contains(n) <==> before.to_set().insert(added).contains(n) by {
                let after = before.push(added);
                if after.contains(n) {
                    let i = choose|i: int| 0 <= i < after.len() && after[i] == n;
                    if i < before.len() {
                        assert(before[i] == n);
                    }
                }
                if before.contains(n) {
                    let i = choose|i: int| 0 <= i < before.len() && before[i] == n;
                    assert(after[i] == n);
                }
                assert(after[before.len() as int] == added);
            }
            assert(self@ =~= before.to_set().insert(added));
        }
        true
    }

    /// Takes a name out; says whether it was there.
    pub fn remove(&mut self, name: &str) -> (there: bool)
        ensures
            there == old(self)@.contains(name@),
            final(self)@ == old(self)@.remove(name@),
            final(self).listed() == if there {
                old(self).listed().remove(place(old(self).listed(), name@))
            } else {
                old(self).listed()
            },
    {
        proof {
            use_type_invariant(&*self);
        }
        let ghost before = self.listed();
        let at: usize = find(&self.names, name);
        if at == self.names.len() {
            assert(self@ =~= before.to_set().remove(name@));
            return false;
        }
        proof {
            place_is_first(before, name@);
        }
        let mut names: Vec<String> = Vec::new();
        std::mem::swap(&mut names, &mut self.names);
        names.remove(at);
        let ghost after = before.remove(at as int);
        assert(text::texts(names@) =~= after);
        proof {
            assert forall|i: int, j: int| 0 <= i < j < after.len() implies after[i] != after[j] by {
                let a = if i < at { i } else { i + 1 };
                let b = if j < at { j } else { j + 1 };
                assert(after[i] == before[a] && after[j] == before[b]);
            }
        }
        self.names = names;
        proof {
            assert(self.listed() =~= after);
            assert forall|n: Seq<char>| self@.contains(n) <==> before.to_set().remove(name@).contains(n) by {
                if after.contains(n) {
                    let i = choose|i: int| 0 <= i < after.len() && after[i] == n;
                    let a = if i < at { i } else { i + 1 };
                    assert(before[a] == n);
                }
                if before.contains(n) && n != name@ {
                    let i = choose|i: int| 0 <= i < before.len() && before[i] == n;
                    let a = if i < at { i } else { i - 1 };
                    assert(after[a] == n);
                }
            }
            assert(self@ =~= before.to_set().remove(name@));
        }
        true
    }

    pub fn clear(&mut self)
        ensures
            final(self)@ == Set::<Seq<char>>::empty(),
            final(self).listed() == Seq::<Seq<char>>::empty(),
    {
        *self = Names::new();
    }
}

impl Default for Names {
    fn default() -> (names: Names)
        ensures
            names@ == Set::<Seq<char>>::empty(),
            names.listed() == Seq::<Seq<char>>::empty(),
    {
        Names::new()
    }
}


// -- A table of named values --

/// A table of values, each under its own name.
#[verifier::reject_recursive_types(V)]
pub struct Keyed<V> {
    names: Vec<String>,
    values: Vec<V>,
}

impl<V> View for Keyed<V> {
    type V = Map<Seq<char>, V>;

    closed spec fn view(&self) -> Map<Seq<char>, V> {
        named_values(self.listed(), self.values@)
    }
}

/// The table two lists of the same length make: names, and what they name.
pub open spec fn named_values<V>(names: Seq<Seq<char>>, values: Seq<V>) -> Map<Seq<char>, V> {
    Map::new(|name: Seq<char>| names.contains(name), |name: Seq<char>| values[place(names, name)])
}

impl<V> Keyed<V> {
    /// The names in the order in which they came, each once.
    pub closed spec fn listed(&self) -> Seq<Seq<char>> {
        text::texts(self.names@)
    }

    #[verifier::type_invariant]
    closed spec fn each_once(self) -> bool {
        &&& text::texts(self.names@).no_duplicates()
        &&& self.names@.len() == self.values@.len()
    }

    pub fn new() -> (table: Keyed<V>)
        ensures
            table@ == Map::<Seq<char>, V>::empty(),
            table.listed() == Seq::<Seq<char>>::empty(),
    {
        let table: Keyed<V> = Keyed { names: Vec::new(), values: Vec::new() };
        assert(table.listed() =~= Seq::empty());
        assert(table@ =~= Map::empty());
        table
    }

    /// The list names what the table holds.
    pub proof fn listed_is_the_domain(&self)
        ensures
            self@.dom() == self.listed().to_set(),
            forall|name: Seq<char>| #[trigger] self@.contains_key(name) <==> self.listed().contains(name),
            self@.dom().finite(),
            self@.dom().len() <= self.listed().len(),
    {
        assert(self@.dom() =~= self.listed().to_set());
        vstd::seq_lib::seq_to_set_is_finite(self.listed());
        self.listed().lemma_cardinality_of_set();
    }

    pub fn contains_key(&self, name: &str) -> (yes: bool)
        ensures
            yes == self@.contains_key(name@),
    {
        find(&self.names, name) < self.names.len()
    }

    pub fn len(&self) -> (count: usize)
        ensures
            count == self.listed().len(),
            count == self@.dom().len(),
            self@.dom().finite(),
            self.listed().no_duplicates(),
    {
        proof {
            use_type_invariant(&*self);
            self.listed().unique_seq_to_set();
            self.listed_is_the_domain();
        }
        self.names.len()
    }

    pub fn is_empty(&self) -> (yes: bool)
        ensures
            yes == (self@ == Map::<Seq<char>, V>::empty()),
            yes == (self.listed().len() == 0),
    {
        proof {
            if self.listed().len() > 0 {
                assert(self.listed().contains(self.listed()[0]));
                assert(self@.contains_key(self.listed()[0]));
            } else {
                assert(self@ =~= Map::empty());
            }
        }
        self.names.len() == 0
    }

    pub fn get(&self, name: &str) -> (value: Option<&V>)
        ensures
            match value {
                Some(v) => self@.contains_key(name@) && *v == self@[name@],
                None => !self@.contains_key(name@),
            },
    {
        proof {
            use_type_invariant(&*self);
        }
        let at: usize = find(&self.names, name);
        if at < self.names.len() {
            Some(&self.values[at])
        } else {
            None
        }
    }

    /// The name at a place in the list.
    pub fn name_at(&self, at: usize) -> (name: &String)
        requires
            at < self.listed().len(),
        ensures
            name@ == self.listed()[at as int],
            self@.contains_key(name@),
    {
        assert(self.listed().contains(self.listed()[at as int]));
        &self.names[at]
    }

    /// The value at a place in the list.
    pub fn value_at(&self, at: usize) -> (value: &V)
        requires
            at < self.listed().len(),
        ensures
            self@.contains_key(self.listed()[at as int]),
            *value == self@[self.listed()[at as int]],
    {
        proof {
            use_type_invariant(&*self);
            place_is_first(self.listed(), self.listed()[at as int]);
            assert(self.listed().contains(self.listed()[at as int]));
        }
        &self.values[at]
    }

    /// Puts a value under a name, in place of what was there.
    pub fn insert(&mut self, name: String, value: V)
        ensures
            final(self)@ == old(self)@.insert(name@, value),
            final(self).listed() == if old(self)@.contains_key(name@) {
                old(self).listed()
            } else {
                old(self).listed().push(name@)
            },
    {
        proof {
            use_type_invariant(&*self);
        }
        let ghost before = self.listed();
        let ghost held = self.values@;
        let at: usize = find(&self.names, &name);
        let ghost added = name@;
        let ghost given = value;
        proof {
            place_is_first(before, added);
        }
        let mut table: Keyed<V> = Keyed { names: Vec::new(), values: Vec::new() };
        std::mem::swap(&mut table, self);
        let Keyed { names: mut names, values: mut values } = table;
        if at < names.len() {
            values.set(at, value);
            assert(names@.len() == values@.len());
            assert(named_values(before, values@) =~= named_values(before, held).insert(added, given)) by {
                assert forall|n: Seq<char>| before.contains(n) implies #[trigger] values@[place(before, n)] == if n == added {
                    given
                } else {
                    held[place(before, n)]
                } by {
                    place_is_first(before, n);
                }
            }
        } else {
            names.push(name);
            values.push(value);
            let ghost after = before.push(added);
            assert(text::texts(names@) =~= after);
            proof {
                assert forall|i: int, j: int| 0 <= i < j < after.len() implies after[i] != after[j] by {
                    if j == before.len() {
                        assert(before.contains(before[i]));
                    }
                }
                assert forall|n: Seq<char>| after.contains(n) <==> (n == added || before.contains(n)) by {
                    if after.contains(n) {
                        let i = choose|i: int| 0 <= i < after.len() && after[i] == n;
                        if i < before.len() {
                            assert(before[i] == n);
                        }
                    }
                    if before.contains(n) {
                        let i = choose|i: int| 0 <= i < before.len() && before[i] == n;
                        assert(after[i] == n);
                    }
                    assert(after[before.len() as int] == added);
                }
                assert forall|n: Seq<char>| after.contains(n) implies #[trigger] values@[place(after, n)] == if n == added {
                    given
                } else {
                    held[place(before, n)]
                } by {
                    place_is_first(after, n);
                    place_is_first(before, n);
                    let p = place(after, n);
                    let q = place(before, n);
                    if n == added {
                        assert(after[p] == added);
                        if p < before.len() {
                            assert(before.contains(before[p]));
                        }
                    } else {
                        assert(after[q] == n);
                        assert(after[p] == n);
                        if p < q {
                            assert(before[p] == n);
                        }
                    }
                }
                assert(named_values(after, values@) =~= named_values(before, held).insert(added, given));
            }
        }
        *self = Keyed { names, values };
    }

    /// Takes a value out by its name.
    pub fn remove(&mut self, name: &str) -> (value: Option<V>)
        ensures
            final(self)@ == old(self)@.remove(name@),
            value == if old(self)@.contains_key(name@) { Some(old(self)@[name@]) } else { None },
            final(self).listed() == if old(self)@.contains_key(name@) {
                old(self).listed().remove(place(old(self).listed(), name@))
            } else {
                old(self).listed()
            },
    {
        proof {
            use_type_invariant(&*self);
        }
        let ghost before = self.listed();
        let ghost held = self.values@;
        let at: usize = find(&self.names, name);
        proof {
            place_is_first(before, name@);
        }
        if at == self.names.len() {
            assert(self@ =~= old(self)@.remove(name@));
            return None;
        }
        let mut table: Keyed<V> = Keyed { names: Vec::new(), values: Vec::new() };
        std::mem::swap(&mut table, self);
        let Keyed { names: mut names, values: mut values } = table;
        names.remove(at);
        let value: V = values.remove(at);
        let ghost after = before.remove(at as int);
        assert(text::texts(names@) =~= after);
        proof {
            assert forall|i: int, j: int| 0 <= i < j < after.len() implies after[i] != after[j] by {
                let a = if i < at { i } else { i + 1 };
                let b = if j < at { j } else { j + 1 };
                assert(after[i] == before[a] && after[j] == before[b]);
            }
            assert forall|n: Seq<char>| after.contains(n) <==> (n != name@ && before.contains(n)) by {
                if after.contains(n) {
                    let i = choose|i: int| 0 <= i < after.len() && after[i] == n;
                    let a = if i < at { i } else { i + 1 };
                    assert(before[a] == n);
                }
                if before.contains(n) && n != name@ {
                    let i = choose|i: int| 0 <= i < before.len() && before[i] == n;
                    let a = if i < at { i } else { i - 1 };
                    assert(after[a] == n);
                }
            }
            assert forall|n: Seq<char>| after.contains(n) implies #[trigger] values@[place(after, n)] == held[place(before, n)] by {
                place_is_first(after, n);
                place_is_first(before, n);
                let p = place(after, n);
                let a = if p < at { p } else { p + 1 };
                assert(before[a] == n);
                assert(before[place(before, n)] == n);
            }
            assert(named_values(after, values@) =~= named_values(before, held).remove(name@));
        }
        *self = Keyed { names, values };
        Some(value)
    }

    pub fn clear(&mut self)
        ensures
            final(self)@ == Map::<Seq<char>, V>::empty(),
            final(self).listed() == Seq::<Seq<char>>::empty(),
    {
        *self = Keyed::new();
    }
}

impl<V> Default for Keyed<V> {
    fn default() -> (table: Keyed<V>)
        ensures
            table@ == Map::<Seq<char>, V>::empty(),
            table.listed() == Seq::<Seq<char>>::empty(),
    {
        Keyed::new()
    }
}

} // verus!
