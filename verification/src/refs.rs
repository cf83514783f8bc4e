//! Named references: mutable pointers from a name to an identifier.

use vstd::prelude::*;

use crate::object_id::ObjectId;
use crate::text::str_eq;

verus! {

/// One reference: a name and the identifier it points at.
#[derive(Debug)]
pub struct Reference {
    pub name: String,
    pub target: ObjectId,
}

/// Whether no two entries have the same name.
pub open spec fn distinct_names(entries: Seq<Reference>) -> bool {
    forall|i: int, j: int|
        0 <= i < j < entries.len() ==> (#[trigger] entries[i]).name@ != (#[trigger] entries[j]).name@
}

/// Whether some entry is named `name`.
pub open spec fn has_name(entries: Seq<Reference>, name: Seq<char>) -> bool {
    exists|i: int| 0 <= i < entries.len() && (#[trigger] entries[i]).name@ == name
}

/// The mapping from names to targets that `entries` stands for.
pub open spec fn table_of(entries: Seq<Reference>) -> Map<Seq<char>, ObjectId> {
    Map::new(
        |name: Seq<char>| has_name(entries, name),
        |name: Seq<char>|
            entries[choose|i: int| 0 <= i < entries.len() && (#[trigger] entries[i]).name@ == name].target,
    )
}

/// With distinct names, each entry is what the table holds under its name.
pub proof fn lemma_table_entry(entries: Seq<Reference>, i: int)
    requires
        distinct_names(entries),
        0 <= i < entries.len(),
    ensures
        table_of(entries).contains_key(entries[i].name@),
        table_of(entries)[entries[i].name@] == entries[i].target,
{
    let name = entries[i].name@;
    let j = choose|j: int| 0 <= j < entries.len() && (#[trigger] entries[j]).name@ == name;
    assert(i == j);
}

/// Two lists that agree entry by entry in name and target stand for the same
/// table, and the names of one are distinct if those of the other are.
pub proof fn lemma_same_entries(entries: Seq<Reference>, copy: Seq<Reference>)
    requires
        distinct_names(entries),
        copy.len() == entries.len(),
        forall|k: int|
            0 <= k < entries.len() ==> (#[trigger] copy[k]).name@ == entries[k].name@
                && copy[k].target == entries[k].target,
    ensures
        distinct_names(copy),
        table_of(copy) == table_of(entries),
{
    assert forall|i: int, j: int| 0 <= i < j < copy.len() implies (#[trigger] copy[i]).name@ != (
    #[trigger] copy[j]).name@ by {
        assert(entries[i].name@ != entries[j].name@);
    }
    assert forall|name: Seq<char>| has_name(copy, name) == has_name(entries, name) by {
        if has_name(copy, name) {
            let j = choose|j: int| 0 <= j < copy.len() && (#[trigger] copy[j]).name@ == name;
            assert(entries[j].name@ == name);
        }
        if has_name(entries, name) {
            let j = choose|j: int| 0 <= j < entries.len() && (#[trigger] entries[j]).name@ == name;
            assert(copy[j].name@ == name);
        }
    }
    assert forall|name: Seq<char>| has_name(copy, name) implies table_of(copy)[name] == table_of(
        entries,
    )[name] by {
        let j = choose|j: int| 0 <= j < copy.len() && (#[trigger] copy[j]).name@ == name;
        lemma_table_entry(copy, j);
        assert(entries[j].name@ == name);
        lemma_table_entry(entries, j);
    }
    assert(table_of(copy) =~= table_of(entries));
}

/// A table of references, at most one per name.
pub struct RefTable {
    entries: Vec<Reference>,
}

impl View for RefTable {
    type V = Map<Seq<char>, ObjectId>;

    closed spec fn view(&self) -> Map<Seq<char>, ObjectId> {
        table_of(self.entries@)
    }
}

impl RefTable {
    #[verifier::type_invariant]
    spec fn inv(self) -> bool {
        distinct_names(self.entries@)
    }

    /// An empty table.
    pub fn new() -> (table: Self)
        ensures
            table@ == Map::<Seq<char>, ObjectId>::empty(),
    {
        let table = RefTable { entries: Vec::new() };
        assert(table@ =~= Map::<Seq<char>, ObjectId>::empty());
        table
    }

    /// The position of the entry named `name`, if there is one.
    fn find(&self, name: &str) -> (r: Option<usize>)
        ensures
            match r {
                Some(i) => i < self.entries@.len() && self.entries@[i as int].name@ == name@,
                None => !has_name(self.entries@, name@),
            },
    {
        let mut i: usize = 0;
        while i < self.entries.len()
            invariant
                i <= self.entries@.len(),
                forall|k: int| 0 <= k < i ==> (#[trigger] self.entries@[k]).name@ != name@,
            decreases self.entries@.len() - i,
        {
            if str_eq(self.entries[i].name.as_str(), name) {
                return Some(i);
            }
            i += 1;
        }
        None
    }

    /// The identifier that the reference `name` points at, if it exists.
    pub fn resolve(&self, name: &str) -> (r: Option<ObjectId>)
        ensures
            r == if self@.contains_key(name@) {
                Some(self@[name@])
            } else {
                None
            },
    {
        proof {
            use_type_invariant(self);
        }
        match self.find(name) {
            Some(i) => {
                proof {
                    lemma_table_entry(self.entries@, i as int);
                }
                Some(self.entries[i].target)
            },
            None => None,
        }
    }

    /// All references, each name once.
    pub fn list(&self) -> (list: Vec<Reference>)
        ensures
            distinct_names(list@),
            table_of(list@) == self@,
    {
        proof {
            use_type_invariant(self);
        }
        let mut list: Vec<Reference> = Vec::new();
        let mut i: usize = 0;
        while i < self.entries.len()
            invariant
                i <= self.entries@.len(),
                list@.len() == i,
                forall|k: int|
                    0 <= k < i ==> (#[trigger] list@[k]).name@ == self.entries@[k].name@
                        && list@[k].target == self.entries@[k].target,
            decreases self.entries@.len() - i,
        {
            list.push(
                Reference { name: self.entries[i].name.clone(), target: self.entries[i].target },
            );
            i += 1;
        }
        proof {
            lemma_same_entries(self.entries@, list@);
        }
        list
    }

    /// Point the reference `name` at `target`, creating it if need be.
    pub fn set(&mut self, name: &str, target: ObjectId)
        ensures
            final(self)@ == old(self)@.insert(name@, target),
    {
        proof {
            use_type_invariant(&*self);
        }
        let found = self.find(name);
        let ghost before = self.entries@;
        let mut entries: Vec<Reference> = Vec::new();
        core::mem::swap(&mut self.entries, &mut entries);
        match found {
            Some(i) => {
                entries[i].target = target;
                proof {
                    let after = entries@;
                    assert(distinct_names(after)) by {
                        assert forall|a: int, b: int| 0 <= a < b < after.len() implies (
                        #[trigger] after[a]).name@ != (#[trigger] after[b]).name@ by {
                            assert(after[a].name@ == before[a].name@);
                            assert(after[b].name@ == before[b].name@);
                        }
                    }
                    assert forall|m: Seq<char>| has_name(after, m) == has_name(before, m) by {
                        if has_name(after, m) {
                            let j = choose|j: int|
                                0 <= j < after.len() && (#[trigger] after[j]).name@ == m;
                            assert(before[j].name@ == m);
                        }
                        if has_name(before, m) {
                            let j = choose|j: int|
                                0 <= j < before.len() && (#[trigger] before[j]).name@ == m;
                            assert(after[j].name@ == m);
                        }
                    }
                    assert forall|m: Seq<char>| has_name(after, m) implies table_of(after)[m]
                        == table_of(before).insert(name@, target)[m] by {
                        let j = choose|j: int|
                            0 <= j < after.len() && (#[trigger] after[j]).name@ == m;
                        lemma_table_entry(after, j);
                        assert(before[j].name@ == m);
                        lemma_table_entry(before, j);
                    }
                    assert(before[i as int].name@ == name@);
                    assert(has_name(before, name@));
                    assert(table_of(after) =~= table_of(before).insert(name@, target));
                }
            },
            None => {
                entries.push(Reference { name: name.to_owned(), target });
                proof {
                    let after = entries@;
                    let last = before.len() as int;
                    assert(distinct_names(after)) by {
                        assert forall|a: int, b: int| 0 <= a < b < after.len() implies (
                        #[trigger] after[a]).name@ != (#[trigger] after[b]).name@ by {
                            if b == last {
                                assert(before[a].name@ != name@);
                            } else {
                                assert(after[a] == before[a]);
                                assert(after[b] == before[b]);
                            }
                        }
                    }
                    assert forall|m: Seq<char>| has_name(after, m) == (has_name(before, m) || m
                        == name@) by {
                        if has_name(after, m) {
                            let j = choose|j: int|
                                0 <= j < after.len() && (#[trigger] after[j]).name@ == m;
                            if j < last {
                                assert(before[j].name@ == m);
                            }
                        }
                        if has_name(before, m) {
                            let j = choose|j: int|
                                0 <= j < before.len() && (#[trigger] before[j]).name@ == m;
                            assert(after[j].name@ == m);
                        }
                        if m == name@ {
                            assert(after[last].name@ == m);
                        }
                    }
                    assert forall|m: Seq<char>| has_name(after, m) implies table_of(after)[m]
                        == table_of(before).insert(name@, target)[m] by {
                        let j = choose|j: int|
                            0 <= j < after.len() && (#[trigger] after[j]).name@ == m;
                        lemma_table_entry(after, j);
                        if j < last {
                            assert(after[j] == before[j]);
                            lemma_table_entry(before, j);
                        }
                    }
                    assert(table_of(after) =~= table_of(before).insert(name@, target));
                }
            },
        }
        core::mem::swap(&mut self.entries, &mut entries);
    }

    /// Delete the reference `name`, if it exists.
    pub fn remove(&mut self, name: &str)
        ensures
            final(self)@ == old(self)@.remove(name@),
    {
        proof {
            use_type_invariant(&*self);
        }
        let found = self.find(name);
        let ghost before = self.entries@;
        match found {
            Some(i) => {
                let mut entries: Vec<Reference> = Vec::new();
                core::mem::swap(&mut self.entries, &mut entries);
                let _ = entries.remove(i);
                proof {
                    let after = entries@;
                    assert(after =~= before.remove(i as int));
                    assert(distinct_names(after)) by {
                        assert forall|a: int, b: int| 0 <= a < b < after.len() implies (
                        #[trigger] after[a]).name@ != (#[trigger] after[b]).name@ by {
                            let a0 = if a < i { a } else { a + 1 };
                            let b0 = if b < i { b } else { b + 1 };
                            assert(after[a] == before[a0]);
                            assert(after[b] == before[b0]);
                        }
                    }
                    assert forall|m: Seq<char>| has_name(after, m) == (has_name(before, m) && m
                        != name@) by {
                        if has_name(after, m) {
                            let j = choose|j: int|
                                0 <= j < after.len() && (#[trigger] after[j]).name@ == m;
                            let j0 = if j < i { j } else { j + 1 };
                            assert(before[j0].name@ == m);
                        }
                        if has_name(before, m) && m != name@ {
                            let j = choose|j: int|
                                0 <= j < before.len() && (#[trigger] before[j]).name@ == m;
                            let j1 = if j < i { j } else { j - 1 };
                            assert(after[j1].name@ == m);
                        }
                    }
                    assert forall|m: Seq<char>| has_name(after, m) implies table_of(after)[m]
                        == table_of(before)[m] by {
                        let j = choose|j: int|
                            0 <= j < after.len() && (#[trigger] after[j]).name@ == m;
                        let j0 = if j < i { j } else { j + 1 };
                        lemma_table_entry(after, j);
                        assert(after[j] == before[j0]);
                        lemma_table_entry(before, j0);
                    }
                    assert(table_of(after) =~= table_of(before).remove(name@));
                }
                core::mem::swap(&mut self.entries, &mut entries);
            },
            None => {
                assert(table_of(before) =~= table_of(before).remove(name@));
            },
        }
    }
}

} // verus!
