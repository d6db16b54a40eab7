//! The table that maps each declared function name to its entry point.

use vstd::prelude::*;
use vstd::string::*;

verus! {

/// One declaration: a name and the index of the first instruction of its body.
#[derive(Debug)]
struct Binding {
    name: String,
    entry: usize,
}

/// A finite map from function names to instruction indices.
///
/// The bindings are kept in declaration order and no name occurs twice, so
/// the table is a map and its length is the number of distinct names.
#[derive(Debug)]
pub struct FunctionTable {
    bindings: Vec<Binding>,
}

/// The names of `bindings`, in order, as character sequences.
spec fn binding_names(bindings: Seq<Binding>) -> Seq<Seq<char>> {
    bindings.map_values(|b: Binding| b.name@)
}

/// The map that a duplicate-free list of bindings stands for.
spec fn bindings_map(bindings: Seq<Binding>) -> Map<Seq<char>, usize> {
    Map::new(
        |name: Seq<char>| binding_names(bindings).contains(name),
        |name: Seq<char>| bindings[binding_names(bindings).index_of(name)].entry,
    )
}

/// In a duplicate-free list, the binding at `i` is what the map holds for
/// its name.
proof fn lemma_binding_at(bindings: Seq<Binding>, i: int)
    requires
        binding_names(bindings).no_duplicates(),
        0 <= i < bindings.len(),
    ensures
        bindings_map(bindings).contains_key(bindings[i].name@),
        bindings_map(bindings)[bindings[i].name@] == bindings[i].entry,
{
    let names = binding_names(bindings);
    assert(names[i] == bindings[i].name@);
    let j = names.index_of(names[i]);
    assert(0 <= j < names.len() && names[j] == names[i]);
}

/// Appending a binding with a fresh name inserts it into the map.
proof fn lemma_bindings_push(bindings: Seq<Binding>, b: Binding)
    requires
        binding_names(bindings).no_duplicates(),
        !binding_names(bindings).contains(b.name@),
    ensures
        binding_names(bindings.push(b)).no_duplicates(),
        bindings_map(bindings.push(b)) == bindings_map(bindings).insert(b.name@, b.entry),
{
    let after = bindings.push(b);
    assert(binding_names(after) =~= binding_names(bindings).push(b.name@));
    assert forall|i: int, j: int|
        0 <= i < after.len() && 0 <= j < after.len() && i != j implies binding_names(after)[i]
        != binding_names(after)[j] by {
        if i < bindings.len() {
            assert(binding_names(bindings)[i] == binding_names(after)[i]);
        }
        if j < bindings.len() {
            assert(binding_names(bindings)[j] == binding_names(after)[j]);
        }
    }
    assert forall|name: Seq<char>|
        bindings_map(after).contains_key(name) <==> bindings_map(bindings).insert(
            b.name@,
            b.entry,
        ).contains_key(name) by {
        if binding_names(bindings).contains(name) {
            let i = binding_names(bindings).index_of(name);
            assert(binding_names(after)[i] == name);
        }
        if name == b.name@ {
            assert(binding_names(after)[bindings.len() as int] == name);
        }
    }
    assert forall|name: Seq<char>| bindings_map(after).contains_key(name) implies bindings_map(
        after,
    )[name] == bindings_map(bindings).insert(b.name@, b.entry)[name] by {
        let i = binding_names(after).index_of(name);
        lemma_binding_at(after, i);
        if i < bindings.len() {
            assert(binding_names(bindings)[i] == name);
            lemma_binding_at(bindings, i);
        }
    }
    assert(bindings_map(after) =~= bindings_map(bindings).insert(b.name@, b.entry));
}

/// Replacing a binding by one of the same name overwrites the map's entry.
proof fn lemma_bindings_update(bindings: Seq<Binding>, i: int, b: Binding)
    requires
        binding_names(bindings).no_duplicates(),
        0 <= i < bindings.len(),
        bindings[i].name@ == b.name@,
    ensures
        binding_names(bindings.update(i, b)) == binding_names(bindings),
        bindings_map(bindings.update(i, b)) == bindings_map(bindings).insert(b.name@, b.entry),
{
    let after = bindings.update(i, b);
    assert(binding_names(after) =~= binding_names(bindings));
    assert(binding_names(bindings)[i] == b.name@);
    assert forall|name: Seq<char>| bindings_map(after).contains_key(name) implies bindings_map(
        after,
    )[name] == bindings_map(bindings).insert(b.name@, b.entry)[name] by {
        let j = binding_names(after).index_of(name);
        lemma_binding_at(after, j);
        lemma_binding_at(bindings, j);
    }
    assert(bindings_map(after) =~= bindings_map(bindings).insert(b.name@, b.entry));
}

impl FunctionTable {
    #[verifier::type_invariant]
    spec fn no_name_twice(&self) -> bool {
        binding_names(self.bindings@).no_duplicates()
    }

    /// The map that the table stands for.
    pub closed spec fn view(&self) -> Map<Seq<char>, usize> {
        bindings_map(self.bindings@)
    }

    /// A table without any declaration.
    pub fn new() -> (table: Self)
        ensures
            table@ == Map::<Seq<char>, usize>::empty(),
    {
        let table = FunctionTable { bindings: Vec::new() };
        assert(table@ =~= Map::<Seq<char>, usize>::empty());
        table
    }

    /// The position of `name` among `bindings`, if it is declared.
    fn position_in(bindings: &Vec<Binding>, name: &str) -> (found: Option<usize>)
        ensures
            match found {
                Some(i) => i < bindings@.len() && bindings@[i as int].name@ == name@,
                None => !binding_names(bindings@).contains(name@),
            },
    {
        let mut i: usize = 0;
        while i < bindings.len()
            invariant
                i <= bindings@.len(),
                forall|j: int| 0 <= j < i ==> bindings@[j].name@ != name@,
            decreases bindings@.len() - i,
        {
            if crate::text::str_eq(bindings[i].name.as_str(), name) {
                return Some(i);
            }
            i += 1;
        }
        None
    }

    /// The entry point declared for `name`.
    pub fn get(&self, name: &str) -> (entry: Option<&usize>)
        ensures
            match entry {
                Some(e) => self@.contains_key(name@) && *e == self@[name@],
                None => !self@.contains_key(name@),
            },
    {
        proof {
            use_type_invariant(self);
        }
        match Self::position_in(&self.bindings, name) {
            Some(i) => {
                proof {
                    lemma_binding_at(self.bindings@, i as int);
                }
                Some(&self.bindings[i].entry)
            },
            None => None,
        }
    }

    /// Declares `name` with entry point `entry`, replacing an earlier
    /// declaration of the same name, and returns the entry point it had.
    pub fn insert(&mut self, name: String, entry: usize) -> (previous: Option<usize>)
        ensures
            final(self)@ == old(self)@.insert(name@, entry),
            match previous {
                Some(e) => old(self)@.contains_key(name@) && e == old(self)@[name@],
                None => !old(self)@.contains_key(name@),
            },
    {
        let mut taken = FunctionTable::new();
        core::mem::swap(self, &mut taken);
        proof {
            use_type_invariant(&taken);
        }
        let mut bindings = taken.bindings;
        let ghost before = bindings@;
        let found = Self::position_in(&bindings, name.as_str());
        let previous = match found {
            Some(i) => {
                let previous = bindings[i].entry;
                let binding = Binding { name, entry };
                proof {
                    lemma_binding_at(before, i as int);
                    lemma_bindings_update(before, i as int, binding);
                }
                bindings[i] = binding;
                Some(previous)
            },
            None => {
                let binding = Binding { name, entry };
                proof {
                    lemma_bindings_push(before, binding);
                }
                bindings.push(binding);
                None
            },
        };
        *self = FunctionTable { bindings };
        previous
    }

    /// How many names are declared.
    pub fn len(&self) -> (n: usize)
        ensures
            self@.dom().finite(),
            n == self@.dom().len(),
    {
        proof {
            use_type_invariant(self);
            let names = binding_names(self.bindings@);
            names.unique_seq_to_set();
            assert(self@.dom() =~= names.to_set());
        }
        self.bindings.len()
    }

    /// Whether no name is declared.
    pub fn is_empty(&self) -> (empty: bool)
        ensures
            empty == (self@ == Map::<Seq<char>, usize>::empty()),
    {
        proof {
            if self.bindings@.len() > 0 {
                assert(binding_names(self.bindings@)[0] == self.bindings@[0].name@);
                assert(self@.contains_key(self.bindings@[0].name@));
            } else {
                assert(self@ =~= Map::<Seq<char>, usize>::empty());
            }
        }
        self.bindings.len() == 0
    }
}

} // verus!
