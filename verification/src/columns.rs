//! A lookup from column name to column position, built once from the header
//! of the matrix and then shared by every later query.

use vstd::prelude::*;
use vstd::hash_map::StringHashMap;
use csv::StringRecord;
use crate::fields::record_fields;

verus! {

/// `i` is the position of the first column of `columns` that is named
/// `name`.
pub open spec fn is_first_position(columns: Seq<Seq<char>>, name: Seq<char>, i: int) -> bool {
    &&& 0 <= i < columns.len()
    &&& columns[i] == name
    &&& forall|j: int| 0 <= j < i ==> columns[j] != name
}

/// The position of the first column named `name`, if the header has one.
pub open spec fn first_position(columns: Seq<Seq<char>>, name: Seq<char>) -> Option<int> {
    if columns.contains(name) {
        Some(choose|i: int| is_first_position(columns, name, i))
    } else {
        None
    }
}

/// A column named `name` has a first position, and only one.
pub proof fn lemma_first_position(columns: Seq<Seq<char>>, name: Seq<char>)
    ensures
        match first_position(columns, name) {
            Some(i) => is_first_position(columns, name, i),
            None => !columns.contains(name),
        },
        forall|i: int| is_first_position(columns, name, i) ==> first_position(columns, name) == Some(i),
{
    if columns.contains(name) {
        let k = choose|k: int| 0 <= k < columns.len() && columns[k] == name;
        lemma_least_position(columns, name, k);
    }
    assert forall|i: int| is_first_position(columns, name, i) implies first_position(columns, name)
        == Some(i) by {
        assert(columns.contains(name));
        let c = choose|c: int| is_first_position(columns, name, c);
        assert(is_first_position(columns, name, c));
        if c < i {
            assert(columns[c] != name);
        } else if i < c {
            assert(columns[i] != name);
        }
    }
}

/// Below any position that holds `name` there is a first one.
proof fn lemma_least_position(columns: Seq<Seq<char>>, name: Seq<char>, k: int)
    requires
        0 <= k < columns.len(),
        columns[k] == name,
    ensures
        exists|i: int| is_first_position(columns, name, i),
    decreases k,
{
    if exists|j: int| 0 <= j < k && columns[j] == name {
        let j = choose|j: int| 0 <= j < k && columns[j] == name;
        lemma_least_position(columns, name, j);
    } else {
        assert(is_first_position(columns, name, k));
    }
}

/// The header of a matrix, indexed by column name.
///
/// Its view is the header itself: the column names in their order. A name
/// that occurs more than once is found at its first position.
pub struct ColumnLookup {
    positions: StringHashMap<usize>,
    names: Ghost<Seq<Seq<char>>>,
}

impl View for ColumnLookup {
    type V = Seq<Seq<char>>;

    closed spec fn view(&self) -> Seq<Seq<char>> {
        self.names@
    }
}

impl ColumnLookup {
    #[verifier::type_invariant]
    spec fn well_formed(&self) -> bool {
        &&& forall|name: Seq<char>| #[trigger]
            self.positions@.contains_key(name) ==> is_first_position(
                self.names@,
                name,
                self.positions@[name] as int,
            )
        &&& forall|i: int|
            0 <= i < self.names@.len() ==> self.positions@.contains_key(#[trigger] self.names@[i])
    }

    /// Indexes the columns of `header`.
    pub fn new(header: &StringRecord) -> (lookup: ColumnLookup)
        ensures
            lookup@ == record_fields(*header),
    {
        let ghost names = record_fields(*header);
        let mut positions: StringHashMap<usize> = StringHashMap::new();
        let width: usize = header.len();
        let mut i: usize = 0;
        while i < width
            invariant
                i <= width,
                width == names.len(),
                names == record_fields(*header),
                forall|name: Seq<char>| #[trigger]
                    positions@.contains_key(name) ==> is_first_position(
                        names,
                        name,
                        positions@[name] as int,
                    ) && positions@[name] < i,
                forall|k: int| 0 <= k < i ==> positions@.contains_key(#[trigger] names[k]),
            decreases width - i,
        {
            match header.get(i) {
                Some(name) => {
                    if !positions.contains_key(name) {
                        positions.insert(name.to_owned(), i);
                    }
                },
                None => {},
            }
            i += 1;
        }
        ColumnLookup { positions, names: Ghost(names) }
    }

    /// Whether the header has a column named `name`.
    pub fn contains(&self, name: &str) -> (found: bool)
        ensures
            found == self@.contains(name@),
    {
        proof {
            use_type_invariant(self);
        }
        self.positions.contains_key(name)
    }

    /// The position of the first column named `name`.
    pub fn position(&self, name: &str) -> (found: Option<usize>)
        ensures
            match found {
                Some(i) => is_first_position(self@, name@, i as int),
                None => !self@.contains(name@),
            },
    {
        proof {
            use_type_invariant(self);
        }
        match self.positions.get(name) {
            Some(p) => Some(*p),
            None => None,
        }
    }
}

} // verus!
