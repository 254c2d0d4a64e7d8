//! Sample metadata: one record per sample, from field name to text.

use vstd::prelude::*;
use vstd::hash_map::StringHashMap;

verus! {

/// The metadata field that holds a sample's identifier, by which the sample
/// is found again among the columns of the matrix.
pub const SAMPLE_FIELD: &'static str = "Sample";

/// The descriptors of one sample.
///
/// Its view is the mapping from field name to the field's text.
pub struct Record {
    fields: StringHashMap<String>,
}

impl View for Record {
    type V = Map<Seq<char>, Seq<char>>;

    closed spec fn view(&self) -> Map<Seq<char>, Seq<char>> {
        self.fields@.map_values(|text: String| text@)
    }
}

impl DeepView for Record {
    type V = Map<Seq<char>, Seq<char>>;

    open spec fn deep_view(&self) -> Map<Seq<char>, Seq<char>> {
        self@
    }
}

impl Record {
    /// The record without any field.
    pub fn new() -> (record: Record)
        ensures
            record@ == Map::<Seq<char>, Seq<char>>::empty(),
    {
        let record = Record { fields: StringHashMap::new() };
        assert(record@ =~= Map::<Seq<char>, Seq<char>>::empty());
        record
    }

    /// Sets field `name` to `value`, in place of what it held before.
    pub fn insert(&mut self, name: String, value: String)
        ensures
            final(self)@ == old(self)@.insert(name@, value@),
    {
        let ghost before = self@;
        let ghost key = name@;
        let ghost text = value@;
        self.fields.insert(name, value);
        assert(self@ =~= before.insert(key, text));
    }

    /// The text of field `name`, where the record has that field.
    pub fn get(&self, name: &str) -> (value: Option<&String>)
        ensures
            match value {
                Some(text) => self@.contains_key(name@) && text@ == self@[name@],
                None => !self@.contains_key(name@),
            },
    {
        self.fields.get(name)
    }
}

} // verus!
