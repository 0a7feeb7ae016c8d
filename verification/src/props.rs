//! The custom properties that a map editor attaches to a tile.

use vstd::prelude::*;

verus! {

/// The value of a custom property.
#[derive(Clone, Debug, PartialEq, Eq)]
pub enum PropertyValue {
    Bool(bool),
    /// A floating-point number, kept as the bits of its 32-bit encoding.
    Float(u32),
    Int(i32),
    Color(u32),
    Text(String),
}

/// One custom property: a name and its value.
#[derive(Clone, Debug, PartialEq, Eq)]
pub struct Property {
    pub key: String,
    pub value: PropertyValue,
}

/// The custom properties of one tile, by name. A name has one value: a
/// second value given to a name replaces the first.
#[derive(Clone, Debug)]
pub struct Properties {
    entries: Vec<Property>,
}

/// The properties that a list of entries gives: each entry overrides the
/// entries before it that have its name.
pub open spec fn entries_map(entries: Seq<Property>) -> Map<Seq<char>, PropertyValue>
    decreases entries.len(),
{
    if entries.len() == 0 {
        Map::empty()
    } else {
        entries_map(entries.drop_last()).insert(entries.last().key@, entries.last().value)
    }
}

/// Whether the property `key` is there and holds the boolean `true`.
pub open spec fn flag_set(props: Map<Seq<char>, PropertyValue>, key: Seq<char>) -> bool {
    props.contains_key(key) && props[key] == PropertyValue::Bool(true)
}

impl View for Properties {
    type V = Map<Seq<char>, PropertyValue>;

    closed spec fn view(&self) -> Map<Seq<char>, PropertyValue> {
        entries_map(self.entries@)
    }
}

impl Properties {
    /// No properties at all.
    pub fn new() -> (props: Properties)
        ensures
            props@ == Map::<Seq<char>, PropertyValue>::empty(),
    {
        Properties { entries: Vec::new() }
    }

    /// Gives the property `key` the value `value`.
    pub fn insert(&mut self, key: String, value: PropertyValue)
        ensures
            final(self)@ == old(self)@.insert(key@, value),
    {
        let entry = Property { key, value };
        self.entries.push(entry);
        assert(self.entries@.drop_last() =~= old(self).entries@);
    }

    /// The place of the entry that decides the value of `key`: the last one
    /// with that name.
    fn find(&self, key: &str) -> (at: Option<usize>)
        ensures
            match at {
                Some(i) => i < self.entries@.len() && self.entries@[i as int].key@ == key@
                    && self@.contains_key(key@) && self@[key@] == self.entries@[i as int].value,
                None => !self@.contains_key(key@),
            },
    {
        let wanted: String = key.to_owned();
        let mut i: usize = self.entries.len();
        assert(self.entries@.take(i as int) =~= self.entries@);
        while i > 0
            invariant
                i <= self.entries@.len(),
                wanted@ == key@,
                entries_map(self.entries@).contains_key(key@) == entries_map(
                    self.entries@.take(i as int),
                ).contains_key(key@),
                entries_map(self.entries@).contains_key(key@) ==> entries_map(self.entries@)[key@]
                    == entries_map(self.entries@.take(i as int))[key@],
            decreases i,
        {
            let ghost head = self.entries@.take(i as int);
            assert(head.drop_last() =~= self.entries@.take(i - 1));
            assert(head.last() == self.entries@[i - 1]);
            i = i - 1;
            if self.entries[i].key == wanted {
                return Some(i);
            }
        }
        assert(self.entries@.take(0) =~= Seq::<Property>::empty());
        None
    }

    /// Whether there is a property named `key`.
    pub fn contains_key(&self, key: &str) -> (b: bool)
        ensures
            b == self@.contains_key(key@),
    {
        self.find(key).is_some()
    }

    /// The value of the property `key`, if there is one.
    pub fn get(&self, key: &str) -> (value: Option<&PropertyValue>)
        ensures
            match value {
                Some(v) => self@.contains_key(key@) && *v == self@[key@],
                None => !self@.contains_key(key@),
            },
    {
        match self.find(key) {
            Some(i) => Some(&self.entries[i].value),
            None => None,
        }
    }

    /// Whether the property `key` is there and holds the boolean `true`.
    pub fn is_set(&self, key: &str) -> (b: bool)
        ensures
            b == flag_set(self@, key@),
    {
        match self.get(key) {
            Some(PropertyValue::Bool(true)) => true,
            _ => false,
        }
    }
}

} // verus!
