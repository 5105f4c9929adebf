//! The header fields of an RTSP message.

use vstd::prelude::*;

use crate::text::same_text;

verus! {

/// A header field: its name and its value.
pub type Field = (Seq<char>, Seq<char>);

/// The index of the field named `name`.
pub open spec fn position(fields: Seq<Field>, name: Seq<char>) -> Option<int>
    decreases fields.len(),
{
    if fields.len() == 0 {
        None
    } else if fields.last().0 == name {
        Some(fields.len() - 1)
    } else {
        position(fields.drop_last(), name)
    }
}

/// The value of the field named `name`.
pub open spec fn lookup(fields: Seq<Field>, name: Seq<char>) -> Option<Seq<char>> {
    match position(fields, name) {
        Some(i) => Some(fields[i].1),
        None => None,
    }
}

/// `fields` with the field `name` set to `value`: in its place where it is there, else at the
/// end.
pub open spec fn put(fields: Seq<Field>, name: Seq<char>, value: Seq<char>) -> Seq<Field> {
    match position(fields, name) {
        Some(i) => fields.update(i, (name, value)),
        None => fields.push((name, value)),
    }
}

/// `fields` with the field `name` set to `value`, unless there is one.
pub open spec fn put_if_absent(fields: Seq<Field>, name: Seq<char>, value: Seq<char>) -> Seq<
    Field,
> {
    match position(fields, name) {
        Some(_) => fields,
        None => fields.push((name, value)),
    }
}

/// No name occurs twice.
pub open spec fn distinct(fields: Seq<Field>) -> bool {
    forall|i: int, j: int|
        0 <= i < fields.len() && 0 <= j < fields.len() && i != j ==> (#[trigger] fields[i]).0 != (
        #[trigger] fields[j]).0
}

/// The fields as a map from names to values.
pub open spec fn field_map(fields: Seq<Field>) -> Map<Seq<char>, Seq<char>> {
    Map::new(|name: Seq<char>| lookup(fields, name) is Some, |name: Seq<char>|
        lookup(fields, name)->0)
}

pub proof fn lemma_position(fields: Seq<Field>, name: Seq<char>)
    ensures
        match position(fields, name) {
            Some(i) => 0 <= i < fields.len() && fields[i].0 == name,
            None => forall|i: int| 0 <= i < fields.len() ==> (#[trigger] fields[i]).0 != name,
        },
    decreases fields.len(),
{
    if fields.len() > 0 && fields.last().0 != name {
        lemma_position(fields.drop_last(), name);
        assert(forall|i: int|
            0 <= i < fields.len() - 1 ==> fields[i] == #[trigger] fields.drop_last()[i]);
        if position(fields.drop_last(), name) is None {
            assert forall|i: int| 0 <= i < fields.len() implies (#[trigger] fields[i]).0
                != name by {
                if i < fields.len() - 1 {
                    assert(fields[i] == fields.drop_last()[i]);
                }
            }
        }
    }
}

/// In fields without repetition the field at index `i` is the one of its name.
pub proof fn lemma_position_of(fields: Seq<Field>, i: int)
    requires
        distinct(fields),
        0 <= i < fields.len(),
    ensures
        position(fields, fields[i].0) == Some(i),
        lookup(fields, fields[i].0) == Some(fields[i].1),
{
    lemma_position(fields, fields[i].0);
}

/// Setting a field keeps names distinct.
pub proof fn lemma_put_distinct(fields: Seq<Field>, name: Seq<char>, value: Seq<char>)
    requires
        distinct(fields),
    ensures
        distinct(put(fields, name, value)),
        distinct(put_if_absent(fields, name, value)),
{
    lemma_position(fields, name);
    let after = put(fields, name, value);
    assert forall|i: int, j: int|
        0 <= i < after.len() && 0 <= j < after.len() && i != j implies (#[trigger] after[i]).0 != (
    #[trigger] after[j]).0 by {
        if i < fields.len() && j < fields.len() {
            assert(fields[i].0 != fields[j].0);
        }
    }
}

/// A field that is set reads as the new value, and every other field as before.
pub proof fn lemma_lookup_put(
    fields: Seq<Field>,
    name: Seq<char>,
    value: Seq<char>,
    other: Seq<char>,
)
    requires
        distinct(fields),
    ensures
        lookup(put(fields, name, value), other) == (if other == name {
            Some(value)
        } else {
            lookup(fields, other)
        }),
{
    let after = put(fields, name, value);
    lemma_put_distinct(fields, name, value);
    lemma_position(fields, name);
    lemma_position(fields, other);
    lemma_position(after, other);
    if other == name {
        let i = match position(fields, name) {
            Some(i) => i,
            None => fields.len() as int,
        };
        lemma_position_of(after, i);
    } else if let Some(i) = position(fields, other) {
        assert(after[i] == fields[i]);
        lemma_position_of(after, i);
    } else if let Some(j) = position(after, other) {
        assert(after[j] == fields[j]);
    }
}

/// There is a value for a name exactly where a field has that name.
pub proof fn lemma_lookup_is_some(fields: Seq<Field>, name: Seq<char>)
    ensures
        lookup(fields, name) is Some == exists|i: int|
            0 <= i < fields.len() && (#[trigger] fields[i]).0 == name,
        lookup(fields, name) matches Some(value) ==> exists|i: int|
            0 <= i < fields.len() && #[trigger] fields[i] == (name, value),
{
    lemma_position(fields, name);
    if let Some(i) = position(fields, name) {
        assert(fields[i] == (name, fields[i].1));
    }
}

/// Setting a field leaves the others in their places; a new one comes last. Setting it only where
/// it is absent leaves the fields alone where it is there, and sets it where it is not.
pub proof fn lemma_put_keeps_places(
    fields: Seq<Field>,
    name: Seq<char>,
    value: Seq<char>,
    i: int,
)
    requires
        distinct(fields),
        0 <= i < fields.len(),
    ensures
        put(fields, name, value)[i] == (if fields[i].0 == name {
            (name, value)
        } else {
            fields[i]
        }),
        put(fields, name, value).len() == fields.len() + (if lookup(fields, name) is Some {
            0int
        } else {
            1int
        }),
        put_if_absent(fields, name, value) == (if lookup(fields, name) is Some {
            fields
        } else {
            put(fields, name, value)
        }),
{
    lemma_position(fields, name);
    if let Some(j) = position(fields, name) {
        if i != j {
            assert(fields[i].0 != fields[j].0);
        }
    }
}

/// Setting a field is an insertion into the map of fields.
pub proof fn lemma_put_is_insert(fields: Seq<Field>, name: Seq<char>, value: Seq<char>)
    requires
        distinct(fields),
    ensures
        field_map(put(fields, name, value)) == field_map(fields).insert(name, value),
{
    let after = put(fields, name, value);
    assert forall|other: Seq<char>| lookup(after, other) == (if other == name {
        Some(value)
    } else {
        lookup(fields, other)
    }) by {
        lemma_lookup_put(fields, name, value, other);
    }
    assert(field_map(after) =~= field_map(fields).insert(name, value));
}

spec fn fields_of(entries: Seq<(String, String)>) -> Seq<Field> {
    entries.map_values(|entry: (String, String)| (entry.0@, entry.1@))
}

/// The header fields of a message. No name occurs twice; fields keep the order in which their
/// names were first set.
#[derive(Debug)]
pub struct Headers {
    entries: Vec<(String, String)>,
}

impl Headers {
    /// The fields, in order.
    pub closed spec fn fields(&self) -> Seq<Field> {
        fields_of(self.entries@)
    }

    #[verifier::type_invariant]
    spec fn names_are_distinct(&self) -> bool {
        distinct(self.fields())
    }

    /// No fields.
    pub fn new() -> (r: Headers)
        ensures
            r.fields() == Seq::<Field>::empty(),
    {
        let entries: Vec<(String, String)> = Vec::new();
        assert(fields_of(entries@) =~= Seq::<Field>::empty());
        Headers { entries }
    }

    /// How many fields there are.
    pub fn len(&self) -> (r: usize)
        ensures
            r == self.fields().len(),
            distinct(self.fields()),
    {
        proof {
            use_type_invariant(self);
        }
        self.entries.len()
    }

    /// The name and the value of the field at index `i`.
    pub fn field(&self, i: usize) -> (r: (&str, &str))
        requires
            i < self.fields().len(),
        ensures
            (r.0@, r.1@) == self.fields()[i as int],
    {
        (self.entries[i].0.as_str(), self.entries[i].1.as_str())
    }

    /// The index of the field named `name`.
    fn find(&self, name: &str) -> (r: Option<usize>)
        ensures
            match r {
                Some(i) => position(self.fields(), name@) == Some(i as int) && i
                    < self.entries.len(),
                None => position(self.fields(), name@) is None,
            },
    {
        proof {
            use_type_invariant(self);
        }
        let mut i: usize = 0;
        while i < self.entries.len()
            invariant
                i <= self.entries.len(),
                distinct(self.fields()),
                forall|k: int| 0 <= k < i ==> (#[trigger] self.fields()[k]).0 != name@,
            decreases self.entries.len() - i,
        {
            if same_text(self.entries[i].0.as_str(), name) {
                proof {
                    lemma_position_of(self.fields(), i as int);
                }
                return Some(i);
            }
            i += 1;
        }
        proof {
            lemma_position(self.fields(), name@);
        }
        None
    }

    /// The value of the field named `name`.
    pub fn get(&self, name: &str) -> (r: Option<&str>)
        ensures
            match lookup(self.fields(), name@) {
                Some(value) => r matches Some(v) && v@ == value,
                None => r is None,
            },
    {
        match self.find(name) {
            Some(i) => Some(self.entries[i].1.as_str()),
            None => None,
        }
    }

    /// Whether there is a field named `name`.
    pub fn contains(&self, name: &str) -> (r: bool)
        ensures
            r == (lookup(self.fields(), name@) is Some),
    {
        match self.find(name) {
            Some(_) => true,
            None => false,
        }
    }

    /// Sets the field `name` to `value`, in the place of the one there is.
    pub fn insert(&mut self, name: String, value: String)
        ensures
            final(self).fields() == put(old(self).fields(), name@, value@),
            field_map(final(self).fields()) == field_map(old(self).fields()).insert(name@, value@),
    {
        proof {
            use_type_invariant(&*self);
            lemma_position(self.fields(), name@);
            lemma_put_distinct(self.fields(), name@, value@);
            lemma_put_is_insert(self.fields(), name@, value@);
        }
        let ghost before = self.fields();
        let ghost field = (name@, value@);
        let found = self.find(name.as_str());
        let mut entries: Vec<(String, String)> = Vec::new();
        assert(fields_of(entries@) =~= Seq::<Field>::empty());
        std::mem::swap(&mut self.entries, &mut entries);
        match found {
            Some(i) => {
                entries.set(i, (name, value));
            },
            None => {
                entries.push((name, value));
            },
        }
        assert(fields_of(entries@) =~= put(before, field.0, field.1));
        *self = Headers { entries };
    }

    /// Sets the field `name` to `value`, unless there is one.
    pub fn insert_if_absent(&mut self, name: String, value: String)
        ensures
            final(self).fields() == put_if_absent(old(self).fields(), name@, value@),
    {
        if !self.contains(name.as_str()) {
            self.insert(name, value);
        }
    }
}

impl Clone for Headers {
    fn clone(&self) -> (r: Headers)
        ensures
            r.fields() == self.fields(),
    {
        proof {
            use_type_invariant(self);
        }
        let mut entries: Vec<(String, String)> = Vec::new();
        let mut i: usize = 0;
        while i < self.entries.len()
            invariant
                i <= self.entries.len(),
                entries@ == self.entries@.take(i as int),
            decreases self.entries.len() - i,
        {
            entries.push((self.entries[i].0.clone(), self.entries[i].1.clone()));
            i += 1;
            assert(entries@ =~= self.entries@.take(i as int));
        }
        assert(entries@ =~= self.entries@);
        Headers { entries }
    }
}

} // verus!
