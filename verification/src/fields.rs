//! Lists of named values, of which the last under a name counts.
use vstd::prelude::*;

use crate::text::same;

verus! {

/// The values by name.
pub open spec fn values_of(fields: Seq<(String, String)>) -> Map<Seq<char>, Seq<char>>
    decreases fields.len(),
{
    if fields.len() == 0 {
        Map::empty()
    } else {
        values_of(fields.drop_last()).insert(fields.last().0@, fields.last().1@)
    }
}

/// The value under a name, if there is one.
pub open spec fn value_at(fields: Seq<(String, String)>, name: Seq<char>) -> Option<Seq<char>> {
    let values = values_of(fields);
    if values.dom().contains(name) {
        Some(values[name])
    } else {
        None
    }
}

/// A value that is given and not empty.
pub open spec fn nonempty(value: Option<Seq<char>>) -> Option<Seq<char>> {
    match value {
        Some(v) => if v.len() == 0 {
            None
        } else {
            Some(v)
        },
        None => None,
    }
}

proof fn lemma_value_at(fields: Seq<(String, String)>, name: Seq<char>, i: int)
    requires
        -1 <= i < fields.len(),
        i >= 0 ==> fields[i].0@ == name,
        forall|j: int| i < j < fields.len() ==> (#[trigger] fields[j]).0@ != name,
    ensures
        value_at(fields, name) == (if i >= 0 {
            Some(fields[i].1@)
        } else {
            None
        }),
    decreases fields.len(),
{
    if fields.len() > 0 && i < fields.len() - 1 {
        let d = fields.drop_last();
        assert(forall|j: int| i < j < d.len() ==> (#[trigger] d[j]).0@ == fields[j].0@);
        assert(fields[fields.len() - 1].0@ != name);
        lemma_value_at(d, name, i);
    }
}

/// A list that has grown by one named value.
pub proof fn lemma_values_push(fields: Seq<(String, String)>, field: (String, String))
    ensures
        values_of(fields.push(field)) == values_of(fields).insert(field.0@, field.1@),
{
    assert(fields.push(field).drop_last() =~= fields);
}

/// The value under a name.
pub fn lookup<'a>(fields: &'a Vec<(String, String)>, name: &str) -> (r: Option<&'a str>)
    ensures
        crate::text::opt_str(r) == value_at(fields@, name@),
{
    let mut i: usize = fields.len();
    while i > 0
        invariant
            i <= fields@.len(),
            forall|j: int| i <= j < fields@.len() ==> (#[trigger] fields@[j]).0@ != name@,
        decreases i,
    {
        i -= 1;
        if same(fields[i].0.as_str(), name) {
            proof {
                lemma_value_at(fields@, name@, i as int);
            }
            return Some(fields[i].1.as_str());
        }
    }
    proof {
        lemma_value_at(fields@, name@, -1);
    }
    None
}

/// The value under a name, if it is given and not empty.
pub fn lookup_nonempty<'a>(fields: &'a Vec<(String, String)>, name: &str) -> (r: Option<&'a str>)
    ensures
        crate::text::opt_str(r) == nonempty(value_at(fields@, name@)),
{
    match lookup(fields, name) {
        Some(value) => if value.is_empty() {
            None
        } else {
            Some(value)
        },
        None => None,
    }
}

/// Of the values under a name the last one counts, and there is none under a name
/// that is not given.
pub proof fn law_last_value_counts(fields: Seq<(String, String)>, name: Seq<char>, i: int)
    requires
        -1 <= i < fields.len(),
        i >= 0 ==> fields[i].0@ == name,
        forall|j: int| i < j < fields.len() ==> (#[trigger] fields[j]).0@ != name,
    ensures
        i >= 0 ==> value_at(fields, name) == Some(fields[i].1@),
        i == -1 ==> value_at(fields, name) is None,
{
    lemma_value_at(fields, name, i);
}

} // verus!
