//! Generic, ordered, string-keyed values: both schema nodes and runtime inputs.
use vstd::prelude::*;

verus! {

/// A runtime value or a schema node.
#[derive(Debug, PartialEq, Eq)]
pub enum Value {
    Null,
    Bool(bool),
    Int(i64),
    Str(String),
    List(Vec<Value>),
    /// A mapping, in insertion order.
    Dict(Vec<(String, Value)>),
}

/// The mathematical model of a [`Value`].
pub ghost enum ValueView {
    Null,
    Bool(bool),
    Int(i64),
    Str(Seq<char>),
    List(Seq<ValueView>),
    Dict(Seq<(Seq<char>, ValueView)>),
}

impl View for Value {
    type V = ValueView;

    open spec fn view(&self) -> ValueView
        decreases self,
    {
        match self {
            Value::Null => ValueView::Null,
            Value::Bool(b) => ValueView::Bool(*b),
            Value::Int(i) => ValueView::Int(*i),
            Value::Str(s) => ValueView::Str(s@),
            Value::List(items) => ValueView::List(list_view(items@)),
            Value::Dict(entries) => ValueView::Dict(entries_view(entries@)),
        }
    }
}

/// The models of a sequence's elements, in order.
pub open spec fn list_view(items: Seq<Value>) -> Seq<ValueView>
    decreases items,
{
    if items.len() == 0 {
        Seq::empty()
    } else {
        list_view(items.subrange(0, items.len() - 1)).push(items[items.len() - 1]@)
    }
}

/// The model of a mapping's entries, in order.
pub open spec fn entries_view(entries: Seq<(String, Value)>) -> Seq<(Seq<char>, ValueView)>
    decreases entries,
{
    if entries.len() == 0 {
        Seq::empty()
    } else {
        let last = entries[entries.len() - 1];
        entries_view(entries.subrange(0, entries.len() - 1)).push((last.0@, last.1@))
    }
}

/// The model of a mapping's entries holds the model of each entry.
pub proof fn lemma_entries_view(entries: Seq<(String, Value)>)
    ensures
        entries_view(entries).len() == entries.len(),
        forall|i: int|
            0 <= i < entries.len() ==> #[trigger] entries_view(entries)[i] == (
                entries[i].0@,
                entries[i].1@,
            ),
    decreases entries.len(),
{
    if entries.len() > 0 {
        let prefix = entries.subrange(0, entries.len() - 1);
        lemma_entries_view(prefix);
        assert(entries_view(entries) == entries_view(prefix).push((entries[entries.len() - 1].0@, entries[entries.len() - 1].1@)));
        assert forall|i: int| 0 <= i < entries.len() implies #[trigger] entries_view(entries)[i] == (
            entries[i].0@,
            entries[i].1@,
        ) by {
            if i < entries.len() - 1 {
                assert(prefix[i] == entries[i]);
            }
        }
    }
}

/// The first index at or after `start` whose key is `key`.
pub open spec fn key_index_from(entries: Seq<(Seq<char>, ValueView)>, key: Seq<char>, start: int) -> Option<int>
    decreases entries.len() - start,
{
    if start < 0 || start >= entries.len() {
        None
    } else if entries[start].0 == key {
        Some(start)
    } else {
        key_index_from(entries, key, start + 1)
    }
}

/// The index of the first entry whose key is `key`.
pub open spec fn key_index(entries: Seq<(Seq<char>, ValueView)>, key: Seq<char>) -> Option<int> {
    key_index_from(entries, key, 0)
}

/// The value of the first entry whose key is `key`.
pub open spec fn lookup(entries: Seq<(Seq<char>, ValueView)>, key: Seq<char>) -> Option<ValueView> {
    match key_index(entries, key) {
        Some(i) => if 0 <= i < entries.len() {
            Some(entries[i].1)
        } else {
            None
        },
        None => None,
    }
}

/// The index of the first entry of `entries` whose key is `key`.
pub fn find_key(entries: &Vec<(String, Value)>, key: &String) -> (r: Option<usize>)
    ensures
        match r {
            Some(i) => key_index(entries_view(entries@), key@) == Some(i as int) && i < entries@.len(),
            None => key_index(entries_view(entries@), key@) is None,
        },
{
    let ghost ev = entries_view(entries@);
    proof {
        lemma_entries_view(entries@);
    }
    let mut i: usize = 0;
    while i < entries.len()
        invariant
            i <= entries@.len(),
            ev == entries_view(entries@),
            ev.len() == entries@.len(),
            forall|j: int| 0 <= j < entries@.len() ==> #[trigger] ev[j] == (entries@[j].0@, entries@[j].1@),
            key_index(ev, key@) == key_index_from(ev, key@, i as int),
        decreases entries@.len() - i,
    {
        assert(ev[i as int].0 == entries@[i as int].0@);
        if entries[i].0 == *key {
            return Some(i);
        }
        i = i + 1;
    }
    None
}

} // verus!
