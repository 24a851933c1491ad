//! The raw configuration document: an untyped tree of strings, tables and
//! arrays, with key lookup and depth-limited merging.
use vstd::prelude::*;
use crate::text::{chars_of, chars_eq};

verus! {

/// A node of a parsed configuration document.
///
/// A table is a sequence of `(key, value)` entries in document order. When a
/// key occurs more than once, the last entry named so is the one that counts.
/// Scalars other than strings (numbers, booleans, dates) are kept as their
/// source text in `Other`.
#[derive(Debug, PartialEq)]
pub enum Value {
    Str(String),
    Table(Vec<(String, Value)>),
    Array(Vec<Value>),
    Other(String),
}

/// The mathematical form of a document node: strings as character
/// sequences, tables as sequences of named entries.
pub enum Doc {
    Str(Seq<char>),
    Table(Seq<(Seq<char>, Doc)>),
    Array(Seq<Doc>),
    Other(Seq<char>),
}

/// The mathematical form of a document node.
pub open spec fn doc_of(v: Value) -> Doc
    decreases v,
{
    match v {
        Value::Str(s) => Doc::Str(s@),
        Value::Other(s) => Doc::Other(s@),
        Value::Table(e) => Doc::Table(entries_doc(e@)),
        Value::Array(a) => Doc::Array(items_doc(a@)),
    }
}

/// The mathematical form of a table's entries.
pub open spec fn entries_doc(s: Seq<(String, Value)>) -> Seq<(Seq<char>, Doc)>
    decreases s,
{
    if s.len() == 0 {
        Seq::empty()
    } else {
        entries_doc(s.drop_last()).push((s.last().0@, doc_of(s.last().1)))
    }
}

/// The mathematical form of an array's items.
pub open spec fn items_doc(s: Seq<Value>) -> Seq<Doc>
    decreases s,
{
    if s.len() == 0 {
        Seq::empty()
    } else {
        items_doc(s.drop_last()).push(doc_of(s.last()))
    }
}

impl View for Value {
    type V = Doc;

    open spec fn view(&self) -> Doc {
        doc_of(*self)
    }
}

/// The index of the last entry of `s` whose key is `k`, or -1 if there is none.
pub open spec fn key_index(s: Seq<(Seq<char>, Doc)>, k: Seq<char>) -> int
    decreases s.len(),
{
    if s.len() == 0 {
        -1
    } else if s.last().0 == k {
        s.len() - 1
    } else {
        key_index(s.drop_last(), k)
    }
}

/// What the table `s` holds under key `k`.
pub open spec fn entry_of(s: Seq<(Seq<char>, Doc)>, k: Seq<char>) -> Option<Doc> {
    let i = key_index(s, k);
    if i >= 0 {
        Some(s[i].1)
    } else {
        None
    }
}

/// Merges `right` onto `left`, descending into tables shared by both sides
/// for `depth` levels. Below that depth, and wherever either side is not a
/// table, the right value replaces the left one wholesale.
pub open spec fn merged(left: Doc, right: Doc, depth: nat) -> Doc
    decreases depth, 0nat,
{
    match (left, right) {
        (Doc::Table(l), Doc::Table(r)) => {
            if depth > 0 {
                Doc::Table(merged_entries(l, r, (depth - 1) as nat))
            } else {
                right
            }
        },
        _ => right,
    }
}

/// The entries of `l` with every entry of `r`, in order, merged in at
/// depth `depth`: an existing key keeps its place and gets the merged value,
/// a new key is appended.
pub open spec fn merged_entries(l: Seq<(Seq<char>, Doc)>, r: Seq<(Seq<char>, Doc)>, depth: nat) -> Seq<
    (Seq<char>, Doc),
>
    decreases depth, r.len(),
{
    if r.len() == 0 {
        l
    } else {
        let acc = merged_entries(l, r.drop_last(), depth);
        let (k, v) = r.last();
        let i = key_index(acc, k);
        if i >= 0 {
            acc.update(i, (k, merged(acc[i].1, v, depth)))
        } else {
            acc.push((k, v))
        }
    }
}

pub proof fn lemma_entries_doc(s: Seq<(String, Value)>)
    ensures
        entries_doc(s).len() == s.len(),
        forall|j: int| 0 <= j < s.len() ==> #[trigger] entries_doc(s)[j] == (s[j].0@, doc_of(s[j].1)),
    decreases s.len(),
{
    if s.len() > 0 {
        lemma_entries_doc(s.drop_last());
    }
}

/// The form of a table's entries follows entry by entry.
pub proof fn lemma_entries_doc_ext(s: Seq<(String, Value)>, t: Seq<(String, Value)>)
    requires
        s.len() == t.len(),
        forall|j: int| 0 <= j < s.len() ==> s[j].0@ == t[j].0@ && doc_of(s[j].1) == doc_of(t[j].1),
    ensures
        entries_doc(s) == entries_doc(t),
{
    lemma_entries_doc(s);
    lemma_entries_doc(t);
    assert(entries_doc(s) =~= entries_doc(t));
}

pub proof fn lemma_key_index_range(s: Seq<(Seq<char>, Doc)>, k: Seq<char>)
    ensures
        -1 <= key_index(s, k) < s.len(),
        key_index(s, k) >= 0 ==> s[key_index(s, k)].0 == k,
        key_index(s, k) < 0 ==> forall|j: int| 0 <= j < s.len() ==> s[j].0 != k,
    decreases s.len(),
{
    if s.len() > 0 {
        lemma_key_index_range(s.drop_last(), k);
        assert(forall|j: int| 0 <= j < s.len() - 1 ==> s.drop_last()[j] == s[j]);
    }
}

pub proof fn lemma_items_doc(s: Seq<Value>)
    ensures
        items_doc(s).len() == s.len(),
        forall|j: int| 0 <= j < s.len() ==> #[trigger] items_doc(s)[j] == doc_of(s[j]),
    decreases s.len(),
{
    if s.len() > 0 {
        lemma_items_doc(s.drop_last());
    }
}

proof fn lemma_entries_doc_update(s: Seq<(String, Value)>, p: int, x: (String, Value))
    requires
        0 <= p < s.len(),
    ensures
        entries_doc(s.update(p, x)) == entries_doc(s).update(p, (x.0@, doc_of(x.1))),
{
    lemma_entries_doc(s);
    lemma_entries_doc(s.update(p, x));
    assert(entries_doc(s.update(p, x)) =~= entries_doc(s).update(p, (x.0@, doc_of(x.1))));
}

proof fn lemma_entries_doc_push(s: Seq<(String, Value)>, x: (String, Value))
    ensures
        entries_doc(s.push(x)) == entries_doc(s).push((x.0@, doc_of(x.1))),
{
    assert(s.push(x).drop_last() =~= s);
}

/// A copy of `v`, node for node.
pub fn copy_value(v: &Value) -> (r: Value)
    ensures
        r@ == v@,
    decreases v,
{
    match v {
        Value::Str(s) => Value::Str(s.clone()),
        Value::Other(s) => Value::Other(s.clone()),
        Value::Table(entries) => {
            let mut out: Vec<(String, Value)> = Vec::new();
            let mut i: usize = 0;
            while i < entries.len()
                invariant
                    *v == Value::Table(*entries),
                    i <= entries@.len(),
                    out@.len() == i,
                    forall|j: int|
                        0 <= j < i ==> out@[j].0@ == entries@[j].0@ && doc_of(out@[j].1) == doc_of(
                            entries@[j].1,
                        ),
                decreases entries@.len() - i,
            {
                let k = entries[i].0.clone();
                proof {
                    assert(decreases_to!(*v => v->Table_0));
                    assert(decreases_to!(*v => entries@));
                    assert(decreases_to!(entries@ => entries@[i as int]));
                    assert(decreases_to!(entries@[i as int] => entries@[i as int].1));
                    assert(decreases_to!(*v => entries@[i as int].1));
                }
                let c = copy_value(&entries[i].1);
                out.push((k, c));
                i = i + 1;
            }
            proof {
                lemma_entries_doc_ext(out@, entries@);
            }
            Value::Table(out)
        },
        Value::Array(items) => {
            let mut out: Vec<Value> = Vec::new();
            let mut i: usize = 0;
            while i < items.len()
                invariant
                    *v == Value::Array(*items),
                    i <= items@.len(),
                    out@.len() == i,
                    forall|j: int| 0 <= j < i ==> doc_of(out@[j]) == doc_of(items@[j]),
                decreases items@.len() - i,
            {
                proof {
                    assert(decreases_to!(*v => v->Array_0));
                    assert(decreases_to!(*v => items@));
                    assert(decreases_to!(items@ => items@[i as int]));
                }
                let c = copy_value(&items[i]);
                out.push(c);
                i = i + 1;
            }
            proof {
                lemma_items_doc(out@);
                lemma_items_doc(items@);
                assert(items_doc(out@) =~= items_doc(items@));
            }
            Value::Array(out)
        },
    }
}

/// The index of the last entry of `entries` whose key is `k`.
pub fn find_key(entries: &Vec<(String, Value)>, k: &Vec<char>) -> (r: Option<usize>)
    ensures
        match r {
            Some(i) => i == key_index(entries_doc(entries@), k@),
            None => key_index(entries_doc(entries@), k@) == -1,
        },
{
    let ghost e = entries_doc(entries@);
    proof {
        lemma_entries_doc(entries@);
        assert(e.take(e.len() as int) =~= e);
    }
    let mut i: usize = entries.len();
    while i > 0
        invariant
            i <= entries@.len(),
            e == entries_doc(entries@),
            e.len() == entries@.len(),
            forall|j: int| 0 <= j < entries@.len() ==> #[trigger] e[j] == (entries@[j].0@, doc_of(entries@[j].1)),
            key_index(e, k@) == key_index(e.take(i as int), k@),
        decreases i,
    {
        let name = chars_of(entries[i - 1].0.as_str());
        assert(e.take(i as int).drop_last() =~= e.take(i - 1));
        assert(e.take(i as int).last() == e[i - 1]);
        if chars_eq(&name, k) {
            return Some(i - 1);
        }
        i = i - 1;
    }
    None
}

/// Merges `right` onto `left` for `depth` levels of nested tables.
pub fn merge_values(left: Value, right: Value, depth: usize) -> (r: Value)
    ensures
        r@ == merged(left@, right@, depth as nat),
    decreases depth,
{
    match (left, right) {
        (Value::Table(l), Value::Table(r)) => {
            if depth == 0 {
                return Value::Table(r);
            }
            let ghost l0 = entries_doc(l@);
            let ghost rd = entries_doc(r@);
            proof {
                lemma_entries_doc(r@);
            }
            let mut acc = l;
            let mut i: usize = 0;
            while i < r.len()
                invariant
                    0 < depth,
                    i <= r@.len(),
                    rd == entries_doc(r@),
                    rd.len() == r@.len(),
                    forall|j: int| 0 <= j < r@.len() ==> #[trigger] rd[j] == (r@[j].0@, doc_of(r@[j].1)),
                    entries_doc(acc@) == merged_entries(l0, rd.take(i as int), (depth - 1) as nat),
                decreases r@.len() - i,
            {
                let ghost before = entries_doc(acc@);
                assert(rd.take(i + 1).drop_last() =~= rd.take(i as int));
                assert(rd.take(i + 1).last() == rd[i as int]);
                let key = chars_of(r[i].0.as_str());
                let rv = copy_value(&r[i].1);
                proof {
                    lemma_key_index_range(before, key@);
                    lemma_entries_doc(acc@);
                }
                match find_key(&acc, &key) {
                    Some(p) => {
                        let lv = copy_value(&acc[p].1);
                        let name = acc[p].0.clone();
                        let m = merge_values(lv, rv, depth - 1);
                        proof {
                            lemma_entries_doc_update(acc@, p as int, (name, m));
                        }
                        acc.set(p, (name, m));
                    },
                    None => {
                        let name = r[i].0.clone();
                        proof {
                            lemma_entries_doc_push(acc@, (name, rv));
                        }
                        acc.push((name, rv));
                    },
                }
                i = i + 1;
            }
            assert(rd.take(r@.len() as int) =~= rd);
            Value::Table(acc)
        },
        (_, r) => r,
    }
}

} // verus!
