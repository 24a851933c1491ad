//! Theme inheritance and the loader of built-in and named themes.
use vstd::prelude::*;
use crate::error::{Fault, ThemeError};
use crate::text::{chars_of, is_word};
use crate::theme::{Theme, document_palette, scope_table};
use crate::value::{
    Doc, Value, copy_value, entries_doc, entry_of, find_key, merge_values, merged,
};

verus! {

/// What a document holds under key `k` at its top level.
pub open spec fn doc_get(d: Doc, k: Seq<char>) -> Option<Doc> {
    match d {
        Doc::Table(e) => entry_of(e, k),
        _ => None,
    }
}

/// The palette of a child theme merged onto its parent's: entries are merged
/// two levels deep, so the child overrides single colors and keeps the rest.
pub open spec fn merged_palette(parent: Doc, child: Doc) -> Doc {
    match (doc_get(parent, "palette"@), doc_get(child, "palette"@)) {
        (Some(a), Some(b)) => merged(a, b, 2),
        (Some(a), None) => a,
        (None, Some(b)) => b,
        (None, None) => Doc::Table(Seq::empty()),
    }
}

/// A child theme document merged onto its parent: top-level entries one
/// level deep (a child's entry replaces the parent's wholesale), then the
/// palette put in as `merged_palette` gives it.
pub open spec fn merged_flavors(parent: Doc, child: Doc) -> Doc {
    merged(merged(parent, child, 1), Doc::Table(seq![("palette"@, merged_palette(parent, child))]), 1)
}

/// The document of the first theme of `chain` after each theme is merged
/// onto the one after it, from the last (the root ancestor) down.
pub open spec fn merged_chain(chain: Seq<Doc>) -> Doc
    decreases chain.len(),
{
    if chain.len() <= 1 {
        chain[0]
    } else {
        merged_flavors(merged_chain(chain.drop_first()), chain[0])
    }
}

/// The parent that a document names in its `inherits` entry.
pub open spec fn inherits_of(d: Doc) -> Result<Option<Seq<char>>, Fault> {
    match doc_get(d, "inherits"@) {
        Some(Doc::Str(s)) => Ok(Some(s)),
        Some(_) => Err(Fault::InheritsNotString),
        None => Ok(None),
    }
}

/// What a document holds under `key` at its top level.
pub fn get_entry(v: &Value, key: &str) -> (r: Option<Value>)
    ensures
        match r {
            Some(x) => doc_get(v@, key@) == Some(x@),
            None => doc_get(v@, key@) is None,
        },
{
    match v {
        Value::Table(entries) => {
            let k = chars_of(key);
            proof {
                crate::value::lemma_entries_doc(entries@);
                crate::value::lemma_key_index_range(entries_doc(entries@), key@);
            }
            match find_key(entries, &k) {
                Some(i) => Some(copy_value(&entries[i].1)),
                None => None,
            }
        },
        _ => None,
    }
}

/// The parent theme that a document names in its `inherits` entry.
pub fn inherits(doc: &Value) -> (r: Result<Option<String>, ThemeError>)
    ensures
        match r {
            Ok(Some(s)) => inherits_of(doc@) == Ok::<Option<Seq<char>>, Fault>(Some(s@)),
            Ok(None) => inherits_of(doc@) == Ok::<Option<Seq<char>>, Fault>(None),
            Err(e) => inherits_of(doc@) == Err::<Option<Seq<char>>, Fault>(e@),
        },
{
    match get_entry(doc, "inherits") {
        Some(Value::Str(s)) => Ok(Some(s)),
        Some(_) => Err(ThemeError::InheritsNotString),
        None => Ok(None),
    }
}

/// Merges a child theme document onto its parent's.
pub fn merge_flavors(parent: Value, child: Value) -> (r: Value)
    ensures
        r@ == merged_flavors(parent@, child@),
{
    let palette = match (get_entry(&parent, "palette"), get_entry(&child, "palette")) {
        (Some(a), Some(b)) => merge_values(a, b, 2),
        (Some(a), None) => a,
        (None, Some(b)) => b,
        (None, None) => {
            let none: Vec<(String, Value)> = Vec::new();
            assert(entries_doc(none@) =~= Seq::<(Seq<char>, Doc)>::empty());
            Value::Table(none)
        },
    };
    let ghost pd = palette@;
    let flavor = merge_values(parent, child, 1);
    let entry = ("palette".to_owned(), palette);
    let v = vec![entry];
    proof {
        assert(v@ =~= seq![entry]);
        assert(v@.drop_last() =~= Seq::<(String, Value)>::empty());
        assert(entries_doc(Seq::<(String, Value)>::empty()) == Seq::<(Seq<char>, Doc)>::empty());
        assert(v@.last().0@ == "palette"@);
        assert(crate::value::doc_of(v@.last().1) == pd);
        assert(entries_doc(v@) == Seq::<(Seq<char>, Doc)>::empty().push(("palette"@, pd)));
        assert(entries_doc(v@) =~= seq![("palette"@, pd)]);
    }
    merge_values(flavor, Value::Table(v), 1)
}

/// Loads themes: the two built-in themes, built once, and named themes from
/// documents that the caller finds.
pub struct Loader {
    default_data: Value,
    base16_data: Value,
    default: Theme,
    base16: Theme,
}

impl Loader {
    /// The document of the built-in true-color theme.
    pub closed spec fn default_doc(&self) -> Doc {
        self.default_data@
    }

    /// The document of the built-in 16-color theme.
    pub closed spec fn base16_doc(&self) -> Doc {
        self.base16_data@
    }

    /// The built-in true-color theme.
    pub closed spec fn default_spec(&self) -> Theme {
        self.default
    }

    /// The built-in 16-color theme.
    pub closed spec fn base16_spec(&self) -> Theme {
        self.base16
    }

    pub open spec fn wf(&self) -> bool {
        &&& self.default_spec().wf()
        &&& self.base16_spec().wf()
        &&& self.default_spec().spec_name() == "default"@
        &&& self.base16_spec().spec_name() == "base16_default"@
        &&& built_from(self.default_spec(), self.default_doc())
        &&& built_from(self.base16_spec(), self.base16_doc())
    }

    /// A loader whose built-in themes are read from the two documents given,
    /// once, here.
    pub fn new(default_data: Value, base16_data: Value) -> (r: Loader)
        ensures
            r.wf(),
            r.default_doc() == default_data@,
            r.base16_doc() == base16_data@,
    {
        let default = Theme::from_value("default".to_owned(), copy_value(&default_data));
        let base16 = Theme::from_value("base16_default".to_owned(), copy_value(&base16_data));
        Loader { default_data, base16_data, default, base16 }
    }

    /// The true-color default theme when `true_color`, else the 16-color one.
    pub fn default_theme(&self, true_color: bool) -> (r: Theme)
        requires
            self.wf(),
        ensures
            same_theme(r, if true_color { self.default_spec() } else { self.base16_spec() }),
    {
        if true_color {
            self.default()
        } else {
            self.base16_default()
        }
    }

    /// The built-in true-color theme.
    pub fn default(&self) -> (r: Theme)
        requires
            self.wf(),
        ensures
            same_theme(r, self.default_spec()),
    {
        self.default.copy()
    }

    /// The built-in 16-color theme.
    pub fn base16_default(&self) -> (r: Theme)
        requires
            self.wf(),
        ensures
            same_theme(r, self.base16_spec()),
    {
        self.base16.copy()
    }

    /// The document of a built-in theme, for use as an ancestor.
    pub fn default_data(&self, name: &str) -> (r: Option<Value>)
        ensures
            match r {
                Some(v) => (name@ == "default"@ && v@ == self.default_doc()) || (name@ == "base16_default"@
                    && name@ != "default"@ && v@ == self.base16_doc()),
                None => name@ != "default"@ && name@ != "base16_default"@,
            },
    {
        let n = name.to_owned();
        if is_word(&n, "default") {
            Some(copy_value(&self.default_data))
        } else if is_word(&n, "base16_default") {
            Some(copy_value(&self.base16_data))
        } else {
            None
        }
    }

    /// Loads the theme `name`. The built-in names give the cached built-in
    /// themes. Any other name is read from `chain`: the theme's own document
    /// first, then that of each ancestor up to the root one. The documents
    /// are merged from the root down and the result is built into a theme
    /// that carries `name`.
    pub fn load(&self, name: &str, chain: Vec<Value>) -> (r: Result<Theme, ThemeError>)
        requires
            self.wf(),
        ensures
            name@ == "default"@ ==> r is Ok && same_theme(r->Ok_0, self.default_spec()),
            name@ == "base16_default"@ && name@ != "default"@ ==> r is Ok && same_theme(
                r->Ok_0,
                self.base16_spec(),
            ),
            name@ != "default"@ && name@ != "base16_default"@ ==> match r {
                Ok(t) => chain@.len() > 0 && t.spec_name() == name@ && built_from(
                    t,
                    merged_chain(chain@.map_values(|v: Value| v@)),
                ),
                Err(e) => (chain@.len() == 0 && e@ == Fault::ThemeNotFound(name@)) || (chain@.len() > 0
                    && !(merged_chain(chain@.map_values(|v: Value| v@)) is Table) && e@
                    == Fault::DocumentNotATable),
            },
    {
        let n = name.to_owned();
        if is_word(&n, "default") {
            return Ok(self.default());
        }
        if is_word(&n, "base16_default") {
            return Ok(self.base16_default());
        }
        if chain.len() == 0 {
            return Err(ThemeError::ThemeNotFound(n));
        }
        let ghost docs = chain@.map_values(|v: Value| v@);
        let mut j: usize = chain.len() - 1;
        let mut acc = copy_value(&chain[j]);
        assert(docs.subrange(j as int, docs.len() as int) =~= seq![docs[j as int]]);
        while j > 0
            invariant
                j < chain@.len(),
                docs == chain@.map_values(|v: Value| v@),
                acc@ == merged_chain(docs.subrange(j as int, docs.len() as int)),
            decreases j,
        {
            let child = copy_value(&chain[j - 1]);
            let ghost tail = docs.subrange(j - 1, docs.len() as int);
            assert(tail.drop_first() =~= docs.subrange(j as int, docs.len() as int));
            assert(tail[0] == child@);
            acc = merge_flavors(acc, child);
            j = j - 1;
        }
        assert(docs.subrange(0, docs.len() as int) =~= docs);
        match acc {
            Value::Table(values) => Ok(Theme::from_entries(n, values).0),
            _ => Err(ThemeError::DocumentNotATable),
        }
    }
}

/// Whether two themes have the same name and scope table.
pub open spec fn same_theme(a: Theme, b: Theme) -> bool {
    &&& a.spec_name() == b.spec_name()
    &&& a.scope_names() == b.scope_names()
    &&& a.highlights() == b.highlights()
}

/// Whether `t` is a well-formed theme with the scope table that document
/// `d` gives (none, where `d` is not a table).
pub open spec fn built_from(t: Theme, d: Doc) -> bool {
    &&& t.wf()
    &&& match d {
        Doc::Table(e) => t.scope_names() == scope_table(document_palette(e), e).0 && t.highlights()
            == scope_table(document_palette(e), e).1,
        _ => t.scope_names().len() == 0,
    }
}

} // verus!
