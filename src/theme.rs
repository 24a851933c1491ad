//! The resolved theme: scope names with their styles, looked up by exact
//! name, by dotted-prefix fallback, or by index.
use vstd::prelude::*;
use crate::error::{Fault, ThemeError};
use crate::palette::{ThemePalette, builtin_palette, palette_of, styled};
use crate::style::{Color, Style, empty_style, is_rgb};
use crate::text::{chars_of, is_word, prefix_eq};
use crate::value::{Doc, Value, copy_value, entries_doc, entry_of, find_key};

verus! {

/// The index of the last name in `names` equal to `k`, or -1.
pub open spec fn name_index(names: Seq<Seq<char>>, k: Seq<char>) -> int
    decreases names.len(),
{
    if names.len() == 0 {
        -1
    } else if names.last() == k {
        names.len() - 1
    } else {
        name_index(names.drop_last(), k)
    }
}

/// The palette that a document's top-level entries give: its `palette`
/// entry when that reads cleanly, else the built-in names alone.
pub open spec fn document_palette(e: Seq<(Seq<char>, Doc)>) -> Seq<(Seq<char>, Color)> {
    match entry_of(e, "palette"@) {
        Some(d) => match palette_of(d) {
            Ok(p) => p,
            Err(_) => builtin_palette(),
        },
        None => builtin_palette(),
    }
}

/// Whether a top-level key is one that is not a scope.
pub open spec fn reserved_key(k: Seq<char>) -> bool {
    k == "palette"@ || k == "inherits"@
}

/// The scope table that the top-level entries `e` give under palette `p`:
/// scope names in order of first appearance, and for each the style that
/// its last entry gives, applied to an empty style (a bad attribute leaves
/// the attributes before it applied).
pub open spec fn scope_table(p: Seq<(Seq<char>, Color)>, e: Seq<(Seq<char>, Doc)>) -> (
    Seq<Seq<char>>,
    Seq<Style>,
)
    decreases e.len(),
{
    if e.len() == 0 {
        (Seq::empty(), Seq::empty())
    } else {
        let (names, styles) = scope_table(p, e.drop_last());
        let (k, d) = e.last();
        if reserved_key(k) {
            (names, styles)
        } else {
            let st = styled(p, empty_style(), d).0;
            let i = name_index(names, k);
            if i >= 0 {
                (names, styles.update(i, st))
            } else {
                (names.push(k), styles.push(st))
            }
        }
    }
}

/// The problem that a document's `palette` entry has, if it has one.
pub open spec fn palette_faults(e: Seq<(Seq<char>, Doc)>) -> Seq<Fault> {
    match entry_of(e, "palette"@) {
        Some(d) => match palette_of(d) {
            Ok(_) => Seq::empty(),
            Err(f) => seq![f],
        },
        None => Seq::empty(),
    }
}

/// The problems found in the scope entries of `e`, in document order.
pub open spec fn scope_faults(p: Seq<(Seq<char>, Color)>, e: Seq<(Seq<char>, Doc)>) -> Seq<Fault>
    decreases e.len(),
{
    if e.len() == 0 {
        Seq::empty()
    } else {
        let before = scope_faults(p, e.drop_last());
        if reserved_key(e.last().0) {
            before
        } else {
            match styled(p, empty_style(), e.last().1).1 {
                Ok(_) => before,
                Err(f) => before.push(f),
            }
        }
    }
}

/// The style that `k` has, or falls back to by dropping dot-separated
/// segments from its end, in the table `names` / `styles`.
pub open spec fn fallback_style(names: Seq<Seq<char>>, styles: Seq<Style>, k: Seq<char>) -> Option<Style>
    decreases k.len(),
{
    let i = name_index(names, k);
    if i >= 0 {
        Some(styles[i])
    } else {
        let d = last_dot(k);
        if 0 <= d < k.len() {
            fallback_style(names, styles, k.take(d))
        } else {
            None
        }
    }
}

/// The index of the last `.` in `k`, or -1.
pub open spec fn last_dot(k: Seq<char>) -> int
    decreases k.len(),
{
    if k.len() == 0 {
        -1
    } else if k.last() == '.' {
        k.len() - 1
    } else {
        last_dot(k.drop_last())
    }
}

pub proof fn lemma_name_index_range(names: Seq<Seq<char>>, k: Seq<char>)
    ensures
        -1 <= name_index(names, k) < names.len(),
        name_index(names, k) >= 0 ==> names[name_index(names, k)] == k,
        name_index(names, k) < 0 ==> !names.contains(k),
    decreases names.len(),
{
    if names.len() > 0 {
        lemma_name_index_range(names.drop_last(), k);
        if name_index(names, k) < 0 {
            assert forall|j: int| 0 <= j < names.len() implies names[j] != k by {
                if j < names.len() - 1 {
                    assert(names.drop_last()[j] == names[j]);
                }
            }
        }
    }
}

pub proof fn lemma_name_index_unique(names: Seq<Seq<char>>, j: int)
    requires
        names.no_duplicates(),
        0 <= j < names.len(),
    ensures
        name_index(names, names[j]) == j,
    decreases names.len(),
{
    if j < names.len() - 1 {
        assert(names.drop_last()[j] == names[j]);
        assert(names.drop_last().no_duplicates());
        lemma_name_index_unique(names.drop_last(), j);
    }
}

proof fn lemma_push_unique(names: Seq<Seq<char>>, k: Seq<char>)
    requires
        names.no_duplicates(),
        !names.contains(k),
    ensures
        names.push(k).no_duplicates(),
{
    let t = names.push(k);
    assert forall|a: int, b: int| 0 <= a < t.len() && 0 <= b < t.len() && a != b implies #[trigger] t[a] != #[trigger] t[b] by {
        if a == names.len() {
            assert(names[b] != k);
        } else if b == names.len() {
            assert(names[a] != k);
        } else {
            assert(names[a] != names[b]);
        }
    }
}

proof fn lemma_last_dot_range(k: Seq<char>)
    ensures
        -1 <= last_dot(k) < k.len(),
        last_dot(k) >= 0 ==> k[last_dot(k)] == '.',
        last_dot(k) < 0 ==> forall|j: int| 0 <= j < k.len() ==> k[j] != '.',
    decreases k.len(),
{
    if k.len() > 0 {
        lemma_last_dot_range(k.drop_last());
        assert(forall|j: int| 0 <= j < k.len() - 1 ==> k.drop_last()[j] == k[j]);
    }
}

/// A resolved theme.
///
/// The scope table is held as two parallel sequences, scope names and their
/// styles, so that a style can be fetched by index; the names are distinct,
/// so they also form the mapping from scope name to style (`styles`).
#[derive(Clone, Debug)]
pub struct Theme {
    name: String,
    scopes: Vec<String>,
    highlights: Vec<Style>,
}

impl Theme {
    /// The theme's name.
    pub closed spec fn spec_name(&self) -> Seq<char> {
        self.name@
    }

    /// The scope names, in order.
    pub closed spec fn scope_names(&self) -> Seq<Seq<char>> {
        self.scopes@.map_values(|s: String| s@)
    }

    /// The styles, parallel to the scope names.
    pub closed spec fn highlights(&self) -> Seq<Style> {
        self.highlights@
    }

    /// The well-formedness of a theme: the two sequences are parallel and
    /// the scope names distinct.
    pub open spec fn wf(&self) -> bool {
        &&& self.scope_names().len() == self.highlights().len()
        &&& self.scope_names().no_duplicates()
    }

    /// The mapping from scope name to style.
    pub open spec fn styles(&self) -> Map<Seq<char>, Style> {
        Map::new(
            |k: Seq<char>| self.scope_names().contains(k),
            |k: Seq<char>| self.highlights()[name_index(self.scope_names(), k)],
        )
    }

    /// The style that `k` has exactly.
    pub open spec fn exact(&self, k: Seq<char>) -> Option<Style> {
        let i = name_index(self.scope_names(), k);
        if i >= 0 {
            Some(self.highlights()[i])
        } else {
            None
        }
    }

    /// The style that `k` has or falls back to.
    pub open spec fn with_fallback(&self, k: Seq<char>) -> Option<Style> {
        fallback_style(self.scope_names(), self.highlights(), k)
    }

    proof fn lemma_view_len(&self)
        ensures
            self.scope_names().len() == self.scopes@.len(),
            forall|j: int| 0 <= j < self.scopes@.len() ==> #[trigger] self.scope_names()[j] == self.scopes@[j]@,
    {
    }

    /// A theme with no scopes.
    pub fn empty(name: String) -> (r: Theme)
        ensures
            r.wf(),
            r.spec_name() == name@,
            r.scope_names().len() == 0,
    {
        let r = Theme { name, scopes: Vec::new(), highlights: Vec::new() };
        assert(r.scope_names() =~= Seq::<Seq<char>>::empty());
        r
    }

    /// The style at `index` of the scope list.
    pub fn highlight(&self, index: usize) -> (r: Style)
        requires
            self.wf(),
            index < self.scope_names().len(),
        ensures
            r == self.highlights()[index as int],
    {
        self.highlights[index]
    }

    /// The theme's name.
    pub fn name(&self) -> (r: &str)
        ensures
            r@ == self.spec_name(),
    {
        self.name.as_str()
    }

    /// The scope names, in order.
    pub fn scopes(&self) -> (r: &[String])
        ensures
            r@.map_values(|s: String| s@) == self.scope_names(),
    {
        self.scopes.as_slice()
    }

    fn index_of_prefix(&self, q: &Vec<char>, n: usize) -> (r: Option<usize>)
        requires
            n <= q@.len(),
        ensures
            match r {
                Some(i) => i == name_index(self.scope_names(), q@.take(n as int)),
                None => name_index(self.scope_names(), q@.take(n as int)) == -1,
            },
    {
        let ghost names = self.scope_names();
        let ghost k = q@.take(n as int);
        proof {
            self.lemma_view_len();
            assert(names.take(names.len() as int) =~= names);
        }
        let mut i: usize = self.scopes.len();
        while i > 0
            invariant
                i <= self.scopes@.len(),
                names == self.scope_names(),
                names.len() == self.scopes@.len(),
                forall|j: int| 0 <= j < self.scopes@.len() ==> #[trigger] names[j] == self.scopes@[j]@,
                k == q@.take(n as int),
                n <= q@.len(),
                name_index(names, k) == name_index(names.take(i as int), k),
            decreases i,
        {
            assert(names.take(i as int).drop_last() =~= names.take(i - 1));
            let s = chars_of(self.scopes[i - 1].as_str());
            if prefix_eq(q, n, &s) {
                return Some(i - 1);
            }
            i = i - 1;
        }
        None
    }

    /// The style of `scope`, with no fallback.
    pub fn try_get_exact(&self, scope: &str) -> (r: Option<Style>)
        requires
            self.wf(),
        ensures
            r == self.exact(scope@),
    {
        let q = chars_of(scope);
        proof {
            assert(q@.take(q@.len() as int) =~= q@);
            lemma_name_index_range(self.scope_names(), scope@);
        }
        match self.index_of_prefix(&q, q.len()) {
            Some(i) => Some(self.highlights[i]),
            None => None,
        }
    }

    /// The index of `scope` in the scope list.
    pub fn find_scope_index(&self, scope: &str) -> (r: Option<usize>)
        requires
            self.wf(),
        ensures
            match r {
                Some(i) => i < self.scope_names().len() && self.scope_names()[i as int] == scope@,
                None => !self.scope_names().contains(scope@),
            },
    {
        let q = chars_of(scope);
        proof {
            assert(q@.take(q@.len() as int) =~= q@);
            lemma_name_index_range(self.scope_names(), scope@);
        }
        self.index_of_prefix(&q, q.len())
    }

    /// The style of `scope`, falling back to broader scopes by dropping
    /// dot-separated segments from the end: `ui.text.focus`, then `ui.text`,
    /// then `ui`.
    pub fn try_get(&self, scope: &str) -> (r: Option<Style>)
        requires
            self.wf(),
        ensures
            r == self.with_fallback(scope@),
    {
        let q = chars_of(scope);
        let mut n: usize = q.len();
        proof {
            assert(q@.take(n as int) =~= q@);
        }
        loop
            invariant
                self.wf(),
                n <= q@.len(),
                self.with_fallback(scope@) == fallback_style(self.scope_names(), self.highlights(), q@.take(n as int)),
            decreases n,
        {
            let ghost k = q@.take(n as int);
            proof {
                lemma_name_index_range(self.scope_names(), k);
                lemma_last_dot_range(k);
            }
            match self.index_of_prefix(&q, n) {
                Some(i) => {
                    return Some(self.highlights[i]);
                },
                None => {},
            }
            let mut d: usize = n;
            assert(k.take(n as int) =~= k);
            while d > 0 && q[d - 1] != '.'
                invariant
                    d <= n,
                    n <= q@.len(),
                    k == q@.take(n as int),
                    last_dot(k) == last_dot(k.take(d as int)),
                decreases d,
            {
                assert(k.take(d as int).drop_last() =~= k.take(d - 1));
                d = d - 1;
            }
            if d == 0 {
                assert(k.take(0) =~= Seq::<char>::empty());
                return None;
            }
            assert(k.take(d as int).drop_last() =~= k.take(d - 1));
            assert(last_dot(k) == d - 1);
            assert(k.take(d - 1) =~= q@.take(d - 1));
            n = d - 1;
        }
    }

    /// The style of `scope` with fallback, or the empty style.
    pub fn get(&self, scope: &str) -> (r: Style)
        requires
            self.wf(),
        ensures
            r == match self.with_fallback(scope@) {
                Some(s) => s,
                None => empty_style(),
            },
    {
        match self.try_get(scope) {
            Some(s) => s,
            None => Style::default(),
        }
    }

    /// Whether no style of the theme has an RGB foreground or background.
    pub fn is_16_color(&self) -> (r: bool)
        requires
            self.wf(),
        ensures
            r == forall|k: Seq<char>|
                #[trigger] self.styles().contains_key(k) ==> !is_rgb(self.styles()[k].fg) && !is_rgb(
                    self.styles()[k].bg,
                ),
    {
        let mut i: usize = 0;
        while i < self.highlights.len()
            invariant
                self.wf(),
                i <= self.highlights@.len(),
                forall|j: int| 0 <= j < i ==> !is_rgb(#[trigger] self.highlights@[j].fg) && !is_rgb(
                    self.highlights@[j].bg,
                ),
            decreases self.highlights@.len() - i,
        {
            let s = self.highlights[i];
            let fg_rgb = match s.fg {
                Some(Color::Rgb(_, _, _)) => true,
                _ => false,
            };
            let bg_rgb = match s.bg {
                Some(Color::Rgb(_, _, _)) => true,
                _ => false,
            };
            if fg_rgb || bg_rgb {
                proof {
                    let k = self.scope_names()[i as int];
                    lemma_name_index_unique(self.scope_names(), i as int);
                    assert(self.styles().contains_key(k));
                }
                return false;
            }
            i = i + 1;
        }
        proof {
            assert forall|k: Seq<char>| #[trigger] self.styles().contains_key(k) implies !is_rgb(
                self.styles()[k].fg,
            ) && !is_rgb(self.styles()[k].bg) by {
                lemma_name_index_range(self.scope_names(), k);
            }
        }
        true
    }
}

/// Builds the scope table of a document's top-level entries: reads the
/// `palette` entry (falling back to the built-in names when it is bad),
/// skips `palette` and `inherits`, and gives every other entry the style
/// that its value yields on an empty style. A bad attribute is reported in
/// the third result and leaves the attributes before it applied; the entry
/// is kept.
pub fn build_theme_values(values: Vec<(String, Value)>) -> (r: (Vec<String>, Vec<Style>, Vec<ThemeError>))
    ensures
        r.0@.map_values(|s: String| s@) == scope_table(document_palette(entries_doc(values@)), entries_doc(values@)).0,
        r.1@ == scope_table(document_palette(entries_doc(values@)), entries_doc(values@)).1,
        r.0@.map_values(|s: String| s@).no_duplicates(),
        r.0@.len() == r.1@.len(),
        r.2@.map_values(|x: ThemeError| x@) == palette_faults(entries_doc(values@)) + scope_faults(
            document_palette(entries_doc(values@)),
            entries_doc(values@),
        ),
{
    let ghost e = entries_doc(values@);
    proof {
        crate::value::lemma_entries_doc(values@);
        crate::value::lemma_key_index_range(e, "palette"@);
    }
    let mut warnings: Vec<ThemeError> = Vec::new();
    let palette_key = chars_of("palette");
    let palette = match find_key(&values, &palette_key) {
        Some(i) => match ThemePalette::try_from_value(copy_value(&values[i].1)) {
            Ok(p) => p,
            Err(err) => {
                warnings.push(err);
                ThemePalette::default()
            },
        },
        None => ThemePalette::default(),
    };
    let ghost p = palette@;
    let ghost pf = warnings@.map_values(|x: ThemeError| x@);
    assert(p == document_palette(e));
    assert(pf =~= palette_faults(e));
    let mut scopes: Vec<String> = Vec::new();
    let mut highlights: Vec<Style> = Vec::new();
    let mut i: usize = 0;
    assert(e.take(0) =~= Seq::<(Seq<char>, Doc)>::empty());
    assert(scopes@.map_values(|s: String| s@) =~= Seq::<Seq<char>>::empty());
    assert(pf + scope_faults(p, e.take(0)) =~= pf);
    while i < values.len()
        invariant
            i <= values@.len(),
            e == entries_doc(values@),
            e.len() == values@.len(),
            forall|k: int| 0 <= k < values@.len() ==> #[trigger] e[k] == (values@[k].0@, crate::value::doc_of(values@[k].1)),
            p == palette@,
            p == document_palette(e),
            scopes@.map_values(|s: String| s@) == scope_table(p, e.take(i as int)).0,
            highlights@ == scope_table(p, e.take(i as int)).1,
            scopes@.map_values(|s: String| s@).no_duplicates(),
            scopes@.len() == highlights@.len(),
            pf == palette_faults(e),
            warnings@.map_values(|x: ThemeError| x@) == pf + scope_faults(p, e.take(i as int)),
        decreases values@.len() - i,
    {
        assert(e.take(i + 1).drop_last() =~= e.take(i as int));
        assert(e.take(i + 1).last() == e[i as int]);
        let name = &values[i].0;
        if !is_word(name, "palette") && !is_word(name, "inherits") {
            let mut style = Style::default();
            match palette.parse_style(&mut style, copy_value(&values[i].1)) {
                Ok(()) => {},
                Err(err) => {
                    let ghost before = warnings@;
                    warnings.push(err);
                    assert(warnings@.map_values(|x: ThemeError| x@) =~= before.map_values(
                        |x: ThemeError| x@,
                    ).push(err@));
                },
            }
            let ghost names = scopes@.map_values(|s: String| s@);
            let mut j: usize = scopes.len();
            assert(names.take(j as int) =~= names);
            while j > 0 && scopes[j - 1] != *name
                invariant
                    j <= scopes@.len(),
                    names == scopes@.map_values(|s: String| s@),
                    name_index(names, name@) == name_index(names.take(j as int), name@),
                decreases j,
            {
                assert(names.take(j as int).drop_last() =~= names.take(j - 1));
                j = j - 1;
            }
            proof {
                lemma_name_index_range(names, name@);
                if j > 0 {
                    assert(names.take(j as int).last() == name@);
                } else {
                    assert(names.take(0) =~= Seq::<Seq<char>>::empty());
                }
            }
            if j > 0 {
                highlights.set(j - 1, style);
            } else {
                scopes.push(name.clone());
                highlights.push(style);
                proof {
                    assert(scopes@.map_values(|s: String| s@) =~= names.push(name@));
                    lemma_push_unique(names, name@);
                }
            }
        }
        i = i + 1;
    }
    assert(e.take(values@.len() as int) =~= e);
    (scopes, highlights, warnings)
}

impl Theme {
    /// The theme named `name` that a document's top-level entries give,
    /// with the problems found in reading its styles.
    pub fn from_entries(name: String, values: Vec<(String, Value)>) -> (r: (Theme, Vec<ThemeError>))
        ensures
            r.0.wf(),
            r.0.spec_name() == name@,
            r.0.scope_names() == scope_table(document_palette(entries_doc(values@)), entries_doc(values@)).0,
            r.0.highlights() == scope_table(document_palette(entries_doc(values@)), entries_doc(values@)).1,
            r.1@.map_values(|x: ThemeError| x@) == palette_faults(entries_doc(values@)) + scope_faults(
                document_palette(entries_doc(values@)),
                entries_doc(values@),
            ),
    {
        let (scopes, highlights, warnings) = build_theme_values(values);
        (Theme { name, scopes, highlights }, warnings)
    }

    /// The theme named `name` that a document gives. A document whose top
    /// level is not a table gives a theme with no scopes.
    pub fn from_value(name: String, value: Value) -> (r: Theme)
        ensures
            r.wf(),
            r.spec_name() == name@,
            match value@ {
                Doc::Table(e) => r.scope_names() == scope_table(document_palette(e), e).0
                    && r.highlights() == scope_table(document_palette(e), e).1,
                _ => r.scope_names().len() == 0,
            },
    {
        match value {
            Value::Table(values) => Theme::from_entries(name, values).0,
            _ => Theme::empty(name),
        }
    }

    /// A copy of the theme.
    pub fn copy(&self) -> (r: Theme)
        ensures
            r.spec_name() == self.spec_name(),
            r.scope_names() == self.scope_names(),
            r.highlights() == self.highlights(),
    {
        let mut scopes: Vec<String> = Vec::new();
        let mut i: usize = 0;
        while i < self.scopes.len()
            invariant
                i <= self.scopes@.len(),
                scopes@ == self.scopes@.take(i as int),
            decreases self.scopes@.len() - i,
        {
            scopes.push(self.scopes[i].clone());
            assert(scopes@ =~= self.scopes@.take(i + 1));
            i = i + 1;
        }
        assert(scopes@ =~= self.scopes@);
        let mut highlights: Vec<Style> = Vec::new();
        let mut j: usize = 0;
        while j < self.highlights.len()
            invariant
                j <= self.highlights@.len(),
                highlights@ == self.highlights@.take(j as int),
            decreases self.highlights@.len() - j,
        {
            highlights.push(self.highlights[j]);
            assert(highlights@ =~= self.highlights@.take(j + 1));
            j = j + 1;
        }
        assert(highlights@ =~= self.highlights@);
        Theme { name: self.name.clone(), scopes, highlights }
    }
}

} // verus!
