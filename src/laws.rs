//! Properties that relate the parts of the library to each other.
use vstd::prelude::*;
use crate::loader::{built_from, doc_get, merged_flavors, merged_palette};
use crate::palette::{builtin_palette, color_named, palette_entries, resolve_token, styled};
use crate::style::{Color, Style, empty_style};
use crate::theme::{
    Theme, document_palette, lemma_name_index_range, lemma_name_index_unique, name_index,
    reserved_key, scope_table,
};
use crate::value::{Doc, entry_of, key_index, lemma_key_index_range, merged, merged_entries};

verus! {

/// Whether no two entries of a table share a key.
pub open spec fn keys_unique(e: Seq<(Seq<char>, Doc)>) -> bool {
    forall|a: int, b: int| 0 <= a < b < e.len() ==> #[trigger] e[a].0 != #[trigger] e[b].0
}

proof fn lemma_color_named_concat(a: Seq<(Seq<char>, Color)>, b: Seq<(Seq<char>, Color)>, k: Seq<char>)
    ensures
        color_named(a + b, k) == match color_named(b, k) {
            Some(c) => Some(c),
            None => color_named(a, k),
        },
    decreases b.len(),
{
    if b.len() == 0 {
        assert(a + b =~= a);
    } else {
        assert((a + b).drop_last() =~= a + b.drop_last());
        assert((a + b).last() == b.last());
        lemma_color_named_concat(a, b.drop_last(), k);
    }
}

/// A name defined by a theme document's palette resolves, everywhere in that
/// theme, to the document's color, also where the name is one of the
/// built-in ones: the document's entries are layered on top of the built-in
/// names.
pub proof fn lemma_document_palette_wins(
    e: Seq<(Seq<char>, Doc)>,
    pe: Seq<(Seq<char>, Doc)>,
    k: Seq<char>,
    c: Color,
)
    requires
        entry_of(e, "palette"@) == Some(Doc::Table(pe)),
        palette_entries(pe) matches Ok(ps) && color_named(ps, k) == Some(c),
    ensures
        resolve_token(document_palette(e), k) == Ok::<Color, crate::error::Fault>(c),
{
    let ps = palette_entries(pe)->Ok_0;
    lemma_color_named_concat(builtin_palette(), ps, k);
}

proof fn lemma_key_index_push(s: Seq<(Seq<char>, Doc)>, x: (Seq<char>, Doc), k: Seq<char>)
    ensures
        key_index(s.push(x), k) == if x.0 == k {
            s.len() as int
        } else {
            key_index(s, k)
        },
{
    assert(s.push(x).drop_last() =~= s);
}

proof fn lemma_key_index_update(s: Seq<(Seq<char>, Doc)>, i: int, v: Doc, k: Seq<char>)
    requires
        0 <= i < s.len(),
    ensures
        key_index(s.update(i, (s[i].0, v)), k) == key_index(s, k),
    decreases s.len(),
{
    let t = s.update(i, (s[i].0, v));
    if i < s.len() - 1 {
        assert(t.drop_last() =~= s.drop_last().update(i, (s[i].0, v)));
        lemma_key_index_update(s.drop_last(), i, v, k);
    } else {
        assert(t.drop_last() =~= s.drop_last());
    }
}

/// What a table merged at depth `d + 1` holds under a key: the right side's
/// value merged onto the left side's one level less deep, or whichever side
/// alone has the key.
pub proof fn lemma_merged_entry(l: Seq<(Seq<char>, Doc)>, r: Seq<(Seq<char>, Doc)>, d: nat, k: Seq<char>)
    requires
        keys_unique(r),
    ensures
        entry_of(merged_entries(l, r, d), k) == match entry_of(r, k) {
            None => entry_of(l, k),
            Some(rv) => Some(
                match entry_of(l, k) {
                    Some(lv) => merged(lv, rv, d),
                    None => rv,
                },
            ),
        },
    decreases r.len(),
{
    if r.len() > 0 {
        let r0 = r.drop_last();
        assert(keys_unique(r0)) by {
            assert forall|a: int, b: int| 0 <= a < b < r0.len() implies #[trigger] r0[a].0 != #[trigger] r0[b].0 by {
                assert(r0[a] == r[a] && r0[b] == r[b]);
            }
        }
        lemma_merged_entry(l, r0, d, k);
        let acc = merged_entries(l, r0, d);
        let (k1, v1) = r.last();
        let i = key_index(acc, k1);
        lemma_key_index_range(acc, k1);
        lemma_key_index_range(acc, k);
        lemma_key_index_range(r0, k);
        if k1 == k {
            if key_index(r0, k) >= 0 {
                assert(r[key_index(r0, k)].0 == r[r.len() - 1].0);
            }
            assert(entry_of(r, k) == Some(v1));
            assert(entry_of(r0, k) is None);
            if i >= 0 {
                let u = acc.update(i, (k1, merged(acc[i].1, v1, d)));
                lemma_key_index_update(acc, i, merged(acc[i].1, v1, d), k);
                assert(u == acc.update(i, (acc[i].0, merged(acc[i].1, v1, d))));
                assert(entry_of(u, k) == Some(merged(acc[i].1, v1, d)));
            } else {
                lemma_key_index_push(acc, (k1, v1), k);
                assert(entry_of(acc.push((k1, v1)), k) == Some(v1));
            }
        } else {
            assert(key_index(r, k) == key_index(r0, k));
            if key_index(r0, k) >= 0 {
                assert(r[key_index(r0, k)] == r0[key_index(r0, k)]);
            }
            assert(entry_of(r, k) == entry_of(r0, k));
            let j = key_index(acc, k);
            if i >= 0 {
                let u = acc.update(i, (k1, merged(acc[i].1, v1, d)));
                lemma_key_index_update(acc, i, merged(acc[i].1, v1, d), k);
                assert(u == acc.update(i, (acc[i].0, merged(acc[i].1, v1, d))));
                if j >= 0 {
                    assert(j != i);
                    assert(u[j] == acc[j]);
                }
                assert(entry_of(u, k) == entry_of(acc, k));
            } else {
                lemma_key_index_push(acc, (k1, v1), k);
                if j >= 0 {
                    assert(acc.push((k1, v1))[j] == acc[j]);
                }
                assert(entry_of(acc.push((k1, v1)), k) == entry_of(acc, k));
            }
        }
    }
}

proof fn lemma_single_unique(k: Seq<char>, v: Doc)
    ensures
        keys_unique(seq![(k, v)]),
        entry_of(seq![(k, v)], k) == Some(v),
{
    assert(seq![(k, v)].drop_last() =~= Seq::<(Seq<char>, Doc)>::empty());
}

proof fn lemma_single_other(k: Seq<char>, v: Doc, j: Seq<char>)
    requires
        j != k,
    ensures
        entry_of(seq![(k, v)], j) is None,
{
    let s = seq![(k, v)];
    assert(s.drop_last() =~= Seq::<(Seq<char>, Doc)>::empty());
    assert(s.last() == (k, v));
    assert(key_index(s.drop_last(), j) == -1);
    assert(key_index(s, j) == -1);
}

/// Merging a child theme onto its parent: a top-level entry of the child
/// (other than `palette`) replaces the parent's entry of that name
/// wholesale; nothing of the parent's table under that name survives.
pub proof fn lemma_child_entry_replaces(
    pe: Seq<(Seq<char>, Doc)>,
    ce: Seq<(Seq<char>, Doc)>,
    k: Seq<char>,
    cv: Doc,
)
    requires
        keys_unique(ce),
        k != "palette"@,
        entry_of(ce, k) == Some(cv),
    ensures
        doc_get(merged_flavors(Doc::Table(pe), Doc::Table(ce)), k) == Some(cv),
{
    lemma_merged_entry(pe, ce, 0, k);
    let me = merged_entries(pe, ce, 0);
    let pal = merged_palette(Doc::Table(pe), Doc::Table(ce));
    lemma_single_unique("palette"@, pal);
    lemma_single_other("palette"@, pal, k);
    lemma_merged_entry(me, seq![("palette"@, pal)], 0, k);
}

/// Merging a child theme onto its parent: a top-level entry that the child
/// does not have is the parent's, untouched.
pub proof fn lemma_parent_entry_kept(pe: Seq<(Seq<char>, Doc)>, ce: Seq<(Seq<char>, Doc)>, k: Seq<char>)
    requires
        keys_unique(ce),
        k != "palette"@,
        entry_of(ce, k) is None,
    ensures
        doc_get(merged_flavors(Doc::Table(pe), Doc::Table(ce)), k) == entry_of(pe, k),
{
    lemma_merged_entry(pe, ce, 0, k);
    let me = merged_entries(pe, ce, 0);
    let pal = merged_palette(Doc::Table(pe), Doc::Table(ce));
    lemma_single_unique("palette"@, pal);
    lemma_single_other("palette"@, pal, k);
    lemma_merged_entry(me, seq![("palette"@, pal)], 0, k);
}

/// Merging a child theme onto its parent: the palette of the result is the
/// two palettes merged, and in it a color that the child names as a string
/// is the child's, while a color that only the parent names is the
/// parent's.
pub proof fn lemma_palette_merge(
    pe: Seq<(Seq<char>, Doc)>,
    ce: Seq<(Seq<char>, Doc)>,
    pp: Seq<(Seq<char>, Doc)>,
    cp: Seq<(Seq<char>, Doc)>,
    c: Seq<char>,
)
    requires
        keys_unique(ce),
        keys_unique(cp),
        entry_of(pe, "palette"@) == Some(Doc::Table(pp)),
        entry_of(ce, "palette"@) == Some(Doc::Table(cp)),
    ensures
        doc_get(merged_flavors(Doc::Table(pe), Doc::Table(ce)), "palette"@) == Some(
            Doc::Table(merged_entries(pp, cp, 1)),
        ),
        entry_of(cp, c) is None ==> entry_of(merged_entries(pp, cp, 1), c) == entry_of(pp, c),
        entry_of(cp, c) matches Some(Doc::Str(s)) ==> entry_of(merged_entries(pp, cp, 1), c) == entry_of(
            cp,
            c,
        ),
{
    let me = merged_entries(pe, ce, 0);
    let pal = merged_palette(Doc::Table(pe), Doc::Table(ce));
    lemma_single_unique("palette"@, pal);
    lemma_merged_entry(me, seq![("palette"@, pal)], 0, "palette"@);
    lemma_merged_entry(pp, cp, 1, c);
}

proof fn lemma_scope_table_entry(p: Seq<(Seq<char>, Color)>, e: Seq<(Seq<char>, Doc)>, k: Seq<char>)
    requires
        !reserved_key(k),
    ensures
        scope_table(p, e).0.len() == scope_table(p, e).1.len(),
        match entry_of(e, k) {
            Some(d) => name_index(scope_table(p, e).0, k) >= 0 && scope_table(p, e).1[name_index(
                scope_table(p, e).0,
                k,
            )] == styled(p, empty_style(), d).0,
            None => name_index(scope_table(p, e).0, k) < 0,
        },
    decreases e.len(),
{
    if e.len() > 0 {
        let e0 = e.drop_last();
        lemma_scope_table_entry(p, e0, k);
        let (names, styles) = scope_table(p, e0);
        let (k1, d1) = e.last();
        lemma_key_index_range(e0, k);
        if k1 == k {
            assert(entry_of(e, k) == Some(d1));
        } else {
            assert(key_index(e, k) == key_index(e0, k));
            if key_index(e0, k) >= 0 {
                assert(e[key_index(e0, k)] == e0[key_index(e0, k)]);
            }
            assert(entry_of(e, k) == entry_of(e0, k));
        }
        if !reserved_key(k1) {
            let st = styled(p, empty_style(), d1).0;
            let i = name_index(names, k1);
            lemma_name_index_range(names, k1);
            lemma_name_index_range(names, k);
            if i >= 0 {
                assert(scope_table(p, e) == (names, styles.update(i, st)));
                if k1 != k {
                    let j = name_index(names, k);
                    if j >= 0 {
                        assert(j != i);
                    }
                }
            } else {
                assert(scope_table(p, e) == (names.push(k1), styles.push(st)));
                assert(names.push(k1).drop_last() =~= names);
                assert(names.push(k1).last() == k1);
                if k1 != k {
                    assert(name_index(names.push(k1), k) == name_index(names, k));
                    let j = name_index(names, k);
                    if j >= 0 {
                        assert(styles.push(st)[j] == styles[j]);
                    }
                } else {
                    assert(name_index(names.push(k1), k) == names.len());
                }
            }
        } else {
            assert(scope_table(p, e) == (names, styles));
        }
    }
}

/// Every top-level entry of a theme document, other than `palette` and
/// `inherits`, is a scope of the theme built from it, with the style that
/// its value yields; an entry with a bad attribute keeps the attributes
/// before it and costs no other entry anything.
pub proof fn lemma_theme_keeps_entries(t: Theme, e: Seq<(Seq<char>, Doc)>, k: Seq<char>, d: Doc)
    requires
        built_from(t, Doc::Table(e)),
        !reserved_key(k),
        entry_of(e, k) == Some(d),
    ensures
        t.exact(k) == Some(styled(document_palette(e), empty_style(), d).0),
{
    lemma_scope_table_entry(document_palette(e), e, k);
}

/// The two forms of a theme's scope table agree: the style that the mapping
/// gives to the scope at index `i` is the style at index `i`.
pub proof fn lemma_styles_consistent(t: Theme)
    requires
        t.wf(),
    ensures
        forall|i: int|
            0 <= i < t.scope_names().len() ==> t.styles().contains_key(#[trigger] t.scope_names()[i])
                && t.styles()[t.scope_names()[i]] == t.highlights()[i],
        forall|k: Seq<char>| #[trigger] t.styles().contains_key(k) ==> t.scope_names().contains(k),
{
    assert forall|i: int| 0 <= i < t.scope_names().len() implies t.styles().contains_key(
        #[trigger] t.scope_names()[i],
    ) && t.styles()[t.scope_names()[i]] == t.highlights()[i] by {
        lemma_name_index_unique(t.scope_names(), i);
    }
}

} // verus!
