//! Named colors, hex color literals, and the parsing of style attributes.
use vstd::prelude::*;
use crate::error::{Fault, ThemeError, faulted};
use crate::style::{Color, Modifier, Style, UnderlineStyle};
use crate::text::{chars_of, is_word};
use crate::value::{Doc, Value, entries_doc, entry_of, find_key, items_doc};

verus! {

/// The value of a hexadecimal digit.
pub open spec fn hex_digit(c: char) -> Option<u8> {
    if '0' <= c && c <= '9' {
        Some((c as u32 - '0' as u32) as u8)
    } else if 'a' <= c && c <= 'f' {
        Some((c as u32 - 'a' as u32 + 10) as u8)
    } else if 'A' <= c && c <= 'F' {
        Some((c as u32 - 'A' as u32 + 10) as u8)
    } else {
        None
    }
}

/// The byte written by the two hex digits of `s` at `i` and `i + 1`.
pub open spec fn hex_byte(s: Seq<char>, i: int) -> Option<u8> {
    match (hex_digit(s[i]), hex_digit(s[i + 1])) {
        (Some(h), Some(l)) => Some((h * 16 + l) as u8),
        _ => None,
    }
}

/// The RGB color that `s` writes as `#RRGGBB` (anything may follow the six
/// digits), if it does.
pub open spec fn hex_color(s: Seq<char>) -> Option<Color> {
    if s.len() >= 7 && s[0] == '#' {
        match (hex_byte(s, 1), hex_byte(s, 3), hex_byte(s, 5)) {
            (Some(r), Some(g), Some(b)) => Some(Color::Rgb(r, g, b)),
            _ => None,
        }
    } else {
        None
    }
}

/// The color that the last entry named `k` of the palette `p` gives.
pub open spec fn color_named(p: Seq<(Seq<char>, Color)>, k: Seq<char>) -> Option<Color>
    decreases p.len(),
{
    if p.len() == 0 {
        None
    } else if p.last().0 == k {
        Some(p.last().1)
    } else {
        color_named(p.drop_last(), k)
    }
}

/// The sixteen built-in color names.
pub open spec fn builtin_palette() -> Seq<(Seq<char>, Color)> {
    seq![
        ("black"@, Color::Black),
        ("red"@, Color::Red),
        ("green"@, Color::Green),
        ("yellow"@, Color::Yellow),
        ("blue"@, Color::Blue),
        ("magenta"@, Color::Magenta),
        ("cyan"@, Color::Cyan),
        ("gray"@, Color::Gray),
        ("light-red"@, Color::LightRed),
        ("light-green"@, Color::LightGreen),
        ("light-yellow"@, Color::LightYellow),
        ("light-blue"@, Color::LightBlue),
        ("light-magenta"@, Color::LightMagenta),
        ("light-cyan"@, Color::LightCyan),
        ("light-gray"@, Color::LightGray),
        ("white"@, Color::White),
    ]
}

/// What a color token resolves to against the palette `p`: a palette name
/// first, then a hex literal.
pub open spec fn resolve_token(p: Seq<(Seq<char>, Color)>, s: Seq<char>) -> Result<Color, Fault> {
    match color_named(p, s) {
        Some(c) => Ok(c),
        None => match hex_color(s) {
            Some(c) => Ok(c),
            None => Err(Fault::MalformedColor(s)),
        },
    }
}

/// What a document value resolves to as a color.
pub open spec fn color_of(p: Seq<(Seq<char>, Color)>, d: Doc) -> Result<Color, Fault> {
    match d {
        Doc::Str(s) => resolve_token(p, s),
        _ => Err(Fault::UnrecognizedValue),
    }
}

/// A table of named colors, looked up by the last entry of a name.
pub struct ThemePalette {
    palette: Vec<(String, Color)>,
}

impl View for ThemePalette {
    type V = Seq<(Seq<char>, Color)>;

    closed spec fn view(&self) -> Seq<(Seq<char>, Color)> {
        self.palette@.map_values(|e: (String, Color)| (e.0@, e.1))
    }
}

fn named(name: &str, c: Color) -> (r: (String, Color))
    ensures
        r.0@ == name@,
        r.1 == c,
{
    (name.to_owned(), c)
}

impl Default for ThemePalette {
    fn default() -> (r: ThemePalette)
        ensures
            r@ == builtin_palette(),
    {
        let palette = vec![
            named("black", Color::Black),
            named("red", Color::Red),
            named("green", Color::Green),
            named("yellow", Color::Yellow),
            named("blue", Color::Blue),
            named("magenta", Color::Magenta),
            named("cyan", Color::Cyan),
            named("gray", Color::Gray),
            named("light-red", Color::LightRed),
            named("light-green", Color::LightGreen),
            named("light-yellow", Color::LightYellow),
            named("light-blue", Color::LightBlue),
            named("light-magenta", Color::LightMagenta),
            named("light-cyan", Color::LightCyan),
            named("light-gray", Color::LightGray),
            named("white", Color::White),
        ];
        let r = ThemePalette { palette };
        assert(r@ =~= builtin_palette());
        r
    }
}

/// The value of one hex digit.
fn hex_digit_of(c: char) -> (r: Option<u8>)
    ensures
        r == hex_digit(c),
{
    if '0' <= c && c <= '9' {
        Some((c as u32 - '0' as u32) as u8)
    } else if 'a' <= c && c <= 'f' {
        Some((c as u32 - 'a' as u32 + 10) as u8)
    } else if 'A' <= c && c <= 'F' {
        Some((c as u32 - 'A' as u32 + 10) as u8)
    } else {
        None
    }
}

fn hex_byte_at(s: &Vec<char>, i: usize) -> (r: Option<u8>)
    requires
        i <= 5,
        i + 1 < s@.len(),
    ensures
        r == hex_byte(s@, i as int),
{
    match (hex_digit_of(s[i]), hex_digit_of(s[i + 1])) {
        (Some(h), Some(l)) => Some(h * 16 + l),
        _ => None,
    }
}

impl ThemePalette {
    /// The built-in names, overridden and extended by `palette`: a later
    /// entry of the same name wins.
    pub fn new(palette: Vec<(String, Color)>) -> (r: ThemePalette)
        ensures
            r@ == builtin_palette() + palette@.map_values(|e: (String, Color)| (e.0@, e.1)),
    {
        let mut p = ThemePalette::default().palette;
        let mut extra = palette;
        p.append(&mut extra);
        let r = ThemePalette { palette: p };
        assert(r@ =~= builtin_palette() + palette@.map_values(|e: (String, Color)| (e.0@, e.1)));
        r
    }

    /// Reads `#RRGGBB`: a `#` followed by at least six hex digits, of which
    /// the first six give red, green and blue.
    pub fn hex_string_to_rgb(s: &str) -> (r: Result<Color, ThemeError>)
        ensures
            faulted(r) == match hex_color(s@) {
                Some(c) => Ok(c),
                None => Err(Fault::MalformedColor(s@)),
            },
    {
        let cs = chars_of(s);
        if cs.len() >= 7 && cs[0] == '#' {
            match (hex_byte_at(&cs, 1), hex_byte_at(&cs, 3), hex_byte_at(&cs, 5)) {
                (Some(r), Some(g), Some(b)) => {
                    return Ok(Color::Rgb(r, g, b));
                },
                _ => {},
            }
        }
        Err(ThemeError::MalformedColor(s.to_owned()))
    }

    /// The color that the palette gives to `name`.
    pub fn lookup(&self, name: &String) -> (r: Option<Color>)
        ensures
            r == color_named(self@, name@),
    {
        let mut i: usize = self.palette.len();
        assert(self@.take(i as int) =~= self@);
        while i > 0
            invariant
                i <= self.palette@.len(),
                color_named(self@, name@) == color_named(self@.take(i as int), name@),
            decreases i,
        {
            assert(self@.take(i as int).drop_last() =~= self@.take(i - 1));
            if self.palette[i - 1].0 == *name {
                return Some(self.palette[i - 1].1);
            }
            i = i - 1;
        }
        None
    }

    /// Resolves a color token: a palette name first, then a hex literal.
    pub fn resolve(&self, token: &String) -> (r: Result<Color, ThemeError>)
        ensures
            faulted(r) == resolve_token(self@, token@),
    {
        match self.lookup(token) {
            Some(c) => Ok(c),
            None => ThemePalette::hex_string_to_rgb(token.as_str()),
        }
    }

    fn color_from(&self, value: &Value) -> (r: Result<Color, ThemeError>)
        ensures
            faulted(r) == color_of(self@, value@),
    {
        match value {
            Value::Str(s) => self.resolve(s),
            _ => Err(ThemeError::UnrecognizedValue),
        }
    }

    /// Resolves a document value as a color.
    pub fn parse_color(&self, value: Value) -> (r: Result<Color, ThemeError>)
        ensures
            faulted(r) == color_of(self@, value@),
    {
        self.color_from(&value)
    }
}

/// The modifier that a name stands for.
pub open spec fn modifier_named(s: Seq<char>) -> Option<Modifier> {
    if s == "bold"@ {
        Some(Modifier::Bold)
    } else if s == "dim"@ {
        Some(Modifier::Dim)
    } else if s == "italic"@ {
        Some(Modifier::Italic)
    } else if s == "slow_blink"@ {
        Some(Modifier::SlowBlink)
    } else if s == "rapid_blink"@ {
        Some(Modifier::RapidBlink)
    } else if s == "reversed"@ {
        Some(Modifier::Reversed)
    } else if s == "hidden"@ {
        Some(Modifier::Hidden)
    } else if s == "crossed_out"@ {
        Some(Modifier::CrossedOut)
    } else {
        None
    }
}

/// The underline shape that a name stands for.
pub open spec fn underline_named(s: Seq<char>) -> Option<UnderlineStyle> {
    if s == "line"@ {
        Some(UnderlineStyle::Line)
    } else if s == "curl"@ {
        Some(UnderlineStyle::Curl)
    } else if s == "dotted"@ {
        Some(UnderlineStyle::Dotted)
    } else if s == "dashed"@ {
        Some(UnderlineStyle::Dashed)
    } else if s == "double_line"@ {
        Some(UnderlineStyle::DoubleLine)
    } else {
        None
    }
}

/// A document value read as a modifier name.
pub open spec fn modifier_of(d: Doc) -> Result<Modifier, Fault> {
    match d {
        Doc::Str(s) => match modifier_named(s) {
            Some(m) => Ok(m),
            None => Err(Fault::InvalidModifier(s)),
        },
        _ => Err(Fault::UnrecognizedValue),
    }
}

/// A document value read as an underline shape.
pub open spec fn underline_style_of(d: Doc) -> Result<UnderlineStyle, Fault> {
    match d {
        Doc::Str(s) => match underline_named(s) {
            Some(u) => Ok(u),
            None => Err(Fault::InvalidUnderlineStyle(s)),
        },
        _ => Err(Fault::UnrecognizedValue),
    }
}

/// `st` with modifier `m` added.
pub open spec fn with_modifier(st: Style, m: Modifier) -> Style {
    Style {
        add_modifier: st.add_modifier | m.spec_bits(),
        sub_modifier: st.sub_modifier & !m.spec_bits(),
        ..st
    }
}

/// Applies a `modifiers` array to `st`, item by item, stopping at the
/// first bad item with what was applied before it.
pub open spec fn apply_modifiers(st: Style, items: Seq<Doc>) -> (Style, Result<(), Fault>)
    decreases items.len(),
{
    if items.len() == 0 {
        (st, Ok(()))
    } else {
        let (s1, r1) = apply_modifiers(st, items.drop_last());
        if r1 is Err {
            (s1, r1)
        } else if items.last() == Doc::Str("underlined"@) {
            (Style { underline_style: Some(UnderlineStyle::Line), ..s1 }, Ok(()))
        } else {
            match modifier_of(items.last()) {
                Ok(m) => (with_modifier(s1, m), Ok(())),
                Err(f) => (s1, Err(f)),
            }
        }
    }
}

/// Whether `k` is a key that an `underline` table may hold.
pub open spec fn underline_key(k: Seq<char>) -> bool {
    k == "color"@ || k == "style"@
}

/// The first key of `t` that an `underline` table may not hold.
pub open spec fn first_stray_key(t: Seq<(Seq<char>, Doc)>) -> Option<Seq<char>>
    decreases t.len(),
{
    if t.len() == 0 {
        None
    } else {
        match first_stray_key(t.drop_last()) {
            Some(k) => Some(k),
            None => if underline_key(t.last().0) {
                None
            } else {
                Some(t.last().0)
            },
        }
    }
}

/// Applies an `underline` table to `st`: its `color`, then its `style`,
/// then a check that it holds nothing else.
pub open spec fn apply_underline(p: Seq<(Seq<char>, Color)>, st: Style, t: Seq<(Seq<char>, Doc)>) -> (
    Style,
    Result<(), Fault>,
) {
    let c = match entry_of(t, "color"@) {
        Some(d) => match color_of(p, d) {
            Ok(c) => Ok(Style { underline_color: Some(c), ..st }),
            Err(f) => Err(f),
        },
        None => Ok(st),
    };
    match c {
        Err(f) => (st, Err(f)),
        Ok(s1) => {
            let u = match entry_of(t, "style"@) {
                Some(d) => match underline_style_of(d) {
                    Ok(u) => Ok(Style { underline_style: Some(u), ..s1 }),
                    Err(f) => Err(f),
                },
                None => Ok(s1),
            };
            match u {
                Err(f) => (s1, Err(f)),
                Ok(s2) => match first_stray_key(t) {
                    Some(k) => (s2, Err(Fault::InvalidUnderlineAttribute(k))),
                    None => (s2, Ok(())),
                },
            }
        },
    }
}

/// Applies one attribute `k = d` of a style table to `st`.
pub open spec fn apply_attribute(p: Seq<(Seq<char>, Color)>, st: Style, k: Seq<char>, d: Doc) -> (
    Style,
    Result<(), Fault>,
) {
    if k == "fg"@ {
        match color_of(p, d) {
            Ok(c) => (Style { fg: Some(c), ..st }, Ok(())),
            Err(f) => (st, Err(f)),
        }
    } else if k == "bg"@ {
        match color_of(p, d) {
            Ok(c) => (Style { bg: Some(c), ..st }, Ok(())),
            Err(f) => (st, Err(f)),
        }
    } else if k == "underline"@ {
        match d {
            Doc::Table(t) => apply_underline(p, st, t),
            _ => (st, Err(Fault::UnderlineNotTable)),
        }
    } else if k == "modifiers"@ {
        match d {
            Doc::Array(items) => apply_modifiers(st, items),
            _ => (st, Err(Fault::ModifiersNotArray)),
        }
    } else {
        (st, Err(Fault::InvalidAttribute(k)))
    }
}

/// Applies the attributes of a style table to `st` in document order,
/// stopping at the first bad one with what was applied before it.
pub open spec fn apply_attributes(p: Seq<(Seq<char>, Color)>, st: Style, e: Seq<(Seq<char>, Doc)>) -> (
    Style,
    Result<(), Fault>,
)
    decreases e.len(),
{
    if e.len() == 0 {
        (st, Ok(()))
    } else {
        let (s1, r1) = apply_attributes(p, st, e.drop_last());
        if r1 is Err {
            (s1, r1)
        } else {
            apply_attribute(p, s1, e.last().0, e.last().1)
        }
    }
}

/// Applies a style value to `st`: a table of attributes, or a bare color
/// token that sets the foreground.
pub open spec fn styled(p: Seq<(Seq<char>, Color)>, st: Style, d: Doc) -> (Style, Result<(), Fault>) {
    match d {
        Doc::Table(e) => apply_attributes(p, st, e),
        _ => match color_of(p, d) {
            Ok(c) => (Style { fg: Some(c), ..st }, Ok(())),
            Err(f) => (st, Err(f)),
        },
    }
}

proof fn lemma_modifiers_stop(st: Style, d: Seq<Doc>, n: int)
    requires
        0 <= n <= d.len(),
        apply_modifiers(st, d.take(n)).1 is Err,
    ensures
        apply_modifiers(st, d) == apply_modifiers(st, d.take(n)),
    decreases d.len(),
{
    if n == d.len() {
        assert(d.take(n) =~= d);
    } else {
        assert(d.drop_last().take(n) =~= d.take(n));
        lemma_modifiers_stop(st, d.drop_last(), n);
    }
}

proof fn lemma_attributes_stop(p: Seq<(Seq<char>, Color)>, st: Style, e: Seq<(Seq<char>, Doc)>, n: int)
    requires
        0 <= n <= e.len(),
        apply_attributes(p, st, e.take(n)).1 is Err,
    ensures
        apply_attributes(p, st, e) == apply_attributes(p, st, e.take(n)),
    decreases e.len(),
{
    if n == e.len() {
        assert(e.take(n) =~= e);
    } else {
        assert(e.drop_last().take(n) =~= e.take(n));
        lemma_attributes_stop(p, st, e.drop_last(), n);
    }
}

proof fn lemma_stray_stop(e: Seq<(Seq<char>, Doc)>, n: int)
    requires
        0 <= n <= e.len(),
        first_stray_key(e.take(n)) is Some,
    ensures
        first_stray_key(e) == first_stray_key(e.take(n)),
    decreases e.len(),
{
    if n == e.len() {
        assert(e.take(n) =~= e);
    } else {
        assert(e.drop_last().take(n) =~= e.take(n));
        lemma_stray_stop(e.drop_last(), n);
    }
}

impl ThemePalette {
    /// Reads a modifier name.
    pub fn parse_modifier(value: &Value) -> (r: Result<Modifier, ThemeError>)
        ensures
            faulted(r) == modifier_of(value@),
    {
        match value {
            Value::Str(s) => {
                if is_word(s, "bold") {
                    Ok(Modifier::Bold)
                } else if is_word(s, "dim") {
                    Ok(Modifier::Dim)
                } else if is_word(s, "italic") {
                    Ok(Modifier::Italic)
                } else if is_word(s, "slow_blink") {
                    Ok(Modifier::SlowBlink)
                } else if is_word(s, "rapid_blink") {
                    Ok(Modifier::RapidBlink)
                } else if is_word(s, "reversed") {
                    Ok(Modifier::Reversed)
                } else if is_word(s, "hidden") {
                    Ok(Modifier::Hidden)
                } else if is_word(s, "crossed_out") {
                    Ok(Modifier::CrossedOut)
                } else {
                    Err(ThemeError::InvalidModifier(s.clone()))
                }
            },
            _ => Err(ThemeError::UnrecognizedValue),
        }
    }

    /// Reads an underline shape name.
    pub fn parse_underline_style(value: &Value) -> (r: Result<UnderlineStyle, ThemeError>)
        ensures
            faulted(r) == underline_style_of(value@),
    {
        match value {
            Value::Str(s) => {
                if is_word(s, "line") {
                    Ok(UnderlineStyle::Line)
                } else if is_word(s, "curl") {
                    Ok(UnderlineStyle::Curl)
                } else if is_word(s, "dotted") {
                    Ok(UnderlineStyle::Dotted)
                } else if is_word(s, "dashed") {
                    Ok(UnderlineStyle::Dashed)
                } else if is_word(s, "double_line") {
                    Ok(UnderlineStyle::DoubleLine)
                } else {
                    Err(ThemeError::InvalidUnderlineStyle(s.clone()))
                }
            },
            _ => Err(ThemeError::UnrecognizedValue),
        }
    }

    fn apply_modifier_list(style: &mut Style, items: &Vec<Value>) -> (r: Result<(), ThemeError>)
        ensures
            (*final(style), faulted(r)) == apply_modifiers(*old(style), items_doc(items@)),
    {
        let ghost st0 = *style;
        let ghost d = items_doc(items@);
        proof {
            crate::value::lemma_items_doc(items@);
        }
        let mut i: usize = 0;
        while i < items.len()
            invariant
                i <= items@.len(),
                d == items_doc(items@),
                d.len() == items@.len(),
                forall|j: int| 0 <= j < items@.len() ==> #[trigger] d[j] == crate::value::doc_of(items@[j]),
                st0 == *old(style),
                (*style, Ok::<(), Fault>(())) == apply_modifiers(st0, d.take(i as int)),
            decreases items@.len() - i,
        {
            assert(d.take(i + 1).drop_last() =~= d.take(i as int));
            assert(d.take(i + 1).last() == d[i as int]);
            let underlined = match &items[i] {
                Value::Str(s) => is_word(s, "underlined"),
                _ => false,
            };
            if underlined {
                *style = style.underline_style(UnderlineStyle::Line);
            } else {
                match ThemePalette::parse_modifier(&items[i]) {
                    Ok(m) => {
                        *style = style.add_modifier(m);
                    },
                    Err(e) => {
                        proof {
                            lemma_modifiers_stop(st0, d, i + 1);
                        }
                        return Err(e);
                    },
                }
            }
            i = i + 1;
        }
        assert(d.take(items@.len() as int) =~= d);
        Ok(())
    }

    fn apply_underline_table(&self, style: &mut Style, t: &Vec<(String, Value)>) -> (r: Result<(), ThemeError>)
        ensures
            (*final(style), faulted(r)) == apply_underline(self@, *old(style), entries_doc(t@)),
    {
        let ghost e = entries_doc(t@);
        proof {
            crate::value::lemma_entries_doc(t@);
        }
        let color_key = chars_of("color");
        proof {
            crate::value::lemma_key_index_range(e, color_key@);
        }
        match find_key(t, &color_key) {
            Some(i) => {
                match self.color_from(&t[i].1) {
                    Ok(c) => {
                        *style = style.underline_color(c);
                    },
                    Err(err) => {
                        return Err(err);
                    },
                }
            },
            None => {},
        }
        let style_key = chars_of("style");
        proof {
            crate::value::lemma_key_index_range(e, style_key@);
        }
        match find_key(t, &style_key) {
            Some(i) => {
                match ThemePalette::parse_underline_style(&t[i].1) {
                    Ok(u) => {
                        *style = style.underline_style(u);
                    },
                    Err(err) => {
                        return Err(err);
                    },
                }
            },
            None => {},
        }
        let ghost s2 = *style;
        assert(apply_underline(self@, *old(style), e) == match first_stray_key(e) {
            Some(k) => (s2, Err(Fault::InvalidUnderlineAttribute(k))),
            None => (s2, Ok(())),
        });
        let mut j: usize = 0;
        while j < t.len()
            invariant
                *style == s2,
                apply_underline(self@, *old(style), e) == match first_stray_key(e) {
                    Some(k) => (s2, Err(Fault::InvalidUnderlineAttribute(k))),
                    None => (s2, Ok(())),
                },
                j <= t@.len(),
                e == entries_doc(t@),
                e.len() == t@.len(),
                forall|k: int| 0 <= k < t@.len() ==> #[trigger] e[k] == (t@[k].0@, crate::value::doc_of(t@[k].1)),
                first_stray_key(e.take(j as int)) is None,
            decreases t@.len() - j,
        {
            assert(e.take(j + 1).drop_last() =~= e.take(j as int));
            assert(e.take(j + 1).last() == e[j as int]);
            if !is_word(&t[j].0, "color") && !is_word(&t[j].0, "style") {
                proof {
                    lemma_stray_stop(e, j + 1);
                }
                return Err(ThemeError::InvalidUnderlineAttribute(t[j].0.clone()));
            }
            j = j + 1;
        }
        assert(e.take(t@.len() as int) =~= e);
        Ok(())
    }

    fn apply_attribute_value(&self, style: &mut Style, name: &String, value: &Value) -> (r: Result<(), ThemeError>)
        ensures
            (*final(style), faulted(r)) == apply_attribute(self@, *old(style), name@, value@),
    {
        if is_word(name, "fg") {
            let c = self.color_from(value)?;
            *style = style.fg(c);
            Ok(())
        } else if is_word(name, "bg") {
            let c = self.color_from(value)?;
            *style = style.bg(c);
            Ok(())
        } else if is_word(name, "underline") {
            match value {
                Value::Table(t) => self.apply_underline_table(style, t),
                _ => Err(ThemeError::UnderlineNotTable),
            }
        } else if is_word(name, "modifiers") {
            match value {
                Value::Array(items) => ThemePalette::apply_modifier_list(style, items),
                _ => Err(ThemeError::ModifiersNotArray),
            }
        } else {
            Err(ThemeError::InvalidAttribute(name.clone()))
        }
    }

    /// Applies a style value to `style`: a table of `fg`, `bg`, `underline`
    /// and `modifiers` attributes in document order, or a bare color token
    /// for the foreground. On a bad attribute the attributes before it stay
    /// applied and the error is returned.
    pub fn parse_style(&self, style: &mut Style, value: Value) -> (r: Result<(), ThemeError>)
        ensures
            (*final(style), faulted(r)) == styled(self@, *old(style), value@),
    {
        match &value {
            Value::Table(entries) => {
                let ghost st0 = *style;
                let ghost e = entries_doc(entries@);
                proof {
                    crate::value::lemma_entries_doc(entries@);
                }
                let mut i: usize = 0;
                while i < entries.len()
                    invariant
                        i <= entries@.len(),
                        e == entries_doc(entries@),
                        e.len() == entries@.len(),
                        forall|k: int| 0 <= k < entries@.len() ==> #[trigger] e[k] == (entries@[k].0@, crate::value::doc_of(entries@[k].1)),
                        st0 == *old(style),
                        value@ == Doc::Table(e),
                        (*style, Ok::<(), Fault>(())) == apply_attributes(self@, st0, e.take(i as int)),
                    decreases entries@.len() - i,
                {
                    assert(e.take(i + 1).drop_last() =~= e.take(i as int));
                    assert(e.take(i + 1).last() == e[i as int]);
                    let r = self.apply_attribute_value(style, &entries[i].0, &entries[i].1);
                    if r.is_err() {
                        proof {
                            lemma_attributes_stop(self@, st0, e, i + 1);
                        }
                        return r;
                    }
                    i = i + 1;
                }
                assert(e.take(entries@.len() as int) =~= e);
                Ok(())
            },
            _ => {
                let c = self.color_from(&value)?;
                *style = style.fg(c);
                Ok(())
            },
        }
    }
}

/// The named colors of a document palette table, in order: each value must
/// be a `#RRGGBB` string; the first one that is not makes the whole table fail.
pub open spec fn palette_entries(e: Seq<(Seq<char>, Doc)>) -> Result<Seq<(Seq<char>, Color)>, Fault>
    decreases e.len(),
{
    if e.len() == 0 {
        Ok(Seq::empty())
    } else {
        match palette_entries(e.drop_last()) {
            Err(f) => Err(f),
            Ok(ps) => match e.last().1 {
                Doc::Str(s) => match hex_color(s) {
                    Some(c) => Ok(ps.push((e.last().0, c))),
                    None => Err(Fault::MalformedColor(s)),
                },
                _ => Err(Fault::UnrecognizedValue),
            },
        }
    }
}

/// The palette that a document's `palette` value gives: the built-in names
/// followed by the table's entries. A value that is not a table gives the
/// built-in names alone.
pub open spec fn palette_of(d: Doc) -> Result<Seq<(Seq<char>, Color)>, Fault> {
    match d {
        Doc::Table(e) => match palette_entries(e) {
            Ok(ps) => Ok(builtin_palette() + ps),
            Err(f) => Err(f),
        },
        _ => Ok(builtin_palette()),
    }
}

proof fn lemma_palette_entries_stop(e: Seq<(Seq<char>, Doc)>, n: int)
    requires
        0 <= n <= e.len(),
        palette_entries(e.take(n)) is Err,
    ensures
        palette_entries(e) == palette_entries(e.take(n)),
    decreases e.len(),
{
    if n == e.len() {
        assert(e.take(n) =~= e);
    } else {
        assert(e.drop_last().take(n) =~= e.take(n));
        lemma_palette_entries_stop(e.drop_last(), n);
    }
}

impl ThemePalette {
    /// Reads a document's `palette` value.
    pub fn try_from_value(value: Value) -> (r: Result<ThemePalette, ThemeError>)
        ensures
            match r {
                Ok(p) => palette_of(value@) == Ok::<Seq<(Seq<char>, Color)>, Fault>(p@),
                Err(e) => palette_of(value@) == Err::<Seq<(Seq<char>, Color)>, Fault>(e@),
            },
    {
        match &value {
            Value::Table(entries) => {
                let ghost e = entries_doc(entries@);
                proof {
                    crate::value::lemma_entries_doc(entries@);
                }
                let mut found: Vec<(String, Color)> = Vec::new();
                let mut i: usize = 0;
                assert(e.take(0) =~= Seq::<(Seq<char>, Doc)>::empty());
                assert(found@.map_values(|x: (String, Color)| (x.0@, x.1)) =~= Seq::<(Seq<char>, Color)>::empty());
                while i < entries.len()
                    invariant
                        i <= entries@.len(),
                        e == entries_doc(entries@),
                        e.len() == entries@.len(),
                        value@ == Doc::Table(e),
                        forall|k: int| 0 <= k < entries@.len() ==> #[trigger] e[k] == (entries@[k].0@, crate::value::doc_of(entries@[k].1)),
                        palette_entries(e.take(i as int)) == Ok::<Seq<(Seq<char>, Color)>, Fault>(
                            found@.map_values(|x: (String, Color)| (x.0@, x.1)),
                        ),
                    decreases entries@.len() - i,
                {
                    assert(e.take(i + 1).drop_last() =~= e.take(i as int));
                    assert(e.take(i + 1).last() == e[i as int]);
                    match &entries[i].1 {
                        Value::Str(s) => {
                            match ThemePalette::hex_string_to_rgb(s.as_str()) {
                                Ok(c) => {
                                    let ghost before = found@;
                                    found.push((entries[i].0.clone(), c));
                                    assert(found@.map_values(|x: (String, Color)| (x.0@, x.1)) =~= before.map_values(
                                        |x: (String, Color)| (x.0@, x.1),
                                    ).push((entries@[i as int].0@, c)));
                                },
                                Err(err) => {
                                    proof {
                                        lemma_palette_entries_stop(e, i + 1);
                                    }
                                    return Err(err);
                                },
                            }
                        },
                        _ => {
                            proof {
                                lemma_palette_entries_stop(e, i + 1);
                            }
                            return Err(ThemeError::UnrecognizedValue);
                        },
                    }
                    i = i + 1;
                }
                assert(e.take(entries@.len() as int) =~= e);
                Ok(ThemePalette::new(found))
            },
            _ => Ok(ThemePalette::default()),
        }
    }
}

} // verus!
