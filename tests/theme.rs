use helix_theme::error::ThemeError;
use helix_theme::loader::{inherits, merge_flavors, Loader};
use helix_theme::palette::ThemePalette;
use helix_theme::style::{Color, Modifier, Style, UnderlineStyle};
use helix_theme::theme::{build_theme_values, Theme};
use helix_theme::value::{copy_value, merge_values, Value};

fn s(x: &str) -> Value {
    Value::Str(x.to_string())
}

fn table(entries: Vec<(&str, Value)>) -> Value {
    Value::Table(entries.into_iter().map(|(k, v)| (k.to_string(), v)).collect())
}

fn array(items: Vec<Value>) -> Value {
    Value::Array(items)
}

fn entry<'a>(v: &'a Value, key: &str) -> Option<&'a Value> {
    match v {
        Value::Table(e) => e.iter().rev().find(|(k, _)| k == key).map(|(_, v)| v),
        _ => None,
    }
}

#[test]
fn test_parse_style_string() {
    let fg = s("#ffffff");

    let mut style = Style::default();
    let palette = ThemePalette::default();
    palette.parse_style(&mut style, fg).unwrap();

    assert_eq!(style, Style::default().fg(Color::Rgb(255, 255, 255)));
}

#[test]
fn test_palette() {
    let fg = s("my_color");

    let mut style = Style::default();
    let palette = ThemePalette::new(vec![("my_color".to_string(), Color::Rgb(255, 255, 255))]);
    palette.parse_style(&mut style, fg).unwrap();

    assert_eq!(style, Style::default().fg(Color::Rgb(255, 255, 255)));
}

#[test]
fn test_parse_style_table() {
    let doc = table(vec![(
        "keyword",
        table(vec![
            ("fg", s("#ffffff")),
            ("bg", s("#000000")),
            ("modifiers", array(vec![s("bold")])),
        ]),
    )]);

    let mut style = Style::default();
    let palette = ThemePalette::default();
    if let Value::Table(entries) = doc {
        for (_name, value) in entries {
            palette.parse_style(&mut style, value).unwrap();
        }
    }

    assert_eq!(
        style,
        Style::default()
            .fg(Color::Rgb(255, 255, 255))
            .bg(Color::Rgb(0, 0, 0))
            .add_modifier(Modifier::Bold)
    );
}

#[test]
fn hex_round_trip_samples() {
    let samples: [(&str, (u8, u8, u8)); 6] = [
        ("#000000", (0, 0, 0)),
        ("#ffffff", (255, 255, 255)),
        ("#FF8000", (255, 128, 0)),
        ("#0a1B2c", (10, 27, 44)),
        ("#7f7f7f", (127, 127, 127)),
        ("#123456ff", (0x12, 0x34, 0x56)),
    ];
    for (hex, (r, g, b)) in samples {
        assert_eq!(ThemePalette::hex_string_to_rgb(hex), Ok(Color::Rgb(r, g, b)));
    }
}

#[test]
fn hex_rejects_malformed() {
    for bad in ["ffffff", "#fffff", "#gg0000", "#12345", "", "#+f0000"] {
        assert_eq!(
            ThemePalette::hex_string_to_rgb(bad),
            Err(ThemeError::MalformedColor(bad.to_string()))
        );
    }
}

#[test]
fn builtin_names_resolve() {
    let palette = ThemePalette::default();
    assert_eq!(palette.parse_color(s("red")), Ok(Color::Red));
    assert_eq!(palette.parse_color(s("light-gray")), Ok(Color::LightGray));
    assert_eq!(palette.parse_color(s("white")), Ok(Color::White));
    assert_eq!(
        palette.parse_color(s("not_a_color")),
        Err(ThemeError::MalformedColor("not_a_color".to_string()))
    );
    assert_eq!(palette.parse_color(Value::Other("3".to_string())), Err(ThemeError::UnrecognizedValue));
}

#[test]
fn document_palette_overrides_builtin() {
    let palette = ThemePalette::try_from_value(table(vec![("red", s("#010203"))])).unwrap();
    assert_eq!(palette.parse_color(s("red")), Ok(Color::Rgb(1, 2, 3)));
    assert_eq!(palette.parse_color(s("blue")), Ok(Color::Blue));

    let doc = table(vec![
        ("palette", table(vec![("red", s("#010203"))])),
        ("ui.text", table(vec![("fg", s("red"))])),
        ("keyword", s("red")),
    ]);
    let theme = Theme::from_value("t".to_string(), doc);
    assert_eq!(theme.get("ui.text").fg, Some(Color::Rgb(1, 2, 3)));
    assert_eq!(theme.get("keyword").fg, Some(Color::Rgb(1, 2, 3)));
}

#[test]
fn palette_rejects_chained_names() {
    assert_eq!(
        ThemePalette::try_from_value(table(vec![("accent", s("red"))])).err(),
        Some(ThemeError::MalformedColor("red".to_string()))
    );
    assert_eq!(
        ThemePalette::try_from_value(table(vec![("accent", Value::Other("1".to_string()))])).err(),
        Some(ThemeError::UnrecognizedValue)
    );
    let doc = table(vec![
        ("palette", table(vec![("accent", s("red")), ("red", s("#010203"))])),
        ("ui", s("red")),
    ]);
    let theme = Theme::from_value("t".to_string(), doc);
    assert_eq!(theme.get("ui").fg, Some(Color::Red));
}

#[test]
fn fallback_lookup() {
    let doc = table(vec![
        ("ui", table(vec![("fg", s("red"))])),
        ("ui.text", table(vec![("fg", s("blue"))])),
    ]);
    let theme = Theme::from_value("t".to_string(), doc);
    let text = Style::default().fg(Color::Blue);
    assert_eq!(theme.try_get("ui.text.focus"), Some(text));
    assert_eq!(theme.try_get("ui.text"), Some(text));
    assert_eq!(theme.try_get("ui.menu"), Some(Style::default().fg(Color::Red)));
    assert_eq!(theme.try_get("diagnostic.error"), None);
    assert_eq!(theme.try_get_exact("ui.text.focus"), None);
    assert_eq!(theme.try_get_exact("ui.text"), Some(text));
    assert_eq!(theme.get("diagnostic.error"), Style::default());
    assert_eq!(theme.try_get("ui"), Some(Style::default().fg(Color::Red)));
    assert_eq!(theme.try_get("uix"), None);
}

#[test]
fn scopes_and_highlights_agree() {
    let doc = table(vec![
        ("inherits", s("base")),
        ("keyword", s("red")),
        ("palette", table(vec![])),
        ("comment", table(vec![("bg", s("#101010"))])),
        ("keyword", s("green")),
    ]);
    let theme = Theme::from_value("t".to_string(), doc);
    let names: Vec<&str> = theme.scopes().iter().map(|s| s.as_str()).collect();
    assert_eq!(names, vec!["keyword", "comment"]);
    for (i, name) in theme.scopes().iter().enumerate() {
        assert_eq!(theme.try_get_exact(name), Some(theme.highlight(i)));
        assert_eq!(theme.find_scope_index(name), Some(i));
    }
    assert_eq!(theme.highlight(0).fg, Some(Color::Green));
    assert_eq!(theme.find_scope_index("missing"), None);
    assert_eq!(theme.find_scope_index("inherits"), None);
    assert_eq!(theme.name(), "t");
}

#[test]
fn malformed_entry_keeps_others() {
    let doc = table(vec![
        ("ui.good", table(vec![("fg", s("red"))])),
        ("ui.bad", table(vec![("fg", s("not_a_color"))])),
        ("ui.partial", table(vec![("bg", s("blue")), ("wrong", s("x")), ("fg", s("red"))])),
        ("keyword", s("green")),
    ]);
    if let Value::Table(entries) = doc {
        let (scopes, highlights, warnings) = build_theme_values(entries);
        assert_eq!(scopes, vec!["ui.good", "ui.bad", "ui.partial", "keyword"]);
        assert_eq!(highlights[0], Style::default().fg(Color::Red));
        assert_eq!(highlights[1], Style::default());
        assert_eq!(highlights[2], Style::default().bg(Color::Blue));
        assert_eq!(highlights[3], Style::default().fg(Color::Green));
        assert_eq!(
            warnings,
            vec![
                ThemeError::MalformedColor("not_a_color".to_string()),
                ThemeError::InvalidAttribute("wrong".to_string()),
            ]
        );
    } else {
        unreachable!();
    }
}

#[test]
fn style_attribute_errors() {
    let palette = ThemePalette::default();
    let cases: Vec<(Value, ThemeError)> = vec![
        (table(vec![("fgg", s("red"))]), ThemeError::InvalidAttribute("fgg".to_string())),
        (table(vec![("underline", s("red"))]), ThemeError::UnderlineNotTable),
        (
            table(vec![("underline", table(vec![("colour", s("red"))]))]),
            ThemeError::InvalidUnderlineAttribute("colour".to_string()),
        ),
        (
            table(vec![("underline", table(vec![("style", s("wavy"))]))]),
            ThemeError::InvalidUnderlineStyle("wavy".to_string()),
        ),
        (table(vec![("modifiers", s("bold"))]), ThemeError::ModifiersNotArray),
        (
            table(vec![("modifiers", array(vec![s("bold"), s("blinking")]))]),
            ThemeError::InvalidModifier("blinking".to_string()),
        ),
        (table(vec![("modifiers", array(vec![Value::Other("1".to_string())]))]), ThemeError::UnrecognizedValue),
    ];
    for (value, err) in cases {
        let mut style = Style::default();
        assert_eq!(palette.parse_style(&mut style, value), Err(err));
    }
}

#[test]
fn underline_and_modifiers() {
    let palette = ThemePalette::default();
    let mut style = Style::default();
    let value = table(vec![
        ("underline", table(vec![("color", s("#102030")), ("style", s("curl"))])),
        ("modifiers", array(vec![s("italic"), s("underlined"), s("crossed_out")])),
    ]);
    palette.parse_style(&mut style, value).unwrap();
    let expected = Style::default()
        .underline_color(Color::Rgb(0x10, 0x20, 0x30))
        .underline_style(UnderlineStyle::Line)
        .add_modifier(Modifier::Italic)
        .add_modifier(Modifier::CrossedOut);
    assert_eq!(style, expected);
    assert!(style.has_modifier(Modifier::Italic));
    assert!(!style.has_modifier(Modifier::Bold));
    assert_eq!(style.add_modifier, 0x104);

    let mut partial = Style::default();
    let bad = table(vec![("modifiers", array(vec![s("bold"), s("nope"), s("dim")]))]);
    assert!(palette.parse_style(&mut partial, bad).is_err());
    assert_eq!(partial, Style::default().add_modifier(Modifier::Bold));
}

#[test]
fn modifier_and_underline_names() {
    let names = [
        ("bold", Modifier::Bold),
        ("dim", Modifier::Dim),
        ("italic", Modifier::Italic),
        ("slow_blink", Modifier::SlowBlink),
        ("rapid_blink", Modifier::RapidBlink),
        ("reversed", Modifier::Reversed),
        ("hidden", Modifier::Hidden),
        ("crossed_out", Modifier::CrossedOut),
    ];
    for (n, m) in names {
        assert_eq!(ThemePalette::parse_modifier(&s(n)), Ok(m));
    }
    assert_eq!(ThemePalette::parse_underline_style(&s("double_line")), Ok(UnderlineStyle::DoubleLine));
    assert_eq!(ThemePalette::parse_underline_style(&s("dotted")), Ok(UnderlineStyle::Dotted));
    assert_eq!(ThemePalette::parse_underline_style(&s("dashed")), Ok(UnderlineStyle::Dashed));
}

#[test]
fn merge_keeps_parent_palette_and_scopes() {
    let parent = table(vec![
        ("palette", table(vec![("red", s("#ff0000"))])),
        ("ui.text", table(vec![("fg", s("red"))])),
    ]);
    let child = table(vec![("palette", table(vec![("blue", s("#0000ff"))]))]);
    let merged = merge_flavors(parent, child);
    let palette = entry(&merged, "palette").unwrap();
    assert_eq!(entry(palette, "red"), Some(&s("#ff0000")));
    assert_eq!(entry(palette, "blue"), Some(&s("#0000ff")));
    assert_eq!(entry(&merged, "ui.text"), Some(&table(vec![("fg", s("red"))])));
    let theme = Theme::from_value("child".to_string(), merged);
    assert_eq!(theme.get("ui.text").fg, Some(Color::Rgb(255, 0, 0)));
}

#[test]
fn merge_replaces_child_scope_wholesale() {
    let parent = table(vec![(
        "ui.text",
        table(vec![("fg", s("red")), ("modifiers", array(vec![s("bold")]))]),
    )]);
    let child = table(vec![("ui.text", table(vec![("fg", s("blue"))]))]);
    let merged = merge_flavors(parent, child);
    let theme = Theme::from_value("child".to_string(), merged);
    let st = theme.get("ui.text");
    assert_eq!(st.fg, Some(Color::Blue));
    assert!(!st.has_modifier(Modifier::Bold));
    assert_eq!(st, Style::default().fg(Color::Blue));
}

#[test]
fn merge_without_palettes_adds_empty_one() {
    let merged = merge_flavors(table(vec![("a", s("red"))]), table(vec![("b", s("blue"))]));
    assert_eq!(
        merged,
        table(vec![("a", s("red")), ("b", s("blue")), ("palette", table(vec![]))])
    );
}

#[test]
fn merge_depths() {
    let left = table(vec![("t", table(vec![("x", s("1")), ("y", s("2"))]))]);
    let right = table(vec![("t", table(vec![("y", s("3"))])), ("u", s("4"))]);
    assert_eq!(
        merge_values(copy_value(&left), copy_value(&right), 1),
        table(vec![("t", table(vec![("y", s("3"))])), ("u", s("4"))])
    );
    assert_eq!(
        merge_values(copy_value(&left), copy_value(&right), 2),
        table(vec![("t", table(vec![("x", s("1")), ("y", s("3"))])), ("u", s("4"))])
    );
    assert_eq!(merge_values(left, copy_value(&right), 0), right);
}

#[test]
fn sixteen_color_detection() {
    let named = Theme::from_value(
        "t".to_string(),
        table(vec![("ui", table(vec![("fg", s("red")), ("bg", s("black"))])), ("keyword", s("cyan"))]),
    );
    assert!(named.is_16_color());
    let with_rgb = Theme::from_value(
        "t".to_string(),
        table(vec![("ui", table(vec![("fg", s("red"))])), ("keyword", table(vec![("bg", s("#101010"))]))]),
    );
    assert!(!with_rgb.is_16_color());
    let underline_rgb = Theme::from_value(
        "t".to_string(),
        table(vec![("ui", table(vec![("underline", table(vec![("color", s("#101010"))]))]))]),
    );
    assert!(underline_rgb.is_16_color());
}

fn loader() -> Loader {
    Loader::new(
        table(vec![("ui", s("#202020"))]),
        table(vec![("ui", s("gray")), ("palette", table(vec![]))]),
    )
}

#[test]
fn loader_builtins_and_chain() {
    let l = loader();
    assert_eq!(l.default().name(), "default");
    assert_eq!(l.base16_default().name(), "base16_default");
    assert!(!l.default_theme(true).is_16_color());
    assert!(l.default_theme(false).is_16_color());
    assert_eq!(l.load("default", vec![]).unwrap().get("ui").fg, Some(Color::Rgb(0x20, 0x20, 0x20)));
    assert_eq!(l.load("base16_default", vec![]).unwrap().get("ui").fg, Some(Color::Gray));
    assert!(l.default_data("default").is_some());
    assert!(l.default_data("mine").is_none());

    let mine = table(vec![("inherits", s("default")), ("keyword", s("red"))]);
    assert_eq!(inherits(&mine), Ok(Some("default".to_string())));
    let root = l.default_data("default").unwrap();
    let t = l.load("mine", vec![mine, root]).unwrap();
    assert_eq!(t.name(), "mine");
    assert_eq!(t.get("ui").fg, Some(Color::Rgb(0x20, 0x20, 0x20)));
    assert_eq!(t.get("keyword").fg, Some(Color::Red));
}

#[test]
fn loader_errors() {
    let l = loader();
    assert_eq!(l.load("mine", vec![]).err(), Some(ThemeError::ThemeNotFound("mine".to_string())));
    assert_eq!(l.load("mine", vec![s("x")]).err(), Some(ThemeError::DocumentNotATable));
    assert_eq!(inherits(&table(vec![("inherits", Value::Other("1".to_string()))])), Err(ThemeError::InheritsNotString));
    assert_eq!(inherits(&table(vec![])), Ok(None));
}
