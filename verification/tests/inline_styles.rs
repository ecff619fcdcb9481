use std::str::FromStr;

use code_highlight::inline::InlineHighlighter;
use code_highlight::selection::{default_syntaxes, SyntaxAndTheme};
use syntect::highlighting::{
    Color, FontStyle, ScopeSelectors, Style, StyleModifier, Theme, ThemeItem, ThemeSet,
};
use syntect::easy::HighlightLines;
use syntect::html::{styled_line_to_highlighted_html, IncludeBackground};
use syntect::util::LinesWithEndings;

fn rgb(r: u8, g: u8, b: u8) -> Color {
    Color { r, g, b, a: 0xFF }
}

fn has_bare_span(html: &str) -> bool {
    html.match_indices("<span")
        .any(|(p, _)| !html[p + 5..].starts_with(" style=\"background-color:"))
}

fn theme_with(fg: Option<Color>, bg: Option<Color>, line: Option<Color>) -> Theme {
    let mut theme = Theme::default();
    theme.settings.foreground = fg;
    theme.settings.background = bg;
    theme.settings.line_highlight = line;
    theme
}

#[test]
fn can_highlight_inline() {
    let syntax_set = default_syntaxes();
    let theme_set = ThemeSet::load_defaults();
    let code = "import zen\nz = x + y\nprint('hello')\n";
    let syntax_and_theme = SyntaxAndTheme::for_token(
        &syntax_set,
        "py",
        Some(&theme_set.themes["base16-ocean.dark"]),
    )
    .unwrap();
    let mut highlighter = InlineHighlighter::new(
        syntax_and_theme.syntax,
        syntax_and_theme.syntax_set,
        syntax_and_theme.theme.unwrap(),
    );
    let mut out = String::new();
    for line in LinesWithEndings::from(code) {
        out.push_str(&highlighter.highlight_line(line));
    }

    assert!(out.starts_with(r#"<span style="color"#));
    assert!(out.ends_with("</span>"));
}

#[test]
fn inline_line_has_exact_markup() {
    let syntax_set = default_syntaxes();
    let theme_set = ThemeSet::load_defaults();
    let theme = &theme_set.themes["base16-ocean.dark"];
    let s = SyntaxAndTheme::for_token(&syntax_set, "Ruby", Some(theme)).unwrap();
    let mut highlighter = InlineHighlighter::new(s.syntax, s.syntax_set, theme);
    assert_eq!(
        highlighter.highlight_line("5\n"),
        "<span style=\"color:#d08770;\">5\n</span>"
    );
}

#[test]
fn default_foreground_is_not_declared() {
    let syntax_set = default_syntaxes();
    let mut theme = theme_with(Some(rgb(0x12, 0x34, 0x56)), Some(rgb(1, 2, 3)), None);
    theme.scopes.push(ThemeItem {
        scope: ScopeSelectors::from_str("keyword").unwrap(),
        style: StyleModifier {
            foreground: Some(rgb(0x12, 0x34, 0x56)),
            background: None,
            font_style: None,
        },
    });
    theme.scopes.push(ThemeItem {
        scope: ScopeSelectors::from_str("string").unwrap(),
        style: StyleModifier {
            foreground: Some(rgb(0xaa, 0xbb, 0xcc)),
            background: None,
            font_style: None,
        },
    });
    let s = SyntaxAndTheme::for_token(&syntax_set, "py", Some(&theme)).unwrap();
    let mut highlighter = InlineHighlighter::new(s.syntax, s.syntax_set, &theme);
    let mut out = String::new();
    for line in LinesWithEndings::from("import zen\nz = 'a' + y\n") {
        let html = highlighter.highlight_line(line);
        assert!(!html.contains(" style=\"color:#123456;\""));
        out.push_str(&html);
    }
    assert!(out.starts_with("<span>import"));
    assert!(out.contains("<span style=\"color:#aabbcc;\">"));
    assert!(!out.contains("#123456"));
}

#[test]
fn region_with_the_default_foreground_loses_its_attribute() {
    let syntax_set = default_syntaxes();
    let theme = theme_with(Some(rgb(0x12, 0x34, 0x56)), Some(rgb(1, 2, 3)), None);
    let s = SyntaxAndTheme::for_token(&syntax_set, "py", Some(&theme)).unwrap();
    let highlighter = InlineHighlighter::new(s.syntax, s.syntax_set, &theme);
    let plain = Style {
        foreground: rgb(0x12, 0x34, 0x56),
        background: rgb(1, 2, 3),
        font_style: FontStyle::empty(),
    };
    let other = Style { foreground: rgb(0xff, 0, 0), ..plain };
    let bold = Style { font_style: FontStyle::BOLD, ..plain };
    let regions = vec![(plain, "a<b"), (other, "c"), (bold, "d")];
    assert_eq!(
        highlighter.render_regions(&regions),
        "<span>a&lt;b</span><span style=\"color:#ff0000;\">c</span><span style=\"font-weight:bold;color:#123456;\">d</span>"
    );
}

#[test]
fn attribute_written_in_the_text_is_removed_too() {
    let syntax_set = default_syntaxes();
    let theme = theme_with(Some(rgb(0, 0, 0)), None, None);
    let s = SyntaxAndTheme::for_token(&syntax_set, "txt", Some(&theme)).unwrap();
    let highlighter = InlineHighlighter::new(s.syntax, s.syntax_set, &theme);
    let style = Style { foreground: rgb(9, 9, 9), background: rgb(255, 255, 255), font_style: FontStyle::empty() };
    let regions = vec![(style, "a style=color:#000000; b")];
    assert_eq!(
        highlighter.render_regions(&regions),
        "<span style=\"color:#090909;\">a style=color:#000000; b</span>"
    );
}

#[test]
fn background_is_declared_only_where_it_differs() {
    let syntax_set = default_syntaxes();
    let theme = theme_with(Some(rgb(0, 0, 0)), Some(rgb(0x10, 0x20, 0x30)), None);
    let s = SyntaxAndTheme::for_token(&syntax_set, "py", Some(&theme)).unwrap();
    let highlighter = InlineHighlighter::new(s.syntax, s.syntax_set, &theme);
    let same = Style {
        foreground: rgb(0xff, 0, 0),
        background: rgb(0x10, 0x20, 0x30),
        font_style: FontStyle::empty(),
    };
    let html = highlighter.render_regions(&vec![(same, "x")]);
    assert_eq!(html, "<span style=\"color:#ff0000;\">x</span>");
    assert!(!html.contains("background-color"));

    let differs = Style { background: rgb(0x10, 0x20, 0x31), ..same };
    let html = highlighter.render_regions(&vec![(differs, "x")]);
    assert_eq!(html, "<span style=\"background-color:#102031;color:#ff0000;\">x</span>");
}

#[test]
fn background_falls_back_to_white() {
    let syntax_set = default_syntaxes();
    let theme = theme_with(None, None, None);
    let s = SyntaxAndTheme::for_token(&syntax_set, "py", Some(&theme)).unwrap();
    let highlighter = InlineHighlighter::new(s.syntax, s.syntax_set, &theme);
    let white = Style { foreground: rgb(1, 1, 1), background: rgb(255, 255, 255), font_style: FontStyle::empty() };
    assert_eq!(
        highlighter.render_regions(&vec![(white, "x")]),
        "<span style=\"color:#010101;\">x</span>"
    );
    let black = Style { foreground: rgb(0, 0, 0), ..white };
    assert_eq!(highlighter.render_regions(&vec![(black, "x")]), "<span>x</span>");
    assert_eq!(highlighter.pre_style(), "background-color:#ffffff;color:#000000;");
    assert_eq!(highlighter.mark_style(), "background-color:#ffff0000;");
}

#[test]
fn styles_come_from_the_theme() {
    let syntax_set = default_syntaxes();
    let theme = theme_with(
        Some(rgb(0x0a, 0x0b, 0x0c)),
        Some(Color { r: 1, g: 2, b: 3, a: 0x80 }),
        Some(rgb(0xfe, 0xdc, 0xba)),
    );
    let s = SyntaxAndTheme::for_token(&syntax_set, "py", Some(&theme)).unwrap();
    let highlighter = InlineHighlighter::new(s.syntax, s.syntax_set, &theme);
    assert_eq!(highlighter.pre_style(), "background-color:#01020380;color:#0a0b0c;");
    assert_eq!(highlighter.mark_style(), "background-color:#fedcba;");
}

#[test]
fn empty_regions_give_empty_markup() {
    let syntax_set = default_syntaxes();
    let theme = theme_with(None, None, None);
    let s = SyntaxAndTheme::for_token(&syntax_set, "py", Some(&theme)).unwrap();
    let highlighter = InlineHighlighter::new(s.syntax, s.syntax_set, &theme);
    assert_eq!(highlighter.render_regions(&Vec::new()), "");
}

#[test]
fn inline_markup_is_the_engine_markup_without_the_default_foreground() {
    let syntax_set = default_syntaxes();
    let theme_set = ThemeSet::load_defaults();
    let code = "import zen\nz = x + y  # <b> & \"q\"\nprint('hello')\n\n";
    for (_, theme) in theme_set.themes.iter() {
        let s = SyntaxAndTheme::for_token(&syntax_set, "py", Some(theme)).unwrap();
        let mut highlighter = InlineHighlighter::new(s.syntax, s.syntax_set, theme);
        let mut lines = HighlightLines::new(s.syntax, theme);
        let fg = theme.settings.foreground.unwrap_or(Color::BLACK);
        let bg = theme.settings.background.unwrap_or(Color::WHITE);
        let fragment = format!(" style=\"color:#{:02x}{:02x}{:02x};\"", fg.r, fg.g, fg.b);
        for line in LinesWithEndings::from(code) {
            let regions = lines.highlight(line, &syntax_set);
            let markup =
                styled_line_to_highlighted_html(&regions, IncludeBackground::IfDifferent(bg));
            let chars: Vec<char> = markup.chars().collect();
            for (i, c) in chars.iter().enumerate() {
                if *c == '"' {
                    let opens = i > 0 && chars[i - 1] == '=';
                    let closes = i + 1 < chars.len() && chars[i + 1] == '>';
                    assert!(opens || closes);
                }
            }
            let differs = regions.iter().any(|(style, _)| style.background != bg);
            let html = highlighter.highlight_line(line);
            assert_eq!(html, markup.replace(&fragment, ""));
            assert!(!html.contains(&fragment));
            assert_eq!(html.contains("\"background-color:"), differs);
            for (style, _) in regions.iter() {
                let b = style.background;
                if b != bg {
                    let open = format!(
                        "<span style=\"background-color:#{:02x}{:02x}{:02x};",
                        b.r, b.g, b.b
                    );
                    assert!(b.a != 0xff || markup.contains(&open));
                    assert!(b.a != 0xff || html.contains(&open));
                } else {
                    assert!(has_bare_span(&markup));
                    assert!(has_bare_span(&html));
                }
            }
            assert_eq!(html.matches("<span").count(), html.matches("</span>").count());
        }
    }
}

#[test]
fn background_is_declared_when_any_region_differs() {
    let syntax_set = default_syntaxes();
    let theme = theme_with(Some(rgb(0, 0, 0)), Some(rgb(0x10, 0x20, 0x30)), None);
    let s = SyntaxAndTheme::for_token(&syntax_set, "py", Some(&theme)).unwrap();
    let highlighter = InlineHighlighter::new(s.syntax, s.syntax_set, &theme);
    let same = Style {
        foreground: rgb(0, 0, 0),
        background: rgb(0x10, 0x20, 0x30),
        font_style: FontStyle::empty(),
    };
    let differs = Style { background: rgb(0xff, 0xff, 0xff), ..same };
    let html = highlighter.render_regions(&vec![(same, "a"), (differs, " "), (same, "background-color:")]);
    assert_eq!(
        html,
        "<span>a</span><span style=\"background-color:#ffffff;color:#000000;\"> </span><span>background-color:</span>"
    );
    assert!(html.contains("\"background-color:"));
    let html = highlighter.render_regions(&vec![(same, "a"), (same, " "), (same, "background-color:")]);
    assert_eq!(html, "<span>a background-color:</span>");
    assert!(!html.contains("\"background-color:"));
    let html = highlighter.render_regions(&vec![(differs, "a"), (differs, "b")]);
    assert_eq!(html, "<span style=\"background-color:#ffffff;color:#000000;\">ab</span>");
}

#[test]
fn each_region_gets_the_span_its_background_asks_for() {
    let syntax_set = default_syntaxes();
    let theme = theme_with(Some(rgb(0, 0, 0)), Some(rgb(0x10, 0x20, 0x30)), None);
    let s = SyntaxAndTheme::for_token(&syntax_set, "py", Some(&theme)).unwrap();
    let highlighter = InlineHighlighter::new(s.syntax, s.syntax_set, &theme);
    let same = Style {
        foreground: rgb(0, 0, 0),
        background: rgb(0x10, 0x20, 0x30),
        font_style: FontStyle::empty(),
    };
    let red = Style { background: rgb(0xff, 0, 0), ..same };
    let faint = Style { background: Color { r: 1, g: 2, b: 3, a: 4 }, ..same };
    let bold = Style { font_style: FontStyle::BOLD, ..same };
    let html = highlighter.render_regions(&vec![(red, "a"), (same, "b"), (faint, "c"), (bold, "d")]);
    assert_eq!(
        html,
        "<span style=\"background-color:#ff0000;color:#000000;\">a</span><span>b</span><span style=\"background-color:#01020304;color:#000000;\">c</span><span style=\"font-weight:bold;color:#000000;\">d</span>"
    );
    assert!(html.contains("<span style=\"background-color:#ff0000;"));
    assert!(html.contains("<span style=\"background-color:#01020304;"));
    assert!(has_bare_span(&html));
    assert_eq!(html.matches("<span").count(), html.matches("</span>").count());
    let html = highlighter.render_regions(&vec![(red, "a")]);
    assert!(!has_bare_span(&html));
}
