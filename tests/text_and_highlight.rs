use code_render::highlight::{background_color, background_or_black, highlight, StyledLine};
use code_render::text::{is_blank, parse_query, split_lines, trim};
use code_render::Rgba8;
use syntect::highlighting::ThemeSet;
use syntect::parsing::SyntaxSet;

fn chars(s: &str) -> Vec<char> {
    s.chars().collect()
}

fn line_text(l: &StyledLine) -> String {
    l.spans.iter().flat_map(|s| s.text.iter()).collect()
}

#[test]
fn trim_removes_surrounding_white_space() {
    assert_eq!(trim(&chars("  \t a b \n\n")), chars("a b"));
    assert_eq!(trim(&chars("")), chars(""));
    assert_eq!(trim(&chars(" \u{3000}\n ")), chars(""));
    assert!(is_blank(&chars(" \n\t")));
    assert!(!is_blank(&chars(" x ")));
}

#[test]
fn split_lines_keeps_line_feeds() {
    assert_eq!(split_lines(&chars("a\nbc\n\nd")), vec![chars("a\n"), chars("bc\n"), chars("\n"), chars("d")]);
    assert_eq!(split_lines(&chars("x\n")), vec![chars("x\n")]);
    assert!(split_lines(&chars("")).is_empty());
}

#[test]
fn query_with_hint() {
    let q = parse_query(&chars("py:print('hi')"));
    assert_eq!(q.hint, Some(chars("py")));
    assert_eq!(q.code, chars("print('hi')"));
    let q = parse_query(&chars("cpp:a::b"));
    assert_eq!(q.hint, Some(chars("cpp")));
    assert_eq!(q.code, chars("a::b"));
}

#[test]
fn query_without_hint() {
    let q = parse_query(&chars("let x = 1; // note: y"));
    assert_eq!(q.hint, None);
    assert_eq!(q.code, chars("let x = 1; // note: y"));
    let q = parse_query(&chars("a\t:x"));
    assert_eq!(q.hint, None);
    assert_eq!(q.code, chars("a\t:x"));
    let q = parse_query(&chars("a\u{3000}b:x"));
    assert_eq!(q.hint, None);
    let q = parse_query(&chars("no colon"));
    assert_eq!(q.hint, None);
    assert_eq!(q.code, chars("no colon"));
}

#[test]
fn highlight_hello_python() {
    let ss = SyntaxSet::load_defaults_newlines();
    let ts = ThemeSet::load_defaults();
    let theme = &ts.themes["Solarized (dark)"];
    let syntax = ss.find_syntax_by_extension("py").unwrap();
    let lines = highlight("print('hi')", syntax, theme, &ss).unwrap();
    assert_eq!(lines.len(), 1);
    assert_eq!(line_text(&lines[0]), "print('hi')");
    assert!(lines[0].spans.len() > 1);
}

#[test]
fn highlight_trims_and_splits() {
    let ss = SyntaxSet::load_defaults_newlines();
    let ts = ThemeSet::load_defaults();
    let theme = &ts.themes["Solarized (dark)"];
    let lines = highlight("\n  a = 1\nb = 2  \n", ss.find_syntax_plain_text(), theme, &ss).unwrap();
    assert_eq!(lines.len(), 2);
    assert_eq!(line_text(&lines[0]), "a = 1\n");
    assert_eq!(line_text(&lines[1]), "b = 2");
}

#[test]
fn comment_state_carries_to_next_line() {
    let ss = SyntaxSet::load_defaults_newlines();
    let ts = ThemeSet::load_defaults();
    let theme = &ts.themes["Solarized (dark)"];
    let syntax = ss.find_syntax_by_extension("c").unwrap();
    let lines = highlight("/* open\nstill */ int x;", syntax, theme, &ss).unwrap();
    assert_eq!(lines.len(), 2);
    let comment: Rgba8 = lines[0].spans[0].color;
    let second = &lines[1];
    assert!(second.spans[0].text.starts_with(&chars("still")));
    assert_eq!(second.spans[0].color, comment);
    let int_span = second.spans.iter().find(|s| s.text == chars("int")).unwrap();
    assert_ne!(int_span.color, comment);
}

#[test]
fn highlight_edge_inputs_never_fail() {
    let ss = SyntaxSet::load_defaults_newlines();
    let ts = ThemeSet::load_defaults();
    let theme = &ts.themes["Solarized (dark)"];
    let syntax = ss.find_syntax_by_extension("rs").unwrap();
    assert!(highlight("", syntax, theme, &ss).unwrap().is_empty());
    assert!(highlight(" \n\t ", syntax, theme, &ss).unwrap().is_empty());
    assert_eq!(highlight("x", syntax, theme, &ss).unwrap().len(), 1);
    let odd = "e\u{301}\u{200b}\u{0}";
    let lines = highlight(odd, syntax, theme, &ss).unwrap();
    assert_eq!(lines.len(), 1);
    assert_eq!(line_text(&lines[0]), odd);
}

#[test]
fn highlight_is_deterministic() {
    let ss = SyntaxSet::load_defaults_newlines();
    let ts = ThemeSet::load_defaults();
    let theme = &ts.themes["Solarized (dark)"];
    let syntax = ss.find_syntax_by_extension("py").unwrap();
    let a = highlight("def f():\n    return 1", syntax, theme, &ss).unwrap();
    let b = highlight("def f():\n    return 1", syntax, theme, &ss).unwrap();
    assert_eq!(a.len(), b.len());
    for (x, y) in a.iter().zip(b.iter()) {
        assert_eq!(x.spans.len(), y.spans.len());
        for (s, t) in x.spans.iter().zip(y.spans.iter()) {
            assert_eq!(s.text, t.text);
            assert_eq!(s.color, t.color);
        }
    }
}

#[test]
fn theme_background_is_used() {
    let ts = ThemeSet::load_defaults();
    let theme = &ts.themes["Solarized (dark)"];
    assert_eq!(background_color(theme), Rgba8 { r: 0, g: 43, b: 54, a: 255 });
}

#[test]
fn missing_background_is_opaque_black() {
    assert_eq!(background_or_black(None), Rgba8 { r: 0, g: 0, b: 0, a: 255 });
    let c = Rgba8 { r: 1, g: 2, b: 3, a: 4 };
    assert_eq!(background_or_black(Some(c)), c);
}
