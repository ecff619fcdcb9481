use code_highlight::classed::{is_terminated, ClassHighlighter};
use code_highlight::selection::{default_syntaxes, SyntaxAndTheme};
use syntect::html::{ClassStyle, ClassedHTMLGenerator};
use syntect::parsing::{ClearAmount, Scope, ScopeStackOp};
use syntect::util::LinesWithEndings;

fn count(text: &str, pat: &str) -> usize {
    text.matches(pat).count()
}

#[test]
fn can_highlight_with_classes() {
    let syntax_set = default_syntaxes();
    let code = "import zen\nz = x + y\nprint('hello')\n";
    let syntax_and_theme = SyntaxAndTheme::for_token(&syntax_set, "py", None).unwrap();
    let mut highlighter =
        ClassHighlighter::new(syntax_and_theme.syntax, syntax_and_theme.syntax_set);
    let mut out = String::new();
    for line in LinesWithEndings::from(code) {
        out.push_str(&highlighter.highlight_line(line));
    }
    out.push_str(&highlighter.finalize());

    assert!(out.starts_with("<span class"));
    assert!(out.ends_with("</span>"));
    assert!(out.contains("z-"));
}

#[test]
fn classed_line_has_exact_markup() {
    let syntax_set = default_syntaxes();
    let s = SyntaxAndTheme::for_token(&syntax_set, "R", None).unwrap();
    let mut highlighter = ClassHighlighter::new(s.syntax, s.syntax_set);
    let html = highlighter.highlight_line("x + y\n");
    assert_eq!(
        html,
        "<span class=\"z-source z-r\">x <span class=\"z-keyword z-operator z-arithmetic z-r\">+</span> y\n"
    );
    assert_eq!(highlighter.open_span_count(), 1);
    assert_eq!(highlighter.finalize(), "</span>");
    assert_eq!(highlighter.open_span_count(), 0);
}

#[test]
fn spans_balance_over_a_block() {
    let syntax_set = default_syntaxes();
    let code = "def f(a):\n    \"\"\"doc\n    more <b> & text\n    \"\"\"\n    return [a, {1: 'x'}]\n";
    let s = SyntaxAndTheme::for_token(&syntax_set, "py", None).unwrap();
    let mut highlighter = ClassHighlighter::new(s.syntax, s.syntax_set);
    let mut opened = 0;
    let mut closed = 0;
    let mut running: isize = 0;
    for line in LinesWithEndings::from(code) {
        let html = highlighter.highlight_line(line);
        opened += count(&html, "<span");
        closed += count(&html, "</span>");
        running += count(&html, "<span") as isize - count(&html, "</span>") as isize;
        assert_eq!(highlighter.open_span_count(), running);
        assert!(running >= 0);
    }
    assert!(running > 0);
    let closing = highlighter.finalize();
    assert_eq!(closing, "</span>".repeat(running as usize));
    opened += count(&closing, "<span");
    closed += count(&closing, "</span>");
    assert_eq!(opened, closed);
}

#[test]
fn finalize_of_a_fresh_highlighter_is_empty() {
    let syntax_set = default_syntaxes();
    let s = SyntaxAndTheme::for_token(&syntax_set, "py", None).unwrap();
    let mut highlighter = ClassHighlighter::new(s.syntax, s.syntax_set);
    assert_eq!(highlighter.open_span_count(), 0);
    assert_eq!(highlighter.finalize(), "");
}

#[test]
fn finalize_twice_closes_nothing_more() {
    let syntax_set = default_syntaxes();
    let s = SyntaxAndTheme::for_token(&syntax_set, "py", None).unwrap();
    let mut highlighter = ClassHighlighter::new(s.syntax, s.syntax_set);
    highlighter.highlight_line("x = 1\n");
    assert_eq!(highlighter.finalize(), "</span>");
    assert_eq!(highlighter.finalize(), "");
}

#[test]
fn pre_class_is_prefix_and_code() {
    let syntax_set = default_syntaxes();
    let s = SyntaxAndTheme::for_token(&syntax_set, "py", None).unwrap();
    let highlighter = ClassHighlighter::new(s.syntax, s.syntax_set);
    assert_eq!(highlighter.pre_class(), "z-code");
}

#[test]
fn tokens_that_push_and_pop_are_rendered() {
    let syntax_set = default_syntaxes();
    let s = SyntaxAndTheme::for_token(&syntax_set, "txt", None).unwrap();
    let mut highlighter = ClassHighlighter::new(s.syntax, s.syntax_set);
    let scope = Scope::new("keyword.control").unwrap();
    let ops = vec![(0, ScopeStackOp::Push(scope)), (2, ScopeStackOp::Pop(1)), (2, ScopeStackOp::Noop)];
    assert!(highlighter.tokens_fit("if <x>\n", &ops));
    let html = highlighter.render_tokens("if <x>\n", &ops).unwrap();
    assert_eq!(html, "<span class=\"z-keyword z-control\">if</span> &lt;x&gt;\n");
    assert_eq!(highlighter.open_span_count(), 0);
}

#[test]
fn open_spans_follow_the_tokens() {
    let syntax_set = default_syntaxes();
    let s = SyntaxAndTheme::for_token(&syntax_set, "txt", None).unwrap();
    let mut highlighter = ClassHighlighter::new(s.syntax, s.syntax_set);
    let a = Scope::new("source.a").unwrap();
    let b = Scope::new("string.b").unwrap();
    let ops = vec![(0, ScopeStackOp::Push(a)), (1, ScopeStackOp::Push(b))];
    let html = highlighter.render_tokens("ab\n", &ops).unwrap();
    assert_eq!(html, "<span class=\"z-source z-a\">a<span class=\"z-string z-b\">b\n");
    assert_eq!(highlighter.open_span_count(), 2);
    let ops = vec![(1, ScopeStackOp::Pop(2))];
    let html = highlighter.render_tokens("c\n", &ops).unwrap();
    assert_eq!(html, "c</span></span>\n");
    assert_eq!(highlighter.open_span_count(), 0);
    assert_eq!(highlighter.finalize(), "");
}

#[test]
fn clear_and_restore_keep_the_count() {
    let syntax_set = default_syntaxes();
    let s = SyntaxAndTheme::for_token(&syntax_set, "txt", None).unwrap();
    let mut highlighter = ClassHighlighter::new(s.syntax, s.syntax_set);
    let a = Scope::new("source.a").unwrap();
    let b = Scope::new("string.b").unwrap();
    let ops = vec![
        (0, ScopeStackOp::Push(a)),
        (0, ScopeStackOp::Push(b)),
        (1, ScopeStackOp::Clear(ClearAmount::TopN(5))),
    ];
    assert!(highlighter.tokens_fit("xy\n", &ops));
    let html = highlighter.render_tokens("xy\n", &ops).unwrap();
    assert_eq!(highlighter.open_span_count(), 0);
    assert_eq!(count(&html, "<span"), count(&html, "</span>"));
    let ops = vec![(0, ScopeStackOp::Restore), (1, ScopeStackOp::Clear(ClearAmount::All))];
    assert!(highlighter.tokens_fit("z\n", &ops));
    let html = highlighter.render_tokens("z\n", &ops).unwrap();
    assert_eq!(html, "<span class=\"z-source z-a\"><span class=\"z-string z-b\">z</span></span>\n");
    assert_eq!(highlighter.open_span_count(), 0);
    let ops = vec![(0, ScopeStackOp::Restore)];
    let html = highlighter.render_tokens("w\n", &ops).unwrap();
    assert_eq!(html, "<span class=\"z-source z-a\"><span class=\"z-string z-b\">w\n");
    assert_eq!(highlighter.open_span_count(), 2);
    assert_eq!(highlighter.finalize(), "</span></span>");
}

#[test]
fn restore_without_clear_does_not_fit() {
    let syntax_set = default_syntaxes();
    let s = SyntaxAndTheme::for_token(&syntax_set, "txt", None).unwrap();
    let mut highlighter = ClassHighlighter::new(s.syntax, s.syntax_set);
    let ops = vec![(0, ScopeStackOp::Restore)];
    assert!(!highlighter.tokens_fit("a < b\n", &ops));
    let scope = Scope::new("keyword").unwrap();
    let ops = vec![
        (0, ScopeStackOp::Push(scope)),
        (1, ScopeStackOp::Clear(ClearAmount::All)),
        (1, ScopeStackOp::Restore),
        (2, ScopeStackOp::Restore),
    ];
    assert!(!highlighter.tokens_fit("a < b\n", &ops));
    assert!(highlighter.tokens_fit("a < b\n", &ops[..3].to_vec()));
    assert_eq!(highlighter.open_span_count(), 0);
}

#[test]
fn pop_of_more_than_is_open_does_not_fit() {
    let syntax_set = default_syntaxes();
    let s = SyntaxAndTheme::for_token(&syntax_set, "txt", None).unwrap();
    let mut highlighter = ClassHighlighter::new(s.syntax, s.syntax_set);
    let scope = Scope::new("keyword").unwrap();
    let ops = vec![(0, ScopeStackOp::Push(scope)), (1, ScopeStackOp::Pop(2))];
    assert!(!highlighter.tokens_fit("ab\n", &ops));
    let ops = vec![(0, ScopeStackOp::Pop(1))];
    assert!(!highlighter.tokens_fit("ab\n", &ops));
    let ops = vec![(0, ScopeStackOp::Pop(0))];
    assert!(highlighter.tokens_fit("ab\n", &ops));
    assert_eq!(highlighter.open_span_count(), 0);
    assert_eq!(highlighter.finalize(), "");
}

#[test]
fn offset_outside_the_line_does_not_fit() {
    let syntax_set = default_syntaxes();
    let s = SyntaxAndTheme::for_token(&syntax_set, "txt", None).unwrap();
    let mut highlighter = ClassHighlighter::new(s.syntax, s.syntax_set);
    let scope = Scope::new("keyword").unwrap();
    let ops = vec![(4, ScopeStackOp::Push(scope))];
    assert!(!highlighter.tokens_fit("ab\n", &ops));
    let ops = vec![(3, ScopeStackOp::Push(scope))];
    assert!(highlighter.tokens_fit("ab\n", &ops));
    assert_eq!(highlighter.render_tokens("ab\n", &ops).unwrap(), "ab\n<span class=\"z-keyword\">");
    assert_eq!(highlighter.open_span_count(), 1);
}

#[test]
fn offset_inside_a_character_does_not_fit() {
    let syntax_set = default_syntaxes();
    let s = SyntaxAndTheme::for_token(&syntax_set, "txt", None).unwrap();
    let mut highlighter = ClassHighlighter::new(s.syntax, s.syntax_set);
    let scope = Scope::new("keyword").unwrap();
    let ops = vec![(1, ScopeStackOp::Push(scope))];
    assert!(!highlighter.tokens_fit("é\n", &ops));
    let ops = vec![(2, ScopeStackOp::Push(scope))];
    assert!(highlighter.tokens_fit("é\n", &ops));
    assert_eq!(
        highlighter.render_tokens("é\n", &ops).unwrap(),
        "é<span class=\"z-keyword\">\n"
    );
    assert_eq!(highlighter.open_span_count(), 1);
}

#[test]
fn classed_markup_is_what_the_engine_generates() {
    let syntax_set = default_syntaxes();
    let code = "#!/bin/sh\n<?php echo \"hi\"; ?>\n<p class=\"a\">x &amp; y</p>\nfn main() { let x = \"a\\\"b\"; /* c */ }\n# Title\n* item `code` **bold** [l](u)\n{ \"a\": [1, 2.5, null], 'b': {} }\nselect * from t where a = 'b'; -- c\nclass A(B): def f(self): return '''x\n  more''' + r\"\\d+\" // 2\n\tkey: value # comment\n@media (x) { a > b { color: #fff; } }\nint main(void) { printf(\"%d\\n\", 1); return 0; }\n";
    let tokens = [
        "py", "rs", "html", "md", "js", "c", "java", "json", "yaml", "sh", "rb", "go", "css",
        "xml", "sql", "php", "txt",
    ];
    for token in tokens {
        let s = SyntaxAndTheme::for_token(&syntax_set, token, None).unwrap();
        let mut highlighter = ClassHighlighter::new(s.syntax, s.syntax_set);
        let mut generator = ClassedHTMLGenerator::new_with_class_style(
            s.syntax,
            &syntax_set,
            ClassStyle::SpacedPrefixed { prefix: "z-" },
        );
        let mut out = String::new();
        for line in LinesWithEndings::from(code) {
            let before = highlighter.open_span_count();
            let html = highlighter.highlight_line(line);
            let balance = count(&html, "<span") as isize - count(&html, "</span>") as isize;
            assert_eq!(highlighter.open_span_count() - before, balance);
            assert!(highlighter.open_span_count() >= 0);
            out.push_str(&html);
            generator.parse_html_for_line_which_includes_newline(line);
        }
        out.push_str(&highlighter.finalize());
        assert_eq!(out, generator.finalize());
        assert_eq!(count(&out, "<span"), count(&out, "</span>"));
    }
}

#[test]
fn terminated_lines_end_with_a_newline() {
    assert!(is_terminated("x = 1\n"));
    assert!(is_terminated("\n"));
    assert!(is_terminated("é\n"));
    assert!(!is_terminated("x = 1"));
    assert!(!is_terminated(""));
    assert!(!is_terminated("x\n "));
}

#[test]
fn empty_line_opens_only_what_the_grammar_opens() {
    let syntax_set = default_syntaxes();
    let s = SyntaxAndTheme::for_token(&syntax_set, "py", None).unwrap();
    let mut highlighter = ClassHighlighter::new(s.syntax, s.syntax_set);
    assert_eq!(highlighter.highlight_line("\n"), "<span class=\"z-source z-python\">\n");
    assert_eq!(highlighter.highlight_line("\n"), "\n");
    assert_eq!(highlighter.open_span_count(), 1);
    assert_eq!(highlighter.finalize(), "</span>");
}

#[test]
fn scope_name_with_a_tag_in_it_is_not_rendered() {
    let syntax_set = default_syntaxes();
    let s = SyntaxAndTheme::for_token(&syntax_set, "txt", None).unwrap();
    let mut highlighter = ClassHighlighter::new(s.syntax, s.syntax_set);
    let odd = Scope::new("a<span").unwrap();
    let plain = Scope::new("keyword").unwrap();
    let ops = vec![(0, ScopeStackOp::Push(plain)), (1, ScopeStackOp::Push(odd))];
    assert!(highlighter.tokens_fit("ab\n", &ops));
    assert_eq!(highlighter.render_tokens("ab\n", &ops), None);
    assert_eq!(highlighter.open_span_count(), 0);
    assert!(!highlighter.tokens_fit("ab\n", &vec![(0, ScopeStackOp::Pop(1))]));
    let ops = vec![(0, ScopeStackOp::Push(plain))];
    assert_eq!(
        highlighter.render_tokens("ab\n", &ops),
        Some("<span class=\"z-keyword\">ab\n".to_string())
    );
    assert_eq!(highlighter.open_span_count(), 1);
    let odd = Scope::new("b</span>").unwrap();
    let ops = vec![(0, ScopeStackOp::Push(odd)), (1, ScopeStackOp::Pop(1))];
    assert_eq!(highlighter.render_tokens("ab\n", &ops), None);
    assert_eq!(highlighter.open_span_count(), 1);
    assert_eq!(highlighter.finalize(), "</span>");
}
