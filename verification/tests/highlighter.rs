use syntect::highlighting::{
    Color, FontStyle, HighlightIterator, HighlightState, Highlighter, Style, Theme, ThemeSet,
};
use syntect::html::{append_highlighted_html_for_styled_line, IncludeBackground};
use syntect::parsing::{ParseState, ScopeStack, SyntaxSet};
use syntect::util::LinesWithEndings;
use typsite::highlighter::{
    apply_fallback_style, default_syntaxes, highlight, highlight_default, highlight_token,
    render_line, split_lines, syntax_for_first_line, syntax_for_name, syntax_for_token,
    LineOutcome, Rgba, StyledText, TextStyle,
};

fn theme() -> Theme {
    ThemeSet::load_defaults().themes["base16-ocean.dark"].clone()
}

fn piece(rgb: (u8, u8, u8), font_style: u8, text: &str) -> StyledText {
    StyledText {
        style: TextStyle {
            foreground: Rgba { r: rgb.0, g: rgb.1, b: rgb.2, a: 255 },
            background: Rgba { r: 0, g: 0, b: 0, a: 255 },
            font_style,
        },
        text: text.to_string(),
    }
}

fn by_syntect(set: &SyntaxSet, token: &str, content: &str, theme: &Theme) -> String {
    let syntax = set.find_syntax_by_token(token).unwrap();
    let highlighter = Highlighter::new(theme);
    let mut highlight_state = HighlightState::new(&highlighter, ScopeStack::new());
    let mut parse_state = ParseState::new(syntax);
    let mut output = String::new();
    for line in LinesWithEndings::from(content) {
        let ops = parse_state.parse_line(line, set).unwrap();
        for (style, text) in HighlightIterator::new(&mut highlight_state, &ops, line, &highlighter)
        {
            append_highlighted_html_for_styled_line(
                &[(style, text)],
                IncludeBackground::No,
                &mut output,
            )
            .unwrap();
        }
    }
    output
}

#[test]
fn fallback_style_wraps_the_text_in_a_coloured_span() {
    assert_eq!(
        apply_fallback_style("#ff0000", "let x = 1;\n"),
        "<span style='color:#ff0000;'>let x = 1;\n</span>"
    );
    assert_eq!(apply_fallback_style("", ""), "<span style='color:;'></span>");
}

#[test]
fn lines_keep_their_line_breaks() {
    assert_eq!(split_lines("foo\nbar\nbaz"), vec!["foo\n", "bar\n", "baz"]);
    assert_eq!(split_lines("foo\n"), vec!["foo\n"]);
    assert_eq!(split_lines("\n\nx"), vec!["\n", "\n", "x"]);
    assert_eq!(split_lines("ünï\ncödé\n"), vec!["ünï\n", "cödé\n"]);
    assert!(split_lines("").is_empty());
}

#[test]
fn lines_are_split_as_syntect_splits_them() {
    for content in ["", "a", "a\n", "a\n\nb", "\n", "fn main() {\n    1\n}\n", "x\r\ny"] {
        let expected: Vec<String> = LinesWithEndings::from(content).map(String::from).collect();
        assert_eq!(split_lines(content), expected);
    }
}

#[test]
fn unparsed_line_is_rendered_as_its_fallback_span() {
    let mut output = "<pre>".to_string();
    render_line(&LineOutcome::Unparsed, "gray", "x < 1\n", &mut output);
    assert_eq!(output, "<pre><span style='color:gray;'>x < 1\n</span>");
}

#[test]
fn styled_line_is_rendered_piece_by_piece() {
    let mut output = String::new();
    let pieces = vec![piece((208, 135, 112), 0, "5"), piece((1, 2, 3), 1, " <b")];
    render_line(&LineOutcome::Styled(pieces), "gray", "5 <b", &mut output);
    assert_eq!(
        output,
        "<span style=\"color:#d08770;\">5</span><span style=\"font-weight:bold;color:#010203;\"> &lt;b</span>"
    );
}

#[test]
fn span_of_a_piece_is_what_syntect_writes_for_it() {
    for bits in 0..8u8 {
        let one = piece((10, 200, 30), bits, "a&b");
        let mut output = String::new();
        render_line(&LineOutcome::Styled(vec![one.clone()]), "gray", "a&b", &mut output);
        let style = Style {
            foreground: Color { r: 10, g: 200, b: 30, a: 255 },
            background: Color { r: 0, g: 0, b: 0, a: 255 },
            font_style: FontStyle::from_bits_truncate(bits),
        };
        let mut expected = String::new();
        append_highlighted_html_for_styled_line(
            &[(style, "a&b")],
            IncludeBackground::No,
            &mut expected,
        )
        .unwrap();
        assert_eq!(output, expected);
        assert_ne!(output, "a&b");
    }
}

#[test]
fn styled_line_without_pieces_renders_nothing() {
    let mut output = "kept".to_string();
    render_line(&LineOutcome::Styled(Vec::new()), "gray", "", &mut output);
    assert_eq!(output, "kept");
}

#[test]
fn highlight_renders_a_known_line() {
    let set = default_syntaxes();
    let html = highlight_token(&set, "rb", "5", &theme(), "#000000").unwrap();
    assert!(html.ends_with("<span style=\"color:#d08770;\">5</span>"));
    assert_eq!(html, by_syntect(&set, "rb", "5", &theme()));
}

#[test]
fn highlight_agrees_with_syntect_line_by_line() {
    let set = default_syntaxes();
    let content = "fn main() {\n    let x = \"a<b\";\n    println!(\"{}\", x);\n}\n";
    let syntax = syntax_for_token(&set, "rs").unwrap();
    let html = highlight(&set, syntax, content, &theme(), "#123456");
    assert_eq!(html, by_syntect(&set, "rs", content, &theme()));
    assert!(html.contains("main"));
    assert!(html.contains("&lt;"));
    assert!(!html.contains("#123456"));
    assert_eq!(highlight_token(&set, "rs", content, &theme(), "#123456"), Some(html));
}

#[test]
fn highlight_starts_afresh_for_each_text() {
    let set = default_syntaxes();
    let syntax = syntax_for_token(&set, "rs").unwrap();
    let open = highlight(&set, syntax, "/* never closed\n", &theme(), "red");
    let first = highlight(&set, syntax, "let x = 1;\n", &theme(), "red");
    let second = highlight(&set, syntax, "let x = 1;\n", &theme(), "red");
    assert!(!open.is_empty());
    assert_eq!(first, second);
}

#[test]
fn default_syntaxes_are_those_that_come_with_syntect() {
    let ours = default_syntaxes();
    let theirs = SyntaxSet::load_defaults_newlines();
    assert_eq!(ours.syntaxes().len(), theirs.syntaxes().len());
    assert!(ours.syntaxes().len() > 1);
}

#[test]
fn syntax_is_found_by_token_name_or_first_line() {
    let set = default_syntaxes();
    assert_eq!(syntax_for_token(&set, "rs").unwrap().name, "Rust");
    assert_eq!(syntax_for_token(&set, "RUST").unwrap().name, "Rust");
    assert!(syntax_for_token(&set, "no-such-language").is_none());
    assert_eq!(syntax_for_name(&set, "Plain Text").unwrap().name, "Plain Text");
    assert!(syntax_for_name(&set, "plain text").is_none());
    assert_eq!(syntax_for_first_line(&set, "#!/bin/bash\n").unwrap().name, "Bourne Again Shell (bash)");
    assert!(syntax_for_first_line(&set, "nothing to go by\n").is_none());
}

#[test]
fn highlight_takes_a_syntax_that_was_chosen_otherwise() {
    let set = default_syntaxes();
    let plain = syntax_for_name(&set, "Plain Text").unwrap();
    let html = highlight(&set, plain, "a < b\n", &theme(), "red");
    assert_eq!(html, by_syntect(&set, "txt", "a < b\n", &theme()));
    assert!(html.contains("a &lt; b"));
    let script = "#!/bin/bash\necho hi\n";
    let bash = syntax_for_first_line(&set, script).unwrap();
    assert_eq!(highlight(&set, bash, script, &theme(), "red"), by_syntect(&set, "sh", script, &theme()));
}

#[test]
fn highlight_finds_a_syntax_by_name_or_extension() {
    let set = default_syntaxes();
    let by_extension = highlight_token(&set, "rs", "let x = 1;\n", &theme(), "red");
    let by_name = highlight_token(&set, "rust", "let x = 1;\n", &theme(), "red");
    assert!(by_extension.is_some());
    assert_eq!(by_extension, by_name);
}

#[test]
fn highlight_of_nothing_is_nothing() {
    let set = default_syntaxes();
    assert_eq!(highlight_token(&set, "rs", "", &theme(), "red"), Some(String::new()));
}

#[test]
fn highlight_without_a_syntax_gives_no_result() {
    let set = default_syntaxes();
    assert_eq!(highlight_token(&set, "no-such-language", "x", &theme(), "red"), None);
    assert_eq!(highlight_default("no-such-language", "x", &theme(), "red"), None);
}

#[test]
fn highlight_default_uses_the_syntaxes_of_syntect() {
    let set = default_syntaxes();
    let content = "def f(x)\n  x + 1\nend\n";
    assert_eq!(
        highlight_default("rb", content, &theme(), "red"),
        highlight_token(&set, "rb", content, &theme(), "red")
    );
    assert_eq!(
        highlight_default("rb", content, &theme(), "red"),
        Some(by_syntect(&set, "rb", content, &theme()))
    );
}

fn highlights_without_faults(from: usize, to: usize) {
    let set = default_syntaxes();
    let theme = theme();
    let content = "#include <x>\nfn main() { let s = \"a\"; } // done\n<p class='c'>1 + 2</p>\n";
    let names: Vec<String> = set.syntaxes().iter().map(|s| s.name.clone()).collect();
    assert!(names.len() <= 100);
    for name in names.iter().skip(from).take(to - from) {
        let syntax = syntax_for_name(&set, name).unwrap();
        let html = highlight(&set, syntax, content, &theme, "red");
        assert!(html.starts_with("<span style="), "{name}");
        assert!(html.ends_with("</span>"), "{name}");
    }
}

#[test]
fn default_syntaxes_highlight_without_faults_first_quarter() {
    highlights_without_faults(0, 25);
}

#[test]
fn default_syntaxes_highlight_without_faults_second_quarter() {
    highlights_without_faults(25, 50);
}

#[test]
fn default_syntaxes_highlight_without_faults_third_quarter() {
    highlights_without_faults(50, 75);
}

#[test]
fn default_syntaxes_highlight_without_faults_last_quarter() {
    highlights_without_faults(75, 100);
}

fn span(rgba: (u8, u8, u8, u8), font_style: u8, text: &str) -> String {
    let one = StyledText {
        style: TextStyle {
            foreground: Rgba { r: rgba.0, g: rgba.1, b: rgba.2, a: rgba.3 },
            background: Rgba { r: 9, g: 9, b: 9, a: 9 },
            font_style,
        },
        text: text.to_string(),
    };
    let mut output = String::new();
    render_line(&LineOutcome::Styled(vec![one]), "gray", text, &mut output);
    output
}

#[test]
fn span_writes_the_colour_in_hexadecimal() {
    assert_eq!(span((10, 200, 30, 255), 0, "x"), "<span style=\"color:#0ac81e;\">x</span>");
    assert_eq!(span((0, 0, 0, 255), 0, "x"), "<span style=\"color:#000000;\">x</span>");
    assert_eq!(span((255, 255, 255, 255), 0, "x"), "<span style=\"color:#ffffff;\">x</span>");
    assert_eq!(span((10, 200, 30, 128), 0, "x"), "<span style=\"color:#0ac81e80;\">x</span>");
    assert_eq!(span((10, 200, 30, 0), 0, "x"), "<span style=\"color:#0ac81e00;\">x</span>");
}

#[test]
fn span_writes_the_font_style_as_properties() {
    assert_eq!(
        span((1, 2, 3, 255), 1, "x"),
        "<span style=\"font-weight:bold;color:#010203;\">x</span>"
    );
    assert_eq!(
        span((1, 2, 3, 255), 2, "x"),
        "<span style=\"text-decoration:underline;color:#010203;\">x</span>"
    );
    assert_eq!(
        span((1, 2, 3, 255), 4, "x"),
        "<span style=\"font-style:italic;color:#010203;\">x</span>"
    );
    let all = "<span style=\"text-decoration:underline;font-weight:bold;font-style:italic;color:#010203;\">x</span>";
    assert_eq!(span((1, 2, 3, 255), 7, "x"), all);
    assert_eq!(span((1, 2, 3, 255), 255, "x"), all);
    assert_eq!(span((1, 2, 3, 255), 8, "x"), "<span style=\"color:#010203;\">x</span>");
    assert_eq!(
        span((1, 2, 3, 255), 5, "x"),
        "<span style=\"font-weight:bold;font-style:italic;color:#010203;\">x</span>"
    );
}

#[test]
fn span_escapes_what_html_reads_as_markup() {
    assert_eq!(
        span((1, 2, 3, 255), 0, "<'\">&"),
        "<span style=\"color:#010203;\">&lt;&#39;&quot;&gt;&amp;</span>"
    );
    assert_eq!(
        span((1, 2, 3, 255), 0, "a < b; ünï\n"),
        "<span style=\"color:#010203;\">a &lt; b; ünï\n</span>"
    );
    assert_eq!(span((1, 2, 3, 255), 0, ""), "<span style=\"color:#010203;\"></span>");
}
