use beckon::markdown::{inline_to_pango, line_to_pango, to_pango};
use beckon::pango::escape;

#[test]
fn bold() {
    assert_eq!(to_pango("a **b** c"), "a <b>b</b> c");
}

#[test]
fn italic() {
    assert_eq!(to_pango("a *b* c"), "a <i>b</i> c");
}

#[test]
fn inline_code_keeps_markers_literal() {
    assert_eq!(to_pango("use `a * b` here"), "use <tt>a * b</tt> here");
}

#[test]
fn fenced_block_escapes_markup() {
    assert_eq!(
        to_pango("```rust\nlet a = b < c;\n```"),
        "<tt>let a = b &lt; c;</tt>"
    );
}

#[test]
fn dangling_bold_is_literal() {
    assert_eq!(to_pango("a **b"), "a **b");
}

#[test]
fn unterminated_fence_mid_stream() {
    assert_eq!(to_pango("hi\n```\ncode <"), "hi\n<tt>code &lt;</tt>");
}

#[test]
fn bullets_and_headings() {
    assert_eq!(to_pango("# Title\n- item"), "<b>Title</b>\n  •  item");
    assert_eq!(to_pango("1. first"), "1.  first");
}

#[test]
fn empty_text_has_empty_markup() {
    assert_eq!(to_pango(""), "");
}

#[test]
fn plain_text_is_escaped() {
    assert_eq!(inline_to_pango("a < b & \"c\" > 'd'"), "a &lt; b &amp; &quot;c&quot; &gt; &#39;d&#39;");
    assert_eq!(escape("\u{1}\u{7f}\u{85}\u{86}\t"), "&#x1;&#x7f;\u{85}&#x86;\t");
}

#[test]
fn marks_nest_except_in_code() {
    assert_eq!(inline_to_pango("**a *b* c**"), "<b>a <i>b</i> c</b>");
    assert_eq!(inline_to_pango("`**a**`"), "<tt>**a**</tt>");
    assert_eq!(inline_to_pango("****"), "****");
    assert_eq!(inline_to_pango("`x` and **y**"), "<tt>x</tt> and <b>y</b>");
}

#[test]
fn lines_by_kind() {
    assert_eq!(line_to_pango("### third"), "<b>third</b>");
    assert_eq!(line_to_pango("#### fourth"), "#### fourth");
    assert_eq!(line_to_pango("  - in"), "    •  in");
    assert_eq!(line_to_pango(" a1. x"), " a1. x");
    assert_eq!(line_to_pango("* star"), "  •  star");
    assert_eq!(line_to_pango("12. twelfth"), "12.  twelfth");
    assert_eq!(line_to_pango("#hash"), "#hash");
}

#[test]
fn finished_lines_stay() {
    for (p, rest) in [
        ("a **b**\n```\nx <", "y\n```\n*z*"),
        ("", "x"),
        ("# t\n\n", "\n- i"),
        ("```", "code\n```\n`"),
        ("**open", "still** open"),
    ] {
        assert!(to_pango(&format!("{p}\n{rest}")).starts_with(&to_pango(p)));
    }
    // A carriage return in front of a line end belongs to it.
    assert_eq!(to_pango("a\r"), "a\r");
    assert_eq!(to_pango("a\r\nb"), "a\nb");
}

#[test]
fn unmarked_text_splits_off() {
    for t in ["", "x", "*i* j", "**b", "`c` *", "*"] {
        assert_eq!(inline_to_pango(&format!("a & b {t}")), format!("a &amp; b {}", inline_to_pango(t)));
    }
}

#[test]
fn every_line_closes_its_tags() {
    let text = "# a *b\n```rs\nx < y\n- **z**\n```\n1. `q` **r\n* *s*";
    assert_eq!(
        to_pango(text),
        "<b>a *b</b>\n<tt>x &lt; y</tt>\n<tt>- **z**</tt>\n1.  <tt>q</tt> **r\n  •  <i>s</i>"
    );
}

#[test]
fn fences_may_hold_anything() {
    assert_eq!(to_pango("```a\0b\n<\n```"), "<tt>&lt;</tt>");
}
