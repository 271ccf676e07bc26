use markdown::{write_escaped, write_line_prefixed};
use markdown::{AsMarkdown, Escaping, Heading, Link, List, Markdown, MarkdownWritable};
use markdown::{Node, Paragraph, Quote, RichText, Table};

fn render<T: MarkdownWritable>(element: T) -> String {
    let mut md = Markdown::new(Vec::new());
    md.write(element);
    String::from_utf8(md.into_inner()).unwrap()
}

#[test]
fn paragraph_escapes_emphasis() {
    assert_eq!(render(Paragraph::new().append("hello *world*")), "hello \\*world\\*\n\n");
}

#[test]
fn code_span_fence_exceeds_single_backticks() {
    assert_eq!(render("a`b`c".code()), "`` a`b`c ``\n\n");
}

#[test]
fn code_span_without_backticks_has_one_backtick_fence() {
    assert_eq!(render("abc".code()), "` abc `\n\n");
}

#[test]
fn code_span_fence_counts_trailing_run() {
    assert_eq!(render("a``".code()), "``` a`` ```\n\n");
}

#[test]
fn code_span_text_is_not_escaped() {
    assert_eq!(render(Paragraph::new().append("*x*".code())), "` *x* `\n\n");
}

#[test]
fn bold_italic_code_nest_in_order() {
    assert_eq!(render("x".bold().italic().code()), "***` x `***\n\n");
    assert_eq!(render("x".bold()), "**x**\n\n");
    assert_eq!(render("x".italic()), "*x*\n\n");
    assert_eq!(render(String::from("y").bold()), "**y**\n\n");
}

#[test]
fn gfm_table_html() {
    let table = Table::new(true)
        .header(vec!["A".to_string(), "B".to_string()])
        .rows(vec![vec!["x".to_string(), "y".to_string()]]);
    assert_eq!(
        render(table),
        "<table><thead><tr><th>A</th><th>B</th></tr></thead><tbody><tr><td>x</td><td>y</td></tr></tbody></table>\n"
    );
}

#[test]
fn gfm_table_single_cell_row_is_closed() {
    let table = Table::new(true)
        .header(vec!["A".to_string()])
        .rows(vec![vec!["x".to_string()], vec![]]);
    assert_eq!(
        render(table),
        "<table><thead><tr><th>A</th></tr></thead><tbody><tr><td>x</td></tr></tbody></table>\n"
    );
}

#[test]
fn plain_table_writes_only_newline() {
    let table = Table::new(false).header(vec!["A".to_string()]);
    assert_eq!(render(table), "\n");
}

#[test]
fn heading_levels() {
    for level in 1..=6usize {
        let out = render(Heading::new(level).append("t"));
        assert_eq!(out, format!("{} t\n", "#".repeat(level)));
    }
    assert_eq!(render("a.b".heading(2)), "## a\\.b\n");
}

#[test]
fn quote_prefixes_every_line() {
    let out = render(Quote::new().append(Paragraph::new().append("a\nb")));
    assert_eq!(out, "\n>a\n>b\n\n");
}

#[test]
fn nested_quotes_extend_prefix() {
    let out = render(Quote::new().append("a\nb".quote()));
    assert_eq!(out, "\n>>a\n>>b\n\n");
}

#[test]
fn numbered_list_repeats_marker() {
    let list = List::new(true).item("a").item("b").item("c");
    assert_eq!(render(list), "\n   1. a\n   1. b\n   1. c");
}

#[test]
fn bulleted_list_with_title() {
    let list = List::new(false).title("T").item("x\ny");
    assert_eq!(render(list), "T\n   * x\n   y");
}

#[test]
fn list_in_quote_combines_prefixes() {
    let out = render(Quote::new().append(List::new(false).item("a")));
    assert_eq!(out, "\n>\n>   * a\n\n");
}

#[test]
fn link_escapes_address() {
    assert_eq!(render("text".link_to("http://a.b")), "[text](http://a\\.b)\n");
    let link = Link::new("u").append("x".bold());
    assert_eq!(render(Paragraph::new().append(link)), "[**x**](u)\n\n");
}

#[test]
fn every_reserved_byte_gets_one_backslash() {
    let out = render(Paragraph::new().append("\\`*_{}[]()#+-.!"));
    assert_eq!(out, "\\\\\\`\\*\\_\\{\\}\\[\\]\\(\\)\\#\\+\\-\\.\\!\n\n");
    assert_eq!(render("plain text"), "plain text\n\n");
}

#[test]
fn inline_code_mode_writes_verbatim() {
    let mut out = Vec::new();
    Node::Text("a*b\\c".to_string()).write_to(&mut out, true, Escaping::InlineCode, None);
    assert_eq!(out, b"a*b\\c".to_vec());
}

#[test]
fn line_prefix_follows_each_newline() {
    let mut out = Vec::new();
    write_line_prefixed(&mut out, b"a\nb\n", Some(b"> "));
    assert_eq!(out, b"a\n> b\n> ".to_vec());
    let mut plain = Vec::new();
    write_line_prefixed(&mut plain, b"a\nb", None);
    assert_eq!(plain, b"a\nb".to_vec());
}

#[test]
fn escaping_with_prefix() {
    let mut out = Vec::new();
    write_escaped(&mut out, b"*\n*", b"*", Some(b">"));
    assert_eq!(out, b"\\*\n>\\*".to_vec());
}

#[test]
fn streak_carries_across_siblings() {
    let p = Paragraph::new().append("a`").append("`b");
    assert_eq!(p.count_max_streak(b'`', 0), (2, 0));
    let t = Node::Text("``a`".to_string());
    assert_eq!(t.count_max_streak(b'`', 0), (2, 1));
    assert_eq!(Node::Text("a``".to_string()).count_max_streak(b'`', 1), (2, 2));
    assert_eq!(Node::Text("``".to_string()).count_max_streak(b'`', 1), (3, 3));
}

#[test]
fn container_streaks() {
    let link = Link::new("x```").append("``");
    assert_eq!(link.count_max_streak(b'`', 5), (3, 0));
    let list = List::new(false).item("`").item("````");
    assert_eq!(list.count_max_streak(b'`', 0), (4, 0));
    let quote = Quote::new().append("``");
    assert_eq!(quote.count_max_streak(b'`', 0), (2, 0));
    let heading = Heading::new(1).append("a").append("``");
    assert_eq!(heading.count_max_streak(b'`', 4), (2, 2));
    assert_eq!(Table::new(true).count_max_streak(b'`', 3), (0, 0));
    assert_eq!("a``b".code().count_max_streak(b'`', 0), (2, 0));
}

#[test]
fn document_keeps_earlier_bytes() {
    let mut md = Markdown::new(b"# ".to_vec());
    md.write("t");
    md.write(Paragraph::new().append("u"));
    assert_eq!(md.into_inner(), b"# t\n\nu\n\n".to_vec());
}

#[test]
fn conversions_wrap_value() {
    assert_eq!(render("p".paragraph()), "p\n\n");
    assert_eq!(render(String::from("s").paragraph()), "s\n\n");
    assert_eq!(render(List::new(false).item("i").paragraph()), "\n   * i\n\n");
    assert_eq!(render(Link::new("u").append("t").quote()), "\n>[t](u)\n\n");
    assert_eq!(render(Heading::new(1).append(Link::new("u").append("t"))), "# [t](u)\n");
    assert_eq!(render(RichText::new("r").bold().link_to("v")), "[**r**](v)\n");
}
