//! The document tree and what each node writes.
use vstd::prelude::*;
use vstd::utf8::encode_utf8;
use crate::text::{
    count_runs, escaped, prefix_of, prefixed, push_all, reserved_bytes, runs, write_escaped,
    write_line_prefixed, Escaping, NEWLINE,
};

verus! {

/// The backtick byte, which fences code spans.
pub const BACKTICK: u8 = 96;

/// The number sign byte, which opens a heading.
pub const HASH: u8 = 35;

/// One element of a document.
pub enum Node {
    /// Plain text, escaped as it is written.
    Text(String),
    Paragraph(Paragraph),
    Heading(Heading),
    Table(Table),
    Link(Link),
    RichText(RichText),
    List(List),
    Quote(Quote),
}

/// A paragraph: its children written one after another.
pub struct Paragraph {
    pub children: Vec<Node>,
}

/// An ATX heading of level 1 to 6.
pub struct Heading {
    pub children: Vec<Node>,
    pub level: usize,
}

/// A table; with `gfm` it is written as HTML.
pub struct Table {
    pub gfm: bool,
    pub columns: Vec<String>,
    pub rows: Vec<Vec<String>>,
}

/// A link: its text nodes and the address it leads to.
pub struct Link {
    pub children: Vec<Node>,
    pub address: String,
}

/// A run of text styled bold, italic and/or as code.
pub struct RichText {
    pub bold: bool,
    pub italic: bool,
    pub code: bool,
    pub text: String,
}

/// A bulleted or numbered list, with title nodes written before its items.
pub struct List {
    pub title: Vec<Node>,
    pub items: Vec<Node>,
    pub numbered: bool,
}

/// A block quote.
pub struct Quote {
    pub children: Vec<Node>,
}

/// The UTF-8 bytes of a string.
pub open spec fn text_bytes(s: String) -> Seq<u8> {
    encode_utf8(s@)
}

/// The UTF-8 bytes of a string literal.
pub open spec fn lit(s: &str) -> Seq<u8> {
    encode_utf8(s@)
}

/// The larger of two naturals.
pub open spec fn max_nat(a: nat, b: nat) -> nat {
    if a >= b {
        a
    } else {
        b
    }
}

/// What a block writes at its end when it is not nested: `data` under the
/// line prefix.
pub open spec fn block_end(inner: bool, data: Seq<u8>, prefix: Seq<u8>) -> Seq<u8> {
    if inner {
        Seq::empty()
    } else {
        prefixed(data, prefix)
    }
}

/// Plain text as written: escaped in `Normal` mode, verbatim in `InlineCode`
/// mode, followed by a blank line when not nested.
pub open spec fn emit_text(s: Seq<u8>, inner: bool, escape: Escaping, prefix: Seq<u8>) -> Seq<u8> {
    let body = match escape {
        Escaping::Normal => escaped(s, reserved_bytes(), prefix),
        Escaping::InlineCode => s,
    };
    body + block_end(inner, seq![NEWLINE, NEWLINE], prefix)
}

/// The width of the backtick fence around a code span of `s`: one more than
/// the longest run of backticks in it.
pub open spec fn fence_len(s: Seq<u8>) -> nat {
    runs(s, BACKTICK, 0).0 + 1
}

/// `n` copies of byte `b`.
pub open spec fn repeat(b: u8, n: nat) -> Seq<u8> {
    Seq::new(n, |i: int| b)
}

/// The delimiters opening a styled run: `**` for bold, then `*` for italic,
/// then the backtick fence and a space for code.
pub open spec fn opening(r: RichText) -> Seq<u8> {
    (if r.bold {
        seq![42u8, 42u8]
    } else {
        Seq::empty()
    }) + (if r.italic {
        seq![42u8]
    } else {
        Seq::empty()
    }) + (if r.code {
        repeat(BACKTICK, fence_len(text_bytes(r.text))) + seq![32u8]
    } else {
        Seq::empty()
    })
}

/// The marker before each list item: `\n1. ` when numbered, `\n* ` otherwise.
pub open spec fn marker(numbered: bool) -> Seq<u8> {
    if numbered {
        seq![NEWLINE, 49u8, 46u8, 32u8]
    } else {
        seq![NEWLINE, 42u8, 32u8]
    }
}

/// The three spaces that indent the lines of a list item.
pub open spec fn indent() -> Seq<u8> {
    seq![32u8, 32u8, 32u8]
}

/// The header cells of an HTML table.
pub open spec fn header_cells(columns: Seq<String>) -> Seq<u8>
    decreases columns.len(),
{
    if columns.len() == 0 {
        Seq::empty()
    } else {
        header_cells(columns.drop_last()) + lit("<th>") + text_bytes(columns.last()) + lit(
            "</th>",
        )
    }
}

/// The data cells of one HTML table row.
pub open spec fn row_cells(cells: Seq<String>) -> Seq<u8>
    decreases cells.len(),
{
    if cells.len() == 0 {
        Seq::empty()
    } else {
        row_cells(cells.drop_last()) + lit("<td>") + text_bytes(cells.last()) + lit("</td>")
    }
}

/// One HTML table row; a row without cells writes nothing.
pub open spec fn row_html(cells: Seq<String>) -> Seq<u8> {
    if cells.len() == 0 {
        Seq::empty()
    } else {
        lit("<tr>") + row_cells(cells) + lit("</tr>")
    }
}

/// The HTML table rows.
pub open spec fn rows_html(rows: Seq<Vec<String>>) -> Seq<u8>
    decreases rows.len(),
{
    if rows.len() == 0 {
        Seq::empty()
    } else {
        rows_html(rows.drop_last()) + row_html(rows.last()@)
    }
}

/// A whole HTML table.
pub open spec fn table_html(columns: Seq<String>, rows: Seq<Vec<String>>) -> Seq<u8> {
    lit("<table><thead><tr>") + header_cells(columns) + lit("</tr></thead><tbody>") + rows_html(
        rows,
    ) + lit("</tbody></table>")
}

/// What node `n` writes: `inner` when it is nested in another node, under the
/// escaping mode and after each newline the line prefix.
pub open spec fn emit(n: Node, inner: bool, escape: Escaping, prefix: Seq<u8>) -> Seq<u8>
    decreases n,
{
    match n {
        Node::Text(s) => emit_text(text_bytes(s), inner, escape, prefix),
        Node::Paragraph(p) => emit_all(p.children@, Seq::empty(), escape, prefix) + block_end(
            inner,
            seq![NEWLINE, NEWLINE],
            prefix,
        ),
        Node::Heading(h) => repeat(HASH, h.level as nat) + seq![32u8] + emit_all(
            h.children@,
            Seq::empty(),
            Escaping::Normal,
            prefix,
        ) + prefixed(seq![NEWLINE], prefix),
        Node::Table(t) => (if t.gfm {
            table_html(t.columns@, t.rows@)
        } else {
            Seq::empty()
        }) + prefixed(seq![NEWLINE], prefix),
        Node::Link(l) => seq![91u8] + emit_all(l.children@, Seq::empty(), escape, prefix) + seq![
            93u8,
            40u8,
        ] + emit_text(text_bytes(l.address), true, escape, prefix) + seq![41u8] + block_end(
            inner,
            seq![NEWLINE],
            prefix,
        ),
        Node::RichText(r) => opening(r) + emit_text(
            text_bytes(r.text),
            true,
            if r.code {
                Escaping::InlineCode
            } else {
                escape
            },
            prefix,
        ) + opening(r).reverse() + block_end(inner, seq![NEWLINE, NEWLINE], prefix),
        Node::List(l) => emit_all(l.title@, Seq::empty(), escape, prefix) + emit_all(
            l.items@,
            marker(l.numbered),
            escape,
            prefix + indent(),
        ),
        Node::Quote(q) => block_end(inner, seq![NEWLINE], prefix) + seq![62u8] + emit_all(
            q.children@,
            Seq::empty(),
            escape,
            prefix + seq![62u8],
        ) + block_end(inner, seq![NEWLINE, NEWLINE], prefix),
    }
}

/// Nested nodes written one after another, each after `mark` under the line
/// prefix.
pub open spec fn emit_all(cs: Seq<Node>, mark: Seq<u8>, escape: Escaping, prefix: Seq<u8>) -> Seq<
    u8,
>
    decreases cs,
{
    if cs.len() == 0 {
        Seq::empty()
    } else {
        emit_all(cs.drop_last(), mark, escape, prefix) + prefixed(mark, prefix) + emit(
            cs.last(),
            true,
            escape,
            prefix,
        )
    }
}

/// Runs of byte `c` in node `n` after `carry` copies of it: the longest run,
/// and the run still open at the end of the node.
pub open spec fn streak(n: Node, c: u8, carry: nat) -> (nat, nat)
    decreases n,
{
    match n {
        Node::Text(s) => runs(text_bytes(s), c, carry),
        Node::Paragraph(p) => (streak_all(p.children@, c, carry).0, 0),
        Node::Heading(h) => streak_all(h.children@, c, 0),
        Node::Table(_) => (0, 0),
        Node::Link(l) => (
            max_nat(streak_all(l.children@, c, 0).0, runs(text_bytes(l.address), c, 0).0),
            0,
        ),
        Node::RichText(r) => (runs(text_bytes(r.text), c, 0).0, 0),
        Node::List(l) => (longest_of(l.items@, c), 0),
        Node::Quote(q) => (longest_of(q.children@, c), 0),
    }
}

/// Runs of `c` over adjacent nodes: the open run of each is carried into the
/// next.
pub open spec fn streak_all(cs: Seq<Node>, c: u8, carry: nat) -> (nat, nat)
    decreases cs,
{
    if cs.len() == 0 {
        (carry, carry)
    } else {
        let (longest, open) = streak_all(cs.drop_last(), c, carry);
        let (m, t) = streak(cs.last(), c, open);
        (max_nat(longest, m), t)
    }
}

/// The longest run of `c` in any of separate nodes.
pub open spec fn longest_of(cs: Seq<Node>, c: u8) -> nat
    decreases cs,
{
    if cs.len() == 0 {
        0
    } else {
        max_nat(longest_of(cs.drop_last(), c), streak(cs.last(), c, 0).0)
    }
}

/// The number of text bytes in node `n`.
pub open spec fn size(n: Node) -> nat
    decreases n,
{
    match n {
        Node::Text(s) => text_bytes(s).len(),
        Node::Paragraph(p) => size_all(p.children@),
        Node::Heading(h) => size_all(h.children@),
        Node::Table(_) => 0,
        Node::Link(l) => size_all(l.children@) + text_bytes(l.address).len(),
        Node::RichText(r) => text_bytes(r.text).len(),
        Node::List(l) => size_all(l.title@) + size_all(l.items@),
        Node::Quote(q) => size_all(q.children@),
    }
}

/// The number of text bytes in a sequence of nodes.
pub open spec fn size_all(cs: Seq<Node>) -> nat
    decreases cs,
{
    if cs.len() == 0 {
        0
    } else {
        size_all(cs.drop_last()) + size(cs.last())
    }
}

/// Whether `n` may stand nested inside another node: it holds no heading.
pub open spec fn nested_ok(n: Node) -> bool
    decreases n,
{
    match n {
        Node::Heading(_) => false,
        Node::Paragraph(p) => all_nested_ok(p.children@),
        Node::Link(l) => all_nested_ok(l.children@),
        Node::List(l) => all_nested_ok(l.title@) && all_nested_ok(l.items@),
        Node::Quote(q) => all_nested_ok(q.children@),
        _ => true,
    }
}

/// Whether each of the nodes may stand nested.
pub open spec fn all_nested_ok(cs: Seq<Node>) -> bool
    decreases cs,
{
    if cs.len() == 0 {
        true
    } else {
        all_nested_ok(cs.drop_last()) && nested_ok(cs.last())
    }
}

/// Whether `n` may be written as a document's top element: every node nested
/// in it may stand nested.
pub open spec fn root_ok(n: Node) -> bool {
    match n {
        Node::Heading(h) => all_nested_ok(h.children@),
        _ => nested_ok(n),
    }
}

/// Whether `n` holds no link.
pub open spec fn link_free(n: Node) -> bool
    decreases n,
{
    match n {
        Node::Link(_) => false,
        Node::Paragraph(p) => all_link_free(p.children@),
        Node::Heading(h) => all_link_free(h.children@),
        Node::List(l) => all_link_free(l.title@) && all_link_free(l.items@),
        Node::Quote(q) => all_link_free(q.children@),
        _ => true,
    }
}

/// Whether none of the nodes holds a link.
pub open spec fn all_link_free(cs: Seq<Node>) -> bool
    decreases cs,
{
    if cs.len() == 0 {
        true
    } else {
        all_link_free(cs.drop_last()) && link_free(cs.last())
    }
}

proof fn lemma_size_prefix(cs: Seq<Node>, i: int)
    requires
        0 <= i <= cs.len(),
    ensures
        size_all(cs.take(i)) <= size_all(cs),
    decreases cs.len(),
{
    if i < cs.len() {
        lemma_size_prefix(cs.drop_last(), i);
        assert(cs.drop_last().take(i) =~= cs.take(i));
    } else {
        assert(cs.take(i) =~= cs);
    }
}

proof fn lemma_nested_index(cs: Seq<Node>, i: int)
    requires
        0 <= i < cs.len(),
        all_nested_ok(cs),
    ensures
        nested_ok(cs[i]),
    decreases cs.len(),
{
    if i < cs.len() - 1 {
        lemma_nested_index(cs.drop_last(), i);
    }
}

/// Writes plain text `s`: escaped in `Normal` mode, verbatim in `InlineCode`
/// mode, and followed by a blank line when not nested.
pub fn write_text(s: &str, out: &mut Vec<u8>, inner: bool, escape: Escaping, line_prefix: Option<&[u8]>)
    ensures
        final(out)@ == old(out)@ + emit_text(encode_utf8(s@), inner, escape, prefix_of(line_prefix)),
{
    let data = s.as_bytes();
    match escape {
        Escaping::Normal => {
            let reserved: Vec<u8> = vec![92u8, 96u8, 42u8, 95u8, 123u8, 125u8, 91u8, 93u8, 40u8, 41u8, 35u8, 43u8, 45u8, 46u8, 33u8];
            assert(reserved@ =~= reserved_bytes());
            write_escaped(out, data, reserved.as_slice(), line_prefix);
        },
        Escaping::InlineCode => {
            push_all(out, data);
        },
    }
    write_block_end(out, inner, 2, line_prefix);
}

/// Writes `count` newlines under the line prefix, unless nested.
fn write_block_end(out: &mut Vec<u8>, inner: bool, count: usize, line_prefix: Option<&[u8]>)
    requires
        count == 1 || count == 2,
    ensures
        final(out)@ == old(out)@ + block_end(
            inner,
            if count == 1 {
                seq![NEWLINE]
            } else {
                seq![NEWLINE, NEWLINE]
            },
            prefix_of(line_prefix),
        ),
{
    if !inner {
        let newlines: Vec<u8> = if count == 1 {
            vec![NEWLINE]
        } else {
            vec![NEWLINE, NEWLINE]
        };
        assert(newlines@ =~= if count == 1 {
            seq![NEWLINE]
        } else {
            seq![NEWLINE, NEWLINE]
        });
        write_line_prefixed(out, newlines.as_slice(), line_prefix);
    }
}

/// Writes nested nodes one after another, each after `mark` under the line
/// prefix.
fn write_all(cs: &Vec<Node>, mark: &[u8], out: &mut Vec<u8>, escape: Escaping, line_prefix: Option<&[u8]>)
    requires
        all_nested_ok(cs@),
    ensures
        final(out)@ == old(out)@ + emit_all(cs@, mark@, escape, prefix_of(line_prefix)),
    decreases cs,
{
    let mut i: usize = 0;
    while i < cs.len()
        invariant
            i <= cs@.len(),
            all_nested_ok(cs@),
            out@ == old(out)@ + emit_all(cs@.take(i as int), mark@, escape, prefix_of(line_prefix)),
        decreases cs@.len() - i,
    {
        proof {
            lemma_nested_index(cs@, i as int);
        }
        write_line_prefixed(out, mark, line_prefix);
        cs[i].write_to(out, true, escape, line_prefix);
        i = i + 1;
        assert(cs@.take(i as int).drop_last() =~= cs@.take(i - 1));
    }
    assert(cs@.take(cs@.len() as int) =~= cs@);
}

/// The runs of `c` over adjacent nodes, each carrying its open run into the
/// next.
fn count_all(cs: &Vec<Node>, c: u8, carry: usize) -> (r: (usize, usize))
    requires
        carry + size_all(cs@) <= usize::MAX,
    ensures
        (r.0 as nat, r.1 as nat) == streak_all(cs@, c, carry as nat),
        r.1 <= r.0 <= carry + size_all(cs@),
    decreases cs,
{
    let mut longest: usize = carry;
    let mut open: usize = carry;
    let mut i: usize = 0;
    while i < cs.len()
        invariant
            i <= cs@.len(),
            carry + size_all(cs@) <= usize::MAX,
            (longest as nat, open as nat) == streak_all(cs@.take(i as int), c, carry as nat),
            open <= longest <= carry + size_all(cs@.take(i as int)),
        decreases cs@.len() - i,
    {
        assert(cs@.take(i + 1).drop_last() =~= cs@.take(i as int));
        proof {
            lemma_size_prefix(cs@, i + 1);
        }
        let (m, t) = cs[i].count_max_streak(c, open);
        if m > longest {
            longest = m;
        }
        open = t;
        i = i + 1;
    }
    assert(cs@.take(cs@.len() as int) =~= cs@);
    (longest, open)
}

/// The longest run of `c` in any one of separate nodes.
fn longest_in(cs: &Vec<Node>, c: u8) -> (r: usize)
    requires
        size_all(cs@) <= usize::MAX,
    ensures
        r as nat == longest_of(cs@, c),
        r <= size_all(cs@),
    decreases cs,
{
    let mut longest: usize = 0;
    let mut i: usize = 0;
    while i < cs.len()
        invariant
            i <= cs@.len(),
            size_all(cs@) <= usize::MAX,
            longest as nat == longest_of(cs@.take(i as int), c),
            longest <= size_all(cs@.take(i as int)),
        decreases cs@.len() - i,
    {
        assert(cs@.take(i + 1).drop_last() =~= cs@.take(i as int));
        proof {
            lemma_size_prefix(cs@, i + 1);
        }
        let (m, _) = cs[i].count_max_streak(c, 0);
        if m > longest {
            longest = m;
        }
        i = i + 1;
    }
    assert(cs@.take(cs@.len() as int) =~= cs@);
    longest
}

impl Node {
    /// Writes this node to `out`. `inner` tells that it is nested in another
    /// node; each newline it writes is followed by `line_prefix`.
    pub fn write_to(&self, out: &mut Vec<u8>, inner: bool, escape: Escaping, line_prefix: Option<&[u8]>)
        requires
            if inner {
                nested_ok(*self)
            } else {
                root_ok(*self)
            },
        ensures
            final(out)@ == old(out)@ + emit(*self, inner, escape, prefix_of(line_prefix)),
        decreases self,
    {
        match self {
            Node::Text(s) => write_text(s.as_str(), out, inner, escape, line_prefix),
            Node::Paragraph(p) => p.write_to(out, inner, escape, line_prefix),
            Node::Heading(h) => h.write_to(out, inner, escape, line_prefix),
            Node::Table(t) => t.write_to(out, inner, escape, line_prefix),
            Node::Link(l) => l.write_to(out, inner, escape, line_prefix),
            Node::RichText(r) => r.write_to(out, inner, escape, line_prefix),
            Node::List(l) => l.write_to(out, inner, escape, line_prefix),
            Node::Quote(q) => q.write_to(out, inner, escape, line_prefix),
        }
    }

    /// The longest run of `c` in this node after `carry` copies of it, and the
    /// run still open at its end.
    pub fn count_max_streak(&self, c: u8, carry: usize) -> (r: (usize, usize))
        requires
            carry + size(*self) <= usize::MAX,
        ensures
            (r.0 as nat, r.1 as nat) == streak(*self, c, carry as nat),
            r.1 <= r.0 <= carry + size(*self),
        decreases self,
    {
        match self {
            Node::Text(s) => count_runs(s.as_str().as_bytes(), c, carry),
            Node::Paragraph(p) => p.count_max_streak(c, carry),
            Node::Heading(h) => h.count_max_streak(c, carry),
            Node::Table(t) => t.count_max_streak(c, carry),
            Node::Link(l) => l.count_max_streak(c, carry),
            Node::RichText(r) => r.count_max_streak(c, carry),
            Node::List(l) => l.count_max_streak(c, carry),
            Node::Quote(q) => q.count_max_streak(c, carry),
        }
    }
}

impl Paragraph {
    /// Writes the children one after another, then a blank line when not
    /// nested.
    pub fn write_to(&self, out: &mut Vec<u8>, inner: bool, escape: Escaping, line_prefix: Option<&[u8]>)
        requires
            all_nested_ok(self.children@),
        ensures
            final(out)@ == old(out)@ + emit(Node::Paragraph(*self), inner, escape, prefix_of(line_prefix)),
        decreases self,
    {
        let none: Vec<u8> = Vec::new();
        write_all(&self.children, none.as_slice(), out, escape, line_prefix);
        write_block_end(out, inner, 2, line_prefix);
    }

    /// The longest run of `c` in this element and the run open at its end.
    pub fn count_max_streak(&self, c: u8, carry: usize) -> (r: (usize, usize))
        requires
            carry + size(Node::Paragraph(*self)) <= usize::MAX,
        ensures
            (r.0 as nat, r.1 as nat) == streak(Node::Paragraph(*self), c, carry as nat),
            r.1 <= r.0 <= carry + size(Node::Paragraph(*self)),
        decreases self,
    {
        let (longest, _) = count_all(&self.children, c, carry);
        (longest, 0)
    }
}

impl Heading {
    /// Writes the heading; a heading is never nested.
    pub fn write_to(&self, out: &mut Vec<u8>, inner: bool, escape: Escaping, line_prefix: Option<&[u8]>)
        requires
            !inner,
            all_nested_ok(self.children@),
        ensures
            final(out)@ == old(out)@ + emit(Node::Heading(*self), inner, escape, prefix_of(line_prefix)),
        decreases self,
    {
        let ghost start = out@;
        let mut k: usize = 0;
        while k < self.level
            invariant
                k <= self.level,
                out@ == start + repeat(HASH, k as nat),
            decreases self.level - k,
        {
            out.push(HASH);
            k = k + 1;
            assert(out@ =~= start + repeat(HASH, k as nat));
        }
        out.push(32u8);
        let none: Vec<u8> = Vec::new();
        write_all(&self.children, none.as_slice(), out, Escaping::Normal, line_prefix);
        write_block_end(out, false, 1, line_prefix);
    }

    /// The longest run of `c` in this element and the run open at its end.
    pub fn count_max_streak(&self, c: u8, carry: usize) -> (r: (usize, usize))
        requires
            carry + size(Node::Heading(*self)) <= usize::MAX,
        ensures
            (r.0 as nat, r.1 as nat) == streak(Node::Heading(*self), c, carry as nat),
            r.1 <= r.0 <= carry + size(Node::Heading(*self)),
        decreases self,
    {
        count_all(&self.children, c, 0)
    }
}

/// Appends the UTF-8 bytes of `s`.
fn push_str(out: &mut Vec<u8>, s: &str)
    ensures
        final(out)@ == old(out)@ + encode_utf8(s@),
{
    push_all(out, s.as_bytes());
}

/// Writes one HTML table row.
fn write_row(out: &mut Vec<u8>, cells: &Vec<String>)
    ensures
        final(out)@ == old(out)@ + row_html(cells@),
{
    if cells.len() == 0 {
        return;
    }
    let ghost start = out@;
    push_str(out, "<tr>");
    let mut r: usize = 0;
    while r < cells.len()
        invariant
            r <= cells@.len(),
            out@ == start + lit("<tr>") + row_cells(cells@.take(r as int)),
        decreases cells@.len() - r,
    {
        push_str(out, "<td>");
        push_str(out, cells[r].as_str());
        push_str(out, "</td>");
        r = r + 1;
        assert(cells@.take(r as int).drop_last() =~= cells@.take(r - 1));
        assert(out@ =~= start + lit("<tr>") + row_cells(cells@.take(r as int)));
    }
    assert(cells@.take(cells@.len() as int) =~= cells@);
    push_str(out, "</tr>");
    assert(out@ =~= start + row_html(cells@));
}

impl Table {
    /// Writes the table: as HTML when `gfm` is set, else nothing; then a
    /// newline.
    pub fn write_to(&self, out: &mut Vec<u8>, inner: bool, escape: Escaping, line_prefix: Option<&[u8]>)
        ensures
            final(out)@ == old(out)@ + emit(Node::Table(*self), inner, escape, prefix_of(line_prefix)),
    {
        let ghost start = out@;
        if self.gfm {
            push_str(out, "<table><thead><tr>");
            let mut k: usize = 0;
            while k < self.columns.len()
                invariant
                    k <= self.columns@.len(),
                    out@ == start + lit("<table><thead><tr>") + header_cells(self.columns@.take(k as int)),
                decreases self.columns@.len() - k,
            {
                push_str(out, "<th>");
                push_str(out, self.columns[k].as_str());
                push_str(out, "</th>");
                k = k + 1;
                assert(self.columns@.take(k as int).drop_last() =~= self.columns@.take(k - 1));
                assert(out@ =~= start + lit("<table><thead><tr>") + header_cells(self.columns@.take(k as int)));
            }
            assert(self.columns@.take(self.columns@.len() as int) =~= self.columns@);
            push_str(out, "</tr></thead><tbody>");
            let ghost mid = out@;
            let mut i: usize = 0;
            while i < self.rows.len()
                invariant
                    i <= self.rows@.len(),
                    out@ == mid + rows_html(self.rows@.take(i as int)),
                decreases self.rows@.len() - i,
            {
                write_row(out, &self.rows[i]);
                i = i + 1;
                assert(self.rows@.take(i as int).drop_last() =~= self.rows@.take(i - 1));
                assert(out@ =~= mid + rows_html(self.rows@.take(i as int)));
            }
            assert(self.rows@.take(self.rows@.len() as int) =~= self.rows@);
            push_str(out, "</tbody></table>");
            assert(out@ =~= start + table_html(self.columns@, self.rows@));
        }
        write_block_end(out, false, 1, line_prefix);
    }

    /// The longest run of `c` in this element and the run open at its end.
    pub fn count_max_streak(&self, c: u8, carry: usize) -> (r: (usize, usize))
        ensures
            (r.0 as nat, r.1 as nat) == streak(Node::Table(*self), c, carry as nat),
            r.1 <= r.0 <= carry + size(Node::Table(*self)),
    {
        (0, 0)
    }
}

impl Link {
    /// Writes `[text](address)`, then a newline when not nested.
    pub fn write_to(&self, out: &mut Vec<u8>, inner: bool, escape: Escaping, line_prefix: Option<&[u8]>)
        requires
            all_nested_ok(self.children@),
        ensures
            final(out)@ == old(out)@ + emit(Node::Link(*self), inner, escape, prefix_of(line_prefix)),
        decreases self,
    {
        let ghost start = out@;
        out.push(91u8);
        let none: Vec<u8> = Vec::new();
        write_all(&self.children, none.as_slice(), out, escape, line_prefix);
        out.push(93u8);
        out.push(40u8);
        write_text(self.address.as_str(), out, true, escape, line_prefix);
        out.push(41u8);
        write_block_end(out, inner, 1, line_prefix);
        assert(out@ =~= start + emit(Node::Link(*self), inner, escape, prefix_of(line_prefix)));
    }

    /// The longest run of `c` in this element and the run open at its end.
    pub fn count_max_streak(&self, c: u8, carry: usize) -> (r: (usize, usize))
        requires
            carry + size(Node::Link(*self)) <= usize::MAX,
        ensures
            (r.0 as nat, r.1 as nat) == streak(Node::Link(*self), c, carry as nat),
            r.1 <= r.0 <= carry + size(Node::Link(*self)),
        decreases self,
    {
        let (address, _) = count_runs(self.address.as_str().as_bytes(), c, 0);
        let (text, _) = count_all(&self.children, c, 0);
        if text > address {
            (text, 0)
        } else {
            (address, 0)
        }
    }
}

/// Appends the bytes of `data` in reverse order.
fn push_reversed(out: &mut Vec<u8>, data: &[u8])
    ensures
        final(out)@ == old(out)@ + data@.reverse(),
{
    let mut j: usize = data.len();
    while j > 0
        invariant
            j <= data@.len(),
            out@ == old(out)@ + data@.reverse().take(data@.len() - j),
        decreases j,
    {
        j = j - 1;
        out.push(data[j]);
        assert(out@ =~= old(out)@ + data@.reverse().take(data@.len() - j));
    }
    assert(data@.reverse().take(data@.len() as int) =~= data@.reverse());
}

impl RichText {
    /// The delimiters that open this run; its closing ones are the same
    /// bytes reversed.
    fn opening_symbol(&self) -> (r: Vec<u8>)
        ensures
            r@ == opening(*self),
    {
        let mut symbol: Vec<u8> = Vec::new();
        if self.bold {
            symbol.push(42u8);
            symbol.push(42u8);
        }
        if self.italic {
            symbol.push(42u8);
        }
        if self.code {
            let ghost before = symbol@;
            let (longest, _) = count_runs(self.text.as_str().as_bytes(), BACKTICK, 0);
            let mut k: usize = 0;
            while k < longest
                invariant
                    k <= longest,
                    symbol@ == before + repeat(BACKTICK, k as nat),
                decreases longest - k,
            {
                symbol.push(BACKTICK);
                k = k + 1;
                assert(symbol@ =~= before + repeat(BACKTICK, k as nat));
            }
            symbol.push(BACKTICK);
            symbol.push(32u8);
            assert(symbol@ =~= before + repeat(BACKTICK, longest as nat + 1) + seq![32u8]);
        }
        assert(symbol@ =~= opening(*self));
        symbol
    }

    /// Writes the run between its delimiters; as code, its text is written
    /// verbatim.
    pub fn write_to(&self, out: &mut Vec<u8>, inner: bool, escape: Escaping, line_prefix: Option<&[u8]>)
        ensures
            final(out)@ == old(out)@ + emit(Node::RichText(*self), inner, escape, prefix_of(line_prefix)),
    {
        let ghost start = out@;
        let symbol = self.opening_symbol();
        let mode = if self.code {
            Escaping::InlineCode
        } else {
            escape
        };
        push_all(out, symbol.as_slice());
        write_text(self.text.as_str(), out, true, mode, line_prefix);
        push_reversed(out, symbol.as_slice());
        write_block_end(out, inner, 2, line_prefix);
        assert(out@ =~= start + emit(Node::RichText(*self), inner, escape, prefix_of(line_prefix)));
    }

    /// The longest run of `c` in this element and the run open at its end.
    pub fn count_max_streak(&self, c: u8, carry: usize) -> (r: (usize, usize))
        ensures
            (r.0 as nat, r.1 as nat) == streak(Node::RichText(*self), c, carry as nat),
            r.1 <= r.0 <= carry + size(Node::RichText(*self)),
    {
        let (longest, _) = count_runs(self.text.as_str().as_bytes(), c, 0);
        (longest, 0)
    }
}

/// The line prefix extended by `tail`.
fn extend_prefix(line_prefix: Option<&[u8]>, tail: &[u8]) -> (r: Vec<u8>)
    ensures
        r@ == prefix_of(line_prefix) + tail@,
{
    let mut prefix: Vec<u8> = Vec::new();
    if let Some(p) = line_prefix {
        push_all(&mut prefix, p);
    }
    push_all(&mut prefix, tail);
    prefix
}

impl List {
    /// Writes the title, then each item after its marker, with the item's
    /// lines indented by three more spaces.
    pub fn write_to(&self, out: &mut Vec<u8>, inner: bool, escape: Escaping, line_prefix: Option<&[u8]>)
        requires
            all_nested_ok(self.title@),
            all_nested_ok(self.items@),
        ensures
            final(out)@ == old(out)@ + emit(Node::List(*self), inner, escape, prefix_of(line_prefix)),
        decreases self,
    {
        let none: Vec<u8> = Vec::new();
        write_all(&self.title, none.as_slice(), out, escape, line_prefix);
        let spaces: Vec<u8> = vec![32u8, 32u8, 32u8];
        let prefix = extend_prefix(line_prefix, spaces.as_slice());
        let mark: Vec<u8> = if self.numbered {
            vec![NEWLINE, 49u8, 46u8, 32u8]
        } else {
            vec![NEWLINE, 42u8, 32u8]
        };
        assert(prefix@ =~= prefix_of(line_prefix) + indent());
        assert(mark@ =~= marker(self.numbered));
        write_all(&self.items, mark.as_slice(), out, escape, Some(prefix.as_slice()));
    }

    /// The longest run of `c` in this element and the run open at its end.
    pub fn count_max_streak(&self, c: u8, carry: usize) -> (r: (usize, usize))
        requires
            carry + size(Node::List(*self)) <= usize::MAX,
        ensures
            (r.0 as nat, r.1 as nat) == streak(Node::List(*self), c, carry as nat),
            r.1 <= r.0 <= carry + size(Node::List(*self)),
        decreases self,
    {
        (longest_in(&self.items, c), 0)
    }
}

impl Quote {
    /// Writes `>` and then the children with `>` added to the line prefix;
    /// a quote that is not nested starts on a new line and ends with a blank
    /// line.
    pub fn write_to(&self, out: &mut Vec<u8>, inner: bool, escape: Escaping, line_prefix: Option<&[u8]>)
        requires
            all_nested_ok(self.children@),
        ensures
            final(out)@ == old(out)@ + emit(Node::Quote(*self), inner, escape, prefix_of(line_prefix)),
        decreases self,
    {
        let ghost start = out@;
        let gt: Vec<u8> = vec![62u8];
        assert(gt@ =~= seq![62u8]);
        let prefix = extend_prefix(line_prefix, gt.as_slice());
        write_block_end(out, inner, 1, line_prefix);
        out.push(62u8);
        let none: Vec<u8> = Vec::new();
        let inner_prefix = prefix.as_slice();
        assert(prefix_of(Some(inner_prefix)) =~= prefix_of(line_prefix) + seq![62u8]);
        write_all(&self.children, none.as_slice(), out, escape, Some(inner_prefix));
        write_block_end(out, inner, 2, line_prefix);
        assert(out@ =~= start + emit(Node::Quote(*self), inner, escape, prefix_of(line_prefix)));
    }

    /// The longest run of `c` in this element and the run open at its end.
    pub fn count_max_streak(&self, c: u8, carry: usize) -> (r: (usize, usize))
        requires
            carry + size(Node::Quote(*self)) <= usize::MAX,
        ensures
            (r.0 as nat, r.1 as nat) == streak(Node::Quote(*self), c, carry as nat),
            r.1 <= r.0 <= carry + size(Node::Quote(*self)),
        decreases self,
    {
        (longest_in(&self.children, c), 0)
    }
}

} // verus!
