//! Building documents and writing them out.
use vstd::prelude::*;
use crate::node::{
    all_link_free, all_nested_ok, emit, link_free, nested_ok, root_ok, Heading, Link, List, Node, Paragraph,
    Quote, RichText, Table,
};
use crate::text::Escaping;

verus! {

/// A value that can stand in a document as a node.
pub trait MarkdownWritable: Sized {
    /// Whether `n` is the node that this value becomes.
    spec fn is_node(&self, n: Node) -> bool;

    /// The node that this value becomes.
    fn into_node(self) -> (r: Node)
        ensures
            self.is_node(r),
    ;
}

impl<'a> MarkdownWritable for &'a str {
    open spec fn is_node(&self, n: Node) -> bool {
        match n {
            Node::Text(t) => t@ == self@,
            _ => false,
        }
    }

    fn into_node(self) -> (r: Node) {
        Node::Text(str::to_owned(self))
    }
}

impl MarkdownWritable for String {
    open spec fn is_node(&self, n: Node) -> bool {
        match n {
            Node::Text(t) => t@ == self@,
            _ => false,
        }
    }

    fn into_node(self) -> (r: Node) {
        Node::Text(self)
    }
}

impl MarkdownWritable for Node {
    open spec fn is_node(&self, n: Node) -> bool {
        n == *self
    }

    fn into_node(self) -> (r: Node) {
        self
    }
}

impl MarkdownWritable for Paragraph {
    open spec fn is_node(&self, n: Node) -> bool {
        n == Node::Paragraph(*self)
    }

    fn into_node(self) -> (r: Node) {
        Node::Paragraph(self)
    }
}

impl MarkdownWritable for Heading {
    open spec fn is_node(&self, n: Node) -> bool {
        n == Node::Heading(*self)
    }

    fn into_node(self) -> (r: Node) {
        Node::Heading(self)
    }
}

impl MarkdownWritable for Table {
    open spec fn is_node(&self, n: Node) -> bool {
        n == Node::Table(*self)
    }

    fn into_node(self) -> (r: Node) {
        Node::Table(self)
    }
}

impl MarkdownWritable for Link {
    open spec fn is_node(&self, n: Node) -> bool {
        n == Node::Link(*self)
    }

    fn into_node(self) -> (r: Node) {
        Node::Link(self)
    }
}

impl MarkdownWritable for RichText {
    open spec fn is_node(&self, n: Node) -> bool {
        n == Node::RichText(*self)
    }

    fn into_node(self) -> (r: Node) {
        Node::RichText(self)
    }
}

impl MarkdownWritable for List {
    open spec fn is_node(&self, n: Node) -> bool {
        n == Node::List(*self)
    }

    fn into_node(self) -> (r: Node) {
        Node::List(self)
    }
}

impl MarkdownWritable for Quote {
    open spec fn is_node(&self, n: Node) -> bool {
        n == Node::Quote(*self)
    }

    fn into_node(self) -> (r: Node) {
        Node::Quote(self)
    }
}

/// Whether every node that `element` may become can stand nested.
pub open spec fn nests<T: MarkdownWritable>(element: T) -> bool {
    forall|n: Node| #[trigger] element.is_node(n) ==> nested_ok(n)
}

/// Whether every node that `element` may become holds no link.
pub open spec fn holds_no_link<T: MarkdownWritable>(element: T) -> bool {
    forall|n: Node| #[trigger] element.is_node(n) ==> link_free(n)
}

/// Appending `element` to `old` gave `new`.
pub open spec fn appended<T: MarkdownWritable>(old: Seq<Node>, new: Seq<Node>, element: T) -> bool {
    &&& new.len() == old.len() + 1
    &&& new.drop_last() == old
    &&& element.is_node(new.last())
}

/// Nodes that could all stand nested still can after an append.
pub open spec fn keeps_nested(old: Seq<Node>, new: Seq<Node>) -> bool {
    all_nested_ok(old) ==> all_nested_ok(new)
}

/// Nodes that held no link still hold none after appending `element`, if it
/// holds none.
pub open spec fn keeps_link_free<T: MarkdownWritable>(old: Seq<Node>, new: Seq<Node>, element: T) -> bool {
    all_link_free(old) && holds_no_link(element) ==> all_link_free(new)
}

impl Paragraph {
    /// An empty paragraph.
    pub fn new() -> (r: Self)
        ensures
            r.children@ == Seq::<Node>::empty(),
            all_nested_ok(r.children@),
            all_link_free(r.children@),
    {
        Paragraph { children: Vec::new() }
    }

    /// Appends `element` to the paragraph.
    pub fn append<T: MarkdownWritable>(self, element: T) -> (r: Self)
        requires
            nests(element),
        ensures
            appended(self.children@, r.children@, element),
            keeps_nested(self.children@, r.children@),
            keeps_link_free(self.children@, r.children@, element),
    {
        let mut p = self;
        let n = element.into_node();
        p.children.push(n);
        assert(p.children@.drop_last() =~= self.children@);
        p
    }
}

impl Heading {
    /// An empty heading of `level` (1 to 6).
    pub fn new(level: usize) -> (r: Self)
        requires
            1 <= level <= 6,
        ensures
            r.level == level,
            r.children@ == Seq::<Node>::empty(),
            all_nested_ok(r.children@),
            all_link_free(r.children@),
    {
        Heading { children: Vec::new(), level }
    }

    /// Appends `element` to the heading's text.
    pub fn append<T: MarkdownWritable>(self, element: T) -> (r: Self)
        requires
            nests(element),
        ensures
            r.level == self.level,
            appended(self.children@, r.children@, element),
            keeps_nested(self.children@, r.children@),
            keeps_link_free(self.children@, r.children@, element),
    {
        let mut h = self;
        let n = element.into_node();
        h.children.push(n);
        assert(h.children@.drop_last() =~= self.children@);
        h
    }
}

impl Table {
    /// An empty table; with `gfm` it is written as HTML.
    pub fn new(gfm: bool) -> (r: Self)
        ensures
            r.gfm == gfm,
            r.columns@ == Seq::<String>::empty(),
            r.rows@.len() == 1,
            r.rows@[0]@ == Seq::<String>::empty(),
    {
        let empty_row: Vec<String> = Vec::new();
        let mut rows: Vec<Vec<String>> = Vec::new();
        rows.push(empty_row);
        Table { gfm, columns: Vec::new(), rows }
    }

    /// Sets the column headers.
    pub fn header(self, columns: Vec<String>) -> (r: Self)
        ensures
            r.gfm == self.gfm,
            r.columns@ == columns@,
            r.rows@ == self.rows@,
    {
        Table { gfm: self.gfm, columns, rows: self.rows }
    }

    /// Sets the rows, each a sequence of cells.
    pub fn rows(self, rows: Vec<Vec<String>>) -> (r: Self)
        ensures
            r.gfm == self.gfm,
            r.columns@ == self.columns@,
            r.rows@ == rows@,
    {
        Table { gfm: self.gfm, columns: self.columns, rows }
    }
}

impl Link {
    /// A link with no text yet, leading to `address`.
    pub fn new(address: &str) -> (r: Self)
        ensures
            r.address@ == address@,
            r.children@ == Seq::<Node>::empty(),
            all_nested_ok(r.children@),
    {
        Link { children: Vec::new(), address: str::to_owned(address) }
    }

    /// Appends `element` to the link's text; it may hold no link.
    pub fn append<T: MarkdownWritable>(self, element: T) -> (r: Self)
        requires
            nests(element),
            holds_no_link(element),
        ensures
            r.address == self.address,
            appended(self.children@, r.children@, element),
            keeps_nested(self.children@, r.children@),
            keeps_link_free(self.children@, r.children@, element),
    {
        let mut l = self;
        let n = element.into_node();
        l.children.push(n);
        assert(l.children@.drop_last() =~= self.children@);
        l
    }
}

impl RichText {
    /// Plain `text`, with no style yet.
    pub fn new(text: &str) -> (r: Self)
        ensures
            r.text@ == text@,
            !r.bold && !r.italic && !r.code,
    {
        RichText { bold: false, italic: false, code: false, text: str::to_owned(text) }
    }
}

impl List {
    /// An empty list, numbered or bulleted.
    pub fn new(numbered: bool) -> (r: Self)
        ensures
            r.numbered == numbered,
            r.title@ == Seq::<Node>::empty(),
            r.items@ == Seq::<Node>::empty(),
            all_nested_ok(r.title@) && all_nested_ok(r.items@),
            all_link_free(r.title@) && all_link_free(r.items@),
    {
        List { title: Vec::new(), items: Vec::new(), numbered }
    }

    /// Appends `item` to the list's title.
    pub fn title<T: MarkdownWritable>(self, item: T) -> (r: Self)
        requires
            nests(item),
        ensures
            r.numbered == self.numbered,
            r.items@ == self.items@,
            appended(self.title@, r.title@, item),
            keeps_nested(self.title@, r.title@),
            keeps_link_free(self.title@, r.title@, item),
    {
        let mut l = self;
        let n = item.into_node();
        l.title.push(n);
        assert(l.title@.drop_last() =~= self.title@);
        l
    }

    /// Adds `item` to the list.
    pub fn item<T: MarkdownWritable>(self, item: T) -> (r: Self)
        requires
            nests(item),
        ensures
            r.numbered == self.numbered,
            r.title@ == self.title@,
            appended(self.items@, r.items@, item),
            keeps_nested(self.items@, r.items@),
            keeps_link_free(self.items@, r.items@, item),
    {
        let mut l = self;
        let n = item.into_node();
        l.items.push(n);
        assert(l.items@.drop_last() =~= self.items@);
        l
    }
}

impl Quote {
    /// An empty quote block.
    pub fn new() -> (r: Self)
        ensures
            r.children@ == Seq::<Node>::empty(),
            all_nested_ok(r.children@),
            all_link_free(r.children@),
    {
        Quote { children: Vec::new() }
    }

    /// Appends `element` to the quote block.
    pub fn append<T: MarkdownWritable>(self, element: T) -> (r: Self)
        requires
            nests(element),
        ensures
            appended(self.children@, r.children@, element),
            keeps_nested(self.children@, r.children@),
            keeps_link_free(self.children@, r.children@, element),
    {
        let mut q = self;
        let n = element.into_node();
        q.children.push(n);
        assert(q.children@.drop_last() =~= self.children@);
        q
    }
}

/// Converting a value into a document element.
pub trait AsMarkdown: MarkdownWritable {
    /// Whether this value may become a heading's text.
    spec fn can_head(&self) -> bool;

    /// Whether this value may become a link's text.
    spec fn can_link(&self) -> bool;

    /// Whether this value may be styled.
    spec fn can_style(&self) -> bool;

    /// The text and the bold, italic and code flags of this value as a styled
    /// run.
    spec fn style(&self) -> (Seq<char>, bool, bool, bool);

    /// A paragraph that holds this value.
    fn paragraph(self) -> (r: Paragraph)
        requires
            nests(self),
        ensures
            appended(Seq::empty(), r.children@, self),
            all_nested_ok(r.children@),
            holds_no_link(self) ==> all_link_free(r.children@),
    ;

    /// A heading of `level` (1 to 6) that holds this value.
    fn heading(self, level: usize) -> (r: Heading)
        requires
            1 <= level <= 6,
            self.can_head(),
            nests(self),
        ensures
            r.level == level,
            appended(Seq::empty(), r.children@, self),
            all_nested_ok(r.children@),
            holds_no_link(self) ==> all_link_free(r.children@),
    ;

    /// A link to `address` whose text is this value.
    fn link_to(self, address: &str) -> (r: Link)
        requires
            self.can_link(),
            nests(self),
            holds_no_link(self),
        ensures
            r.address@ == address@,
            appended(Seq::empty(), r.children@, self),
            all_nested_ok(r.children@),
            holds_no_link(self) ==> all_link_free(r.children@),
    ;

    /// This value as bold text.
    fn bold(self) -> (r: RichText)
        requires
            self.can_style(),
        ensures
            (r.text@, r.bold, r.italic, r.code) == (self.style().0, true, self.style().2, self.style().3),
    ;

    /// This value as italic text.
    fn italic(self) -> (r: RichText)
        requires
            self.can_style(),
        ensures
            (r.text@, r.bold, r.italic, r.code) == (self.style().0, self.style().1, true, self.style().3),
    ;

    /// This value as a code span.
    fn code(self) -> (r: RichText)
        requires
            self.can_style(),
        ensures
            (r.text@, r.bold, r.italic, r.code) == (self.style().0, self.style().1, self.style().2, true),
    ;

    /// A quote block that holds this value.
    fn quote(self) -> (r: Quote)
        requires
            nests(self),
        ensures
            appended(Seq::empty(), r.children@, self),
            all_nested_ok(r.children@),
            holds_no_link(self) ==> all_link_free(r.children@),
    ;
}

impl<'a> AsMarkdown for &'a str {
    open spec fn can_head(&self) -> bool {
        true
    }

    open spec fn can_link(&self) -> bool {
        true
    }

    open spec fn can_style(&self) -> bool {
        true
    }

    open spec fn style(&self) -> (Seq<char>, bool, bool, bool) {
        (self@, false, false, false)
    }

    fn paragraph(self) -> (r: Paragraph) {
        Paragraph::new().append(self)
    }

    fn heading(self, level: usize) -> (r: Heading) {
        Heading::new(level).append(self)
    }

    fn link_to(self, address: &str) -> (r: Link) {
        Link::new(address).append(self)
    }

    fn bold(self) -> (r: RichText) {
        RichText::new(self).bold()
    }

    fn italic(self) -> (r: RichText) {
        RichText::new(self).italic()
    }

    fn code(self) -> (r: RichText) {
        RichText::new(self).code()
    }

    fn quote(self) -> (r: Quote) {
        Quote::new().append(self)
    }
}

impl AsMarkdown for String {
    open spec fn can_head(&self) -> bool {
        true
    }

    open spec fn can_link(&self) -> bool {
        true
    }

    open spec fn can_style(&self) -> bool {
        true
    }

    open spec fn style(&self) -> (Seq<char>, bool, bool, bool) {
        (self@, false, false, false)
    }

    fn paragraph(self) -> (r: Paragraph) {
        Paragraph::new().append(self)
    }

    fn heading(self, level: usize) -> (r: Heading) {
        Heading::new(level).append(self)
    }

    fn link_to(self, address: &str) -> (r: Link) {
        Link::new(address).append(self)
    }

    fn bold(self) -> (r: RichText) {
        self.as_str().bold()
    }

    fn italic(self) -> (r: RichText) {
        self.as_str().italic()
    }

    fn code(self) -> (r: RichText) {
        self.as_str().code()
    }

    fn quote(self) -> (r: Quote) {
        Quote::new().append(self)
    }
}

impl AsMarkdown for RichText {
    open spec fn can_head(&self) -> bool {
        true
    }

    open spec fn can_link(&self) -> bool {
        true
    }

    open spec fn can_style(&self) -> bool {
        true
    }

    open spec fn style(&self) -> (Seq<char>, bool, bool, bool) {
        (self.text@, self.bold, self.italic, self.code)
    }

    fn paragraph(self) -> (r: Paragraph) {
        Paragraph::new().append(self)
    }

    fn heading(self, level: usize) -> (r: Heading) {
        Heading::new(level).append(self)
    }

    fn link_to(self, address: &str) -> (r: Link) {
        Link::new(address).append(self)
    }

    fn bold(self) -> (r: RichText) {
        RichText { bold: true, ..self }
    }

    fn italic(self) -> (r: RichText) {
        RichText { italic: true, ..self }
    }

    fn code(self) -> (r: RichText) {
        RichText { code: true, ..self }
    }

    fn quote(self) -> (r: Quote) {
        Quote::new().append(self)
    }
}

/// A link may stand in a paragraph or a quote; it cannot become a heading,
/// be styled or hold another link: style the text first, then make it a link.
impl AsMarkdown for Link {
    open spec fn can_head(&self) -> bool {
        false
    }

    open spec fn can_link(&self) -> bool {
        false
    }

    open spec fn can_style(&self) -> bool {
        false
    }

    open spec fn style(&self) -> (Seq<char>, bool, bool, bool) {
        (self.address@, false, false, false)
    }

    fn paragraph(self) -> (r: Paragraph) {
        Paragraph::new().append(self)
    }

    fn heading(self, level: usize) -> (r: Heading) {
        Heading::new(level)
    }

    fn link_to(self, address: &str) -> (r: Link) {
        self
    }

    fn bold(self) -> (r: RichText) {
        RichText::new("")
    }

    fn italic(self) -> (r: RichText) {
        RichText::new("")
    }

    fn code(self) -> (r: RichText) {
        RichText::new("")
    }

    fn quote(self) -> (r: Quote) {
        Quote::new().append(self)
    }
}

/// A list may stand in a paragraph or a quote; it cannot become a heading, a
/// link or styled text.
impl AsMarkdown for List {
    open spec fn can_head(&self) -> bool {
        false
    }

    open spec fn can_link(&self) -> bool {
        false
    }

    open spec fn can_style(&self) -> bool {
        false
    }

    open spec fn style(&self) -> (Seq<char>, bool, bool, bool) {
        (Seq::empty(), false, false, false)
    }

    fn paragraph(self) -> (r: Paragraph) {
        Paragraph::new().append(self)
    }

    fn heading(self, level: usize) -> (r: Heading) {
        Heading::new(level)
    }

    fn link_to(self, address: &str) -> (r: Link) {
        Link::new(address)
    }

    fn bold(self) -> (r: RichText) {
        RichText::new("")
    }

    fn italic(self) -> (r: RichText) {
        RichText::new("")
    }

    fn code(self) -> (r: RichText) {
        RichText::new("")
    }

    fn quote(self) -> (r: Quote) {
        Quote::new().append(self)
    }
}

/// A Markdown document being written into a byte buffer.
pub struct Markdown {
    writer: Vec<u8>,
}

impl View for Markdown {
    type V = Seq<u8>;

    /// The bytes written so far.
    closed spec fn view(&self) -> Seq<u8> {
        self.writer@
    }
}

impl Markdown {
    /// A document that writes after the bytes of `writer`.
    pub fn new(writer: Vec<u8>) -> (r: Self)
        ensures
            r@ == writer@,
    {
        Markdown { writer }
    }

    /// The bytes written, the document consumed.
    pub fn into_inner(self) -> (r: Vec<u8>)
        ensures
            r@ == self@,
    {
        self.writer
    }

    /// Writes `element` as a top-level element of the document.
    pub fn write<T: MarkdownWritable>(&mut self, element: T)
        requires
            forall|n: Node| #[trigger] element.is_node(n) ==> root_ok(n),
        ensures
            exists|n: Node|
                #[trigger] element.is_node(n) && final(self)@ == old(self)@ + emit(
                    n,
                    false,
                    Escaping::Normal,
                    Seq::empty(),
                ),
    {
        let ghost e = element;
        let n = element.into_node();
        n.write_to(&mut self.writer, false, Escaping::Normal, None);
        assert(e.is_node(n) && self@ == old(self)@ + emit(n, false, Escaping::Normal, Seq::empty()));
    }
}

} // verus!
