//! Properties of the rendering, stated over the specifications of `text` and
//! `node` and proved from them.
use vstd::prelude::*;
use crate::node::{
    emit, emit_all, emit_text, fence_len, indent, marker, max_nat, opening, repeat, text_bytes, Heading, List,
    Node, Paragraph, Quote, RichText, BACKTICK, HASH,
};
use crate::text::{escaped, piece, prefixed, reserved_bytes, runs, Escaping, BACKSLASH, NEWLINE};

verus! {

/// Reads escaped text back: a backslash stands for the byte after it.
pub open spec fn unescape(t: Seq<u8>) -> Seq<u8>
    decreases t.len(),
{
    if t.len() == 0 {
        Seq::empty()
    } else if t[0] == BACKSLASH && t.len() >= 2 {
        seq![t[1]] + unescape(t.subrange(2, t.len() as int))
    } else {
        seq![t[0]] + unescape(t.subrange(1, t.len() as int))
    }
}

/// What escaping writes for one byte.
pub open spec fn escaped_byte(b: u8, escape: Seq<u8>, prefix: Seq<u8>) -> Seq<u8> {
    (if escape.contains(b) {
        seq![BACKSLASH]
    } else {
        Seq::empty()
    }) + piece(b, prefix)
}

proof fn lemma_escaped_concat(s1: Seq<u8>, s2: Seq<u8>, escape: Seq<u8>, prefix: Seq<u8>)
    ensures
        escaped(s1 + s2, escape, prefix) == escaped(s1, escape, prefix) + escaped(
            s2,
            escape,
            prefix,
        ),
    decreases s2.len(),
{
    if s2.len() == 0 {
        assert(s1 + s2 =~= s1);
        assert(escaped(s1, escape, prefix) + escaped(s2, escape, prefix) =~= escaped(
            s1,
            escape,
            prefix,
        ));
    } else {
        lemma_escaped_concat(s1, s2.drop_last(), escape, prefix);
        assert((s1 + s2).drop_last() =~= s1 + s2.drop_last());
        assert((s1 + s2).last() == s2.last());
        assert(escaped(s1 + s2, escape, prefix) =~= escaped(s1, escape, prefix) + escaped(
            s2,
            escape,
            prefix,
        ));
    }
}

proof fn lemma_escaped_front(s: Seq<u8>, escape: Seq<u8>, prefix: Seq<u8>)
    requires
        s.len() > 0,
    ensures
        escaped(s, escape, prefix) == escaped_byte(s[0], escape, prefix) + escaped(
            s.drop_first(),
            escape,
            prefix,
        ),
{
    assert(s =~= seq![s[0]] + s.drop_first());
    lemma_escaped_concat(seq![s[0]], s.drop_first(), escape, prefix);
    let x = seq![s[0]];
    assert(x.drop_last() =~= Seq::<u8>::empty());
    assert(escaped(x.drop_last(), escape, prefix) =~= Seq::<u8>::empty());
    assert(x.last() == s[0]);
    assert(escaped(x, escape, prefix) =~= escaped_byte(s[0], escape, prefix));
}

/// Escaping in `Normal` mode puts one backslash before each reserved byte and
/// changes nothing else: reading the result back gives the text.
pub proof fn escape_round_trip(s: Seq<u8>)
    ensures
        unescape(escaped(s, reserved_bytes(), Seq::empty())) == s,
        forall|b: u8|
            #![trigger escaped_byte(b, reserved_bytes(), Seq::<u8>::empty())]
            reserved_bytes().contains(b) ==> escaped_byte(b, reserved_bytes(), Seq::empty())
                == seq![BACKSLASH, b],
    decreases s.len(),
{
    let e = reserved_bytes();
    let p = Seq::<u8>::empty();
    assert forall|b: u8| #![trigger escaped_byte(b, e, p)] e.contains(b) implies escaped_byte(
        b,
        e,
        p,
    ) == seq![BACKSLASH, b] by {
        assert(escaped_byte(b, e, p) =~= seq![BACKSLASH, b]);
    }
    if s.len() > 0 {
        lemma_escaped_front(s, e, p);
        escape_round_trip(s.drop_first());
        let rest = escaped(s.drop_first(), e, p);
        let t = escaped(s, e, p);
        assert(e[0] == BACKSLASH);
        if e.contains(s[0]) {
            assert(t =~= seq![BACKSLASH, s[0]] + rest);
            assert(t.subrange(2, t.len() as int) =~= rest);
        } else {
            assert(s[0] != BACKSLASH);
            assert(t =~= seq![s[0]] + rest);
            assert(t.subrange(1, t.len() as int) =~= rest);
        }
        assert(s =~= seq![s[0]] + s.drop_first());
    } else {
        assert(unescape(escaped(s, e, p)) =~= s);
    }
}

/// Text in `InlineCode` mode is written verbatim, and a code span writes its
/// text verbatim between its delimiters, whatever the escaping around it.
pub proof fn inline_code_verbatim(s: Seq<u8>, r: RichText, escape: Escaping, prefix: Seq<u8>)
    ensures
        emit_text(s, true, Escaping::InlineCode, prefix) == s,
        r.code ==> emit(Node::RichText(r), true, escape, prefix) == opening(r) + text_bytes(r.text)
            + opening(r).reverse(),
{
    assert(emit_text(s, true, Escaping::InlineCode, prefix) =~= s);
    if r.code {
        assert(emit_text(text_bytes(r.text), true, Escaping::InlineCode, prefix) =~= text_bytes(
            r.text,
        ));
        assert(emit(Node::RichText(r), true, escape, prefix) =~= opening(r) + text_bytes(r.text)
            + opening(r).reverse());
    }
}

proof fn lemma_runs_open_le(s: Seq<u8>, c: u8, carry: nat)
    ensures
        runs(s, c, carry).1 <= runs(s, c, carry).0,
    decreases s.len(),
{
    if s.len() > 0 {
        lemma_runs_open_le(s.drop_last(), c, carry);
    }
}

/// Counting runs is compositional: counting over `s1` followed by `s2` is
/// counting over `s2` with the run left open by `s1` carried in.
pub proof fn runs_concat(s1: Seq<u8>, s2: Seq<u8>, c: u8, carry: nat)
    ensures
        ({
            let (m1, t1) = runs(s1, c, carry);
            let (m2, t2) = runs(s2, c, t1);
            runs(s1 + s2, c, carry) == (max_nat(m1, m2), t2)
        }),
    decreases s2.len(),
{
    if s2.len() == 0 {
        assert(s1 + s2 =~= s1);
        lemma_runs_open_le(s1, c, carry);
    } else {
        runs_concat(s1, s2.drop_last(), c, carry);
        assert((s1 + s2).drop_last() =~= s1 + s2.drop_last());
        assert((s1 + s2).last() == s2.last());
    }
}

proof fn lemma_open_run(s: Seq<u8>, c: u8, carry: nat, i: int)
    requires
        0 <= i <= s.len(),
        forall|j: int| i <= j < s.len() ==> s[j] == c,
    ensures
        runs(s, c, carry).1 >= s.len() - i,
    decreases s.len(),
{
    if i < s.len() {
        lemma_open_run(s.drop_last(), c, carry, i);
    }
}

/// Every run of `c` in `s` is at most the longest run that counting reports.
pub proof fn runs_bound_every_run(s: Seq<u8>, c: u8, carry: nat, i: int, k: int)
    requires
        0 <= i,
        0 <= k,
        i + k <= s.len(),
        forall|j: int| i <= j < i + k ==> s[j] == c,
    ensures
        runs(s, c, carry).0 >= k,
    decreases s.len(),
{
    if k > 0 {
        if i + k < s.len() {
            runs_bound_every_run(s.drop_last(), c, carry, i, k);
        } else {
            lemma_open_run(s, c, carry, i);
            lemma_runs_open_le(s, c, carry);
        }
    }
}

/// The fence of a code span is longer than every run of backticks in its
/// text, also a run formed where two pieces of text meet.
pub proof fn fence_exceeds_runs(s1: Seq<u8>, s2: Seq<u8>, i: int, k: int)
    requires
        0 <= i,
        0 <= k,
        i + k <= (s1 + s2).len(),
        forall|j: int| i <= j < i + k ==> (s1 + s2)[j] == BACKTICK,
    ensures
        fence_len(s1 + s2) > k,
        ({
            let (m1, t1) = runs(s1, BACKTICK, 0);
            fence_len(s1 + s2) == max_nat(m1, runs(s2, BACKTICK, t1).0) + 1
        }),
{
    runs_bound_every_run(s1 + s2, BACKTICK, 0, i, k);
    runs_concat(s1, s2, BACKTICK, 0);
}

/// A heading of level 1 to 6 starts with exactly that many `#` and a space.
pub proof fn heading_marker(h: Heading, escape: Escaping, prefix: Seq<u8>)
    requires
        1 <= h.level <= 6,
    ensures
        ({
            let out = emit(Node::Heading(h), false, escape, prefix);
            &&& out.take(h.level as int) == repeat(HASH, h.level as nat)
            &&& out[h.level as int] == 32u8
        }),
{
    let out = emit(Node::Heading(h), false, escape, prefix);
    assert(out.take(h.level as int) =~= repeat(HASH, h.level as nat));
}

proof fn lemma_newline_followed(s: Seq<u8>, escape: Seq<u8>, prefix: Seq<u8>)
    requires
        !prefix.contains(NEWLINE),
    ensures
        forall|i: int|
            0 <= i < escaped(s, escape, prefix).len() && #[trigger] escaped(s, escape, prefix)[i]
                == NEWLINE ==> i + 1 + prefix.len() <= escaped(s, escape, prefix).len()
                && escaped(s, escape, prefix).subrange(i + 1, i + 1 + prefix.len()) == prefix,
    decreases s.len(),
{
    if s.len() > 0 {
        lemma_newline_followed(s.drop_last(), escape, prefix);
        let front = escaped(s.drop_last(), escape, prefix);
        let mark = if escape.contains(s.last()) {
            seq![BACKSLASH]
        } else {
            Seq::<u8>::empty()
        };
        let out = escaped(s, escape, prefix);
        assert(out == front + mark + piece(s.last(), prefix));
        assert forall|i: int| 0 <= i < out.len() && #[trigger] out[i] == NEWLINE implies i + 1
            + prefix.len() <= out.len() && out.subrange(i + 1, i + 1 + prefix.len()) == prefix by {
            if i < front.len() {
                assert(front[i] == NEWLINE);
                assert(out.subrange(i + 1, i + 1 + prefix.len()) =~= front.subrange(
                    i + 1,
                    i + 1 + prefix.len(),
                ));
            } else if i < front.len() + mark.len() {
                assert(out[i] == BACKSLASH);
            } else if i == front.len() + mark.len() {
                assert(s.last() == NEWLINE);
                assert(out.subrange(i + 1, i + 1 + prefix.len()) =~= prefix);
            } else {
                assert(out[i] == prefix[i - front.len() - mark.len() - 1]);
                assert(prefix.contains(out[i]));
            }
        }
    }
}

/// A quote that holds a paragraph of text writes `>` at the start of every
/// line of the text, not only the first.
pub proof fn quote_prefixes_every_line(q: Quote, p: Paragraph, s: String)
    requires
        q.children@ == seq![Node::Paragraph(p)],
        p.children@ == seq![Node::Text(s)],
    ensures
        ({
            let body = escaped(text_bytes(s), reserved_bytes(), seq![62u8]);
            &&& emit(Node::Quote(q), false, Escaping::Normal, Seq::empty()) == seq![
                NEWLINE,
                62u8,
            ] + body + seq![NEWLINE, NEWLINE]
            &&& forall|i: int|
                0 <= i < body.len() && #[trigger] body[i] == NEWLINE ==> i + 1 < body.len()
                    && body[i + 1] == 62u8
        }),
{
    reveal_with_fuel(prefixed, 3);
    let gt = seq![62u8];
    let body = escaped(text_bytes(s), reserved_bytes(), gt);
    assert(Seq::<u8>::empty() + gt =~= gt);
    assert(q.children@.drop_last() =~= Seq::<Node>::empty());
    assert(p.children@.drop_last() =~= Seq::<Node>::empty());
    assert(prefixed(Seq::<u8>::empty(), gt) =~= Seq::<u8>::empty());
    assert(emit_all(p.children@.drop_last(), Seq::empty(), Escaping::Normal, gt) =~= Seq::<
        u8,
    >::empty());
    assert(emit(Node::Text(s), true, Escaping::Normal, gt) =~= body);
    assert(emit_all(p.children@, Seq::empty(), Escaping::Normal, gt) =~= body);
    assert(emit(Node::Paragraph(p), true, Escaping::Normal, gt) =~= body);
    assert(emit_all(q.children@.drop_last(), Seq::empty(), Escaping::Normal, gt) =~= Seq::<
        u8,
    >::empty());
    assert(emit_all(q.children@, Seq::empty(), Escaping::Normal, gt) =~= body);
    let nl = seq![NEWLINE];
    assert(nl.drop_last() =~= Seq::<u8>::empty());
    assert(prefixed(nl, Seq::empty()) =~= nl);
    let nl2 = seq![NEWLINE, NEWLINE];
    assert(nl2.drop_last() =~= nl);
    assert(prefixed(nl2, Seq::empty()) =~= nl2);
    assert(emit(Node::Quote(q), false, Escaping::Normal, Seq::empty()) =~= seq![NEWLINE, 62u8]
        + body + seq![NEWLINE, NEWLINE]);
    assert(!gt.contains(NEWLINE)) by {
        if gt.contains(NEWLINE) {
            let j = choose|j: int| 0 <= j < gt.len() && gt[j] == NEWLINE;
            assert(gt[j] == 62u8);
        }
    }
    lemma_newline_followed(text_bytes(s), reserved_bytes(), gt);
    assert forall|i: int| 0 <= i < body.len() && #[trigger] body[i] == NEWLINE implies i + 1
        < body.len() && body[i + 1] == 62u8 by {
        assert(body.subrange(i + 1, i + 2)[0] == gt[0]);
    }
}

/// A numbered list writes the same marker `1. ` before every item, on a new
/// line under the line prefix extended by three spaces, and each item under
/// that extended prefix.
pub proof fn numbered_list_markers(l: List, inner: bool, escape: Escaping, prefix: Seq<u8>)
    requires
        l.numbered,
        l.title@.len() == 0,
    ensures
        emit(Node::List(l), inner, escape, prefix) == emit_all(
            l.items@,
            marker(true),
            escape,
            prefix + indent(),
        ),
        prefixed(marker(true), prefix + indent()) == seq![NEWLINE] + prefix + seq![
            32u8,
            32u8,
            32u8,
        ] + seq![49u8, 46u8, 32u8],
{
    let q = prefix + indent();
    let m = marker(true);
    reveal_with_fuel(prefixed, 5);
    assert(m.drop_last() =~= seq![NEWLINE, 49u8, 46u8]);
    assert(m.drop_last().drop_last() =~= seq![NEWLINE, 49u8]);
    assert(m.drop_last().drop_last().drop_last() =~= seq![NEWLINE]);
    assert(m.drop_last().drop_last().drop_last().drop_last() =~= Seq::<u8>::empty());
    assert(prefixed(m, q) =~= seq![NEWLINE] + prefix + seq![32u8, 32u8, 32u8] + seq![
        49u8,
        46u8,
        32u8,
    ]);
    assert(emit(Node::List(l), inner, escape, prefix) =~= emit_all(
        l.items@,
        marker(true),
        escape,
        prefix + indent(),
    ));
}

} // verus!
