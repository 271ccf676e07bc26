//! Byte-level building blocks: line prefixing, backslash escaping and
//! counting runs of one byte.
use vstd::prelude::*;

verus! {

/// The line feed byte.
pub const NEWLINE: u8 = 10;

/// The backslash byte, written before each reserved byte.
pub const BACKSLASH: u8 = 92;

/// Escaping mode used when writing plain text.
#[derive(Clone, Copy, PartialEq, Eq, Structural)]
pub enum Escaping {
    /// Each of `` \`*_{}[]()#+-.!`` is preceded by a backslash.
    Normal,
    /// Text is written verbatim: it stands inside a code span.
    InlineCode,
}

/// The bytes that Markdown gives a meaning to: `` \`*_{}[]()#+-.!``.
pub open spec fn reserved_bytes() -> Seq<u8> {
    seq![92u8, 96u8, 42u8, 95u8, 123u8, 125u8, 91u8, 93u8, 40u8, 41u8, 35u8, 43u8, 45u8, 46u8, 33u8]
}

/// The prefix that an optional line prefix stands for (none is empty).
pub open spec fn prefix_of(line_prefix: Option<&[u8]>) -> Seq<u8> {
    match line_prefix {
        Some(p) => p@,
        None => Seq::empty(),
    }
}

/// One byte of data as written under a line prefix: a newline is followed by
/// the prefix.
pub open spec fn piece(b: u8, prefix: Seq<u8>) -> Seq<u8> {
    if b == NEWLINE {
        seq![b] + prefix
    } else {
        seq![b]
    }
}

/// `data` with `prefix` inserted after each newline.
pub open spec fn prefixed(data: Seq<u8>, prefix: Seq<u8>) -> Seq<u8>
    decreases data.len(),
{
    if data.len() == 0 {
        Seq::empty()
    } else {
        prefixed(data.drop_last(), prefix) + piece(data.last(), prefix)
    }
}

/// `data` with a backslash before each byte of `escape`, and `prefix` after
/// each newline.
pub open spec fn escaped(data: Seq<u8>, escape: Seq<u8>, prefix: Seq<u8>) -> Seq<u8>
    decreases data.len(),
{
    if data.len() == 0 {
        Seq::empty()
    } else {
        let mark = if escape.contains(data.last()) {
            seq![BACKSLASH]
        } else {
            Seq::empty()
        };
        escaped(data.drop_last(), escape, prefix) + mark + piece(data.last(), prefix)
    }
}

/// Runs of `c` in `data`, where `carry` copies of `c` come first: the longest
/// run, and the run still open at the end.
pub open spec fn runs(data: Seq<u8>, c: u8, carry: nat) -> (nat, nat)
    decreases data.len(),
{
    if data.len() == 0 {
        (carry, carry)
    } else {
        let (longest, open) = runs(data.drop_last(), c, carry);
        if data.last() == c {
            let next = open + 1;
            (if longest >= next { longest } else { next }, next)
        } else {
            (longest, 0)
        }
    }
}

/// Appends all of `data` to `out`.
pub fn push_all(out: &mut Vec<u8>, data: &[u8])
    ensures
        final(out)@ == old(out)@ + data@,
{
    let mut i: usize = 0;
    while i < data.len()
        invariant
            i <= data@.len(),
            out@ == old(out)@ + data@.take(i as int),
        decreases data@.len() - i,
    {
        out.push(data[i]);
        i = i + 1;
        assert(data@.take(i as int) =~= data@.take(i - 1) + seq![data@[i - 1]]);
    }
    assert(data@.take(data@.len() as int) =~= data@);
}

/// Appends `data` to `out`, with `line_prefix` after each newline of it.
pub fn write_line_prefixed(out: &mut Vec<u8>, data: &[u8], line_prefix: Option<&[u8]>)
    ensures
        final(out)@ == old(out)@ + prefixed(data@, prefix_of(line_prefix)),
{
    let ghost prefix = prefix_of(line_prefix);
    let mut i: usize = 0;
    while i < data.len()
        invariant
            i <= data@.len(),
            prefix == prefix_of(line_prefix),
            out@ == old(out)@ + prefixed(data@.take(i as int), prefix),
        decreases data@.len() - i,
    {
        let b = data[i];
        out.push(b);
        if b == NEWLINE {
            if let Some(p) = line_prefix {
                push_all(out, p);
            }
        }
        i = i + 1;
        assert(data@.take(i as int).drop_last() =~= data@.take(i - 1));
        assert(out@ =~= old(out)@ + prefixed(data@.take(i as int), prefix));
    }
    assert(data@.take(data@.len() as int) =~= data@);
}

/// Whether `b` occurs in `set`.
fn contains_byte(set: &[u8], b: u8) -> (r: bool)
    ensures
        r == set@.contains(b),
{
    let mut i: usize = 0;
    while i < set.len()
        invariant
            i <= set@.len(),
            forall|j: int| 0 <= j < i ==> set@[j] != b,
        decreases set@.len() - i,
    {
        if set[i] == b {
            return true;
        }
        i = i + 1;
    }
    false
}

/// Appends `data` to `out` with a backslash before each byte of `escape`, and
/// `line_prefix` after each newline.
pub fn write_escaped(out: &mut Vec<u8>, data: &[u8], escape: &[u8], line_prefix: Option<&[u8]>)
    ensures
        final(out)@ == old(out)@ + escaped(data@, escape@, prefix_of(line_prefix)),
{
    let ghost prefix = prefix_of(line_prefix);
    let mut i: usize = 0;
    while i < data.len()
        invariant
            i <= data@.len(),
            prefix == prefix_of(line_prefix),
            out@ == old(out)@ + escaped(data@.take(i as int), escape@, prefix),
        decreases data@.len() - i,
    {
        let b = data[i];
        if contains_byte(escape, b) {
            out.push(BACKSLASH);
        }
        out.push(b);
        if b == NEWLINE {
            if let Some(p) = line_prefix {
                push_all(out, p);
            }
        }
        i = i + 1;
        assert(data@.take(i as int).drop_last() =~= data@.take(i - 1));
        assert(out@ =~= old(out)@ + escaped(data@.take(i as int), escape@, prefix));
    }
    assert(data@.take(data@.len() as int) =~= data@);
}

/// The longest run of `c` in `data` after `carry` copies of `c`, and the run
/// still open at its end.
pub fn count_runs(data: &[u8], c: u8, carry: usize) -> (r: (usize, usize))
    requires
        carry == 0 || carry + data@.len() <= usize::MAX,
    ensures
        (r.0 as nat, r.1 as nat) == runs(data@, c, carry as nat),
        r.1 <= r.0 <= carry + data@.len(),
{
    let n = data.len();
    let mut longest: usize = carry;
    let mut open: usize = carry;
    let mut i: usize = 0;
    while i < n
        invariant
            n == data@.len(),
            i <= data@.len(),
            carry + data@.len() <= usize::MAX,
            (longest as nat, open as nat) == runs(data@.take(i as int), c, carry as nat),
            open <= longest <= carry + i,
        decreases data@.len() - i,
    {
        if data[i] == c {
            open = open + 1;
            if open > longest {
                longest = open;
            }
        } else {
            open = 0;
        }
        i = i + 1;
        assert(data@.take(i as int).drop_last() =~= data@.take(i - 1));
    }
    assert(data@.take(data@.len() as int) =~= data@);
    (longest, open)
}

} // verus!
