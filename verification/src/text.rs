//! Text building blocks: comparison, padding and truncation of names.
use vstd::prelude::*;
use crate::digits::push_char;

verus! {

/// Whether two strings hold the same characters.
pub fn str_eq(a: &str, b: &str) -> (res: bool)
    ensures
        res == (a@ == b@),
{
    let n = a.unicode_len();
    if n != b.unicode_len() {
        return false;
    }
    let mut i: usize = 0;
    while i < n
        invariant
            n == a@.len(),
            n == b@.len(),
            i <= n,
            forall|j: int| 0 <= j < i ==> a@[j] == b@[j],
        decreases n - i,
    {
        if a.get_char(i) != b.get_char(i) {
            return false;
        }
        i = i + 1;
    }
    assert(a@ =~= b@);
    true
}

/// `n` spaces.
pub open spec fn spaces(n: nat) -> Seq<char> {
    Seq::new(n, |i: int| ' ')
}

/// `s` followed by spaces up to `width` characters, as `{:<width}` writes it.
pub open spec fn pad_right(s: Seq<char>, width: nat) -> Seq<char> {
    if s.len() < width {
        s + spaces((width - s.len()) as nat)
    } else {
        s
    }
}

/// `s` preceded by spaces up to `width` characters, as `{:>width}` writes it.
pub open spec fn pad_left(s: Seq<char>, width: nat) -> Seq<char> {
    if s.len() < width {
        spaces((width - s.len()) as nat) + s
    } else {
        s
    }
}

/// The first `n` characters of `s`, or all of it when it is shorter.
pub open spec fn take_chars(s: Seq<char>, n: nat) -> Seq<char> {
    if n <= s.len() {
        s.take(n as int)
    } else {
        s
    }
}

/// A name cut to at most `width` characters: names that fit are kept; longer
/// ones keep their first `width - 2` characters followed by `..`; for a width
/// of 2 or less the first `width` characters are kept.
pub open spec fn spec_truncate_name(name: Seq<char>, width: nat) -> Seq<char> {
    if width <= 2 {
        take_chars(name, width)
    } else if name.len() <= width {
        name
    } else {
        name.take(width - 2) + seq!['.', '.']
    }
}

/// Appends `s`.
pub fn push_str(out: &mut String, s: &str)
    ensures
        final(out)@ == old(out)@ + s@,
{
    out.append(s);
}

/// Appends `n` spaces.
pub fn push_spaces(out: &mut String, n: usize)
    ensures
        final(out)@ == old(out)@ + spaces(n as nat),
{
    let ghost start = out@;
    let mut i: usize = 0;
    while i < n
        invariant
            i <= n,
            out@ == start + spaces(i as nat),
        decreases n - i,
    {
        push_char(out, ' ');
        i = i + 1;
        assert(out@ =~= start + spaces(i as nat));
    }
}

/// Appends `s` padded with spaces on the right to `width` characters.
pub fn push_padded_right(out: &mut String, s: &str, width: usize)
    ensures
        final(out)@ == old(out)@ + pad_right(s@, width as nat),
{
    let ghost start = out@;
    let n = s.unicode_len();
    push_str(out, s);
    if n < width {
        push_spaces(out, width - n);
    }
    assert(out@ =~= start + pad_right(s@, width as nat));
}

/// Appends `s` padded with spaces on the left to `width` characters.
pub fn push_padded_left(out: &mut String, s: &str, width: usize)
    ensures
        final(out)@ == old(out)@ + pad_left(s@, width as nat),
{
    let ghost start = out@;
    let n = s.unicode_len();
    if n < width {
        push_spaces(out, width - n);
    }
    push_str(out, s);
    assert(out@ =~= start + pad_left(s@, width as nat));
}

/// The first `n` characters of `s`, or all of it when it is shorter.
pub fn prefix_chars(s: &str, n: usize) -> (res: String)
    ensures
        res@ == take_chars(s@, n as nat),
{
    let len = s.unicode_len();
    let end = if n <= len { n } else { len };
    let sub = s.substring_char(0, end);
    assert(sub@ =~= take_chars(s@, n as nat));
    String::from_str(sub)
}

/// Cuts a name to at most `width` characters, marking a cut with `..`.
pub fn truncate_name(name: &str, width: usize) -> (res: String)
    ensures
        res@ == spec_truncate_name(name@, width as nat),
        res@.len() <= width,
        name@.len() <= width ==> res@ == name@,
{
    if width <= 2 {
        return prefix_chars(name, width);
    }
    let count = name.unicode_len();
    if count <= width {
        return String::from_str(name);
    }
    let keep = width - 2;
    let mut out = prefix_chars(name, keep);
    push_str(&mut out, "..");
    proof {
        reveal_strlit("..");
        assert(out@ =~= spec_truncate_name(name@, width as nat));
    }
    out
}

/// The lines joined with `\n` between them, as `[..].join("\n")` gives.
pub open spec fn join_lines(lines: Seq<Seq<char>>) -> Seq<char>
    decreases lines.len(),
{
    if lines.len() == 0 {
        Seq::empty()
    } else if lines.len() == 1 {
        lines[0]
    } else {
        join_lines(lines.drop_last()) + seq!['\n'] + lines.last()
    }
}

/// A preview doc comment: a title, a blank line, then the text in a `text`
/// code block.
pub open spec fn preview_doc(title: Seq<char>, body: Seq<char>) -> Seq<char> {
    title + "\n\n```text\n"@ + body + "\n```"@
}

/// Appends `"\n"` and then `line`, extending a joined text by one line.
pub fn push_line(out: &mut String, line: &str)
    ensures
        final(out)@ == old(out)@ + seq!['\n'] + line@,
{
    push_char(out, '\n');
    push_str(out, line);
}

/// Wraps a preview text into its doc comment under `title`.
pub fn make_preview_doc(title: &str, body: &str) -> (doc: String)
    ensures
        doc@ == preview_doc(title@, body@),
{
    let mut doc = String::from_str(title);
    push_str(&mut doc, "\n\n```text\n");
    push_str(&mut doc, body);
    push_str(&mut doc, "\n```");
    doc
}

} // verus!
