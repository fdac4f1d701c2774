//! Splitting text into lines and joining them again with `\n`.
use vstd::prelude::*;
use crate::digits::push_char;

verus! {

broadcast use vstd::string::group_string_axioms;

/// `s` with every `\r` that directly precedes a `\n` removed.
pub open spec fn crlf_to_lf(s: Seq<char>) -> Seq<char>
    decreases s.len(),
{
    if s.len() == 0 {
        s
    } else if s.len() >= 2 && s.last() == '\n' && s[s.len() - 2] == '\r' {
        crlf_to_lf(s.drop_last().drop_last()).push('\n')
    } else {
        crlf_to_lf(s.drop_last()).push(s.last())
    }
}

/// What `s.lines()` joined with `\n` gives: line endings `\n` and `\r\n`
/// become `\n`, and a final line ending is dropped.
pub open spec fn rejoin_lines(s: Seq<char>) -> Seq<char> {
    let c = crlf_to_lf(s);
    if c.len() > 0 && c.last() == '\n' {
        c.drop_last()
    } else {
        c
    }
}

/// `s` with every `\r` that directly precedes a `\n` removed.
pub fn crlf_to_lf_string(s: &str) -> (res: String)
    ensures
        res@ == crlf_to_lf(s@),
{
    let mut out = String::new();
    let mut it = s.chars();
    let mut pending_cr = false;
    let ghost mut k: int = 0;
    loop
        invariant
            0 <= k <= s@.len(),
            vstd::std_specs::iter::IteratorSpec::remaining(&it) == s@.skip(k),
            vstd::std_specs::iter::IteratorSpec::obeys_prophetic_iter_laws(&it),
            pending_cr == (k > 0 && s@[k - 1] == '\r'),
            pending_cr ==> out@ == crlf_to_lf(s@.take(k - 1)),
            !pending_cr ==> out@ == crlf_to_lf(s@.take(k)),
        decreases s@.len() - k,
    {
        match it.next() {
            Some(c) => {
                assert(s@.skip(k).len() > 0);
                assert(c == s@[k]);
                let ghost p = s@.take(k);
                let ghost q = s@.take(k + 1);
                assert(q.drop_last() =~= p);
                assert(q.last() == c);
                if pending_cr {
                    assert(p.drop_last() =~= s@.take(k - 1));
                    assert(p.last() == '\r');
                    if c == '\n' {
                        assert(q.drop_last().drop_last() =~= s@.take(k - 1));
                        push_char(&mut out, '\n');
                        pending_cr = false;
                    } else if c == '\r' {
                        assert(crlf_to_lf(p) == crlf_to_lf(s@.take(k - 1)).push('\r'));
                        push_char(&mut out, '\r');
                    } else {
                        assert(crlf_to_lf(p) == crlf_to_lf(s@.take(k - 1)).push('\r'));
                        push_char(&mut out, '\r');
                        push_char(&mut out, c);
                        pending_cr = false;
                    }
                } else {
                    if c == '\r' {
                        pending_cr = true;
                    } else {
                        push_char(&mut out, c);
                    }
                }
                proof {
                    assert(s@.skip(k).drop_first() =~= s@.skip(k + 1));
                    k = k + 1;
                }
            },
            None => {
                assert(s@.take(k) =~= s@);
                if pending_cr {
                    assert(s@.drop_last() =~= s@.take(k - 1));
                    push_char(&mut out, '\r');
                }
                return out;
            },
        }
    }
}

/// Splits `s` into lines and joins them with `\n`, as
/// `s.lines().collect::<Vec<_>>().join("\n")` does.
pub fn rejoin_lines_string(s: &str) -> (res: String)
    ensures
        res@ == rejoin_lines(s@),
{
    let c = crlf_to_lf_string(s);
    let n = c.as_str().unicode_len();
    if n > 0 && c.as_str().get_char(n - 1) == '\n' {
        let body = c.as_str().substring_char(0, n - 1);
        assert(body@ =~= c@.drop_last());
        String::from_str(body)
    } else {
        c
    }
}

} // verus!
