//! Lines of a text: what stands between its line feeds.

use vstd::prelude::*;

verus! {

/// How many characters stand at the front of `s` before its first line feed,
/// or all of them where it has none.
pub open spec fn line_len(s: Seq<char>) -> nat
    decreases s.len(),
{
    if s.len() == 0 || s[0] == '\n' {
        0
    } else {
        1 + line_len(s.drop_first())
    }
}

/// A line without the carriage return at its end, if it has one.
pub open spec fn trim_cr(line: Seq<char>) -> Seq<char> {
    if line.len() > 0 && line.last() == '\r' {
        line.drop_last()
    } else {
        line
    }
}

/// The lines of a text. A line ends at a line feed, or at a carriage return
/// directly followed by one; neither belongs to the line. What follows the
/// last line feed is a line too, unless nothing follows it.
pub open spec fn lines(s: Seq<char>) -> Seq<Seq<char>>
    decreases s.len(),
{
    let n = line_len(s) as int;
    if s.len() == 0 {
        Seq::empty()
    } else if n < s.len() {
        seq![trim_cr(s.take(n))] + lines(s.skip(n + 1))
    } else {
        seq![s]
    }
}

/// A front of `s` without a line feed, which ends where `s` ends or at a
/// line feed, is the first line of `s` as it stands in the text.
pub proof fn lemma_line_len(s: Seq<char>, n: int)
    requires
        0 <= n <= s.len(),
        forall|j: int| 0 <= j < n ==> #[trigger] s[j] != '\n',
        n == s.len() || s[n] == '\n',
    ensures
        line_len(s) == n,
    decreases n,
{
    if n > 0 {
        let t = s.drop_first();
        assert forall|j: int| 0 <= j < n - 1 implies #[trigger] t[j] != '\n' by {
            assert(t[j] == s[j + 1]);
        }
        lemma_line_len(t, n - 1);
    }
}

/// A text that is one line whatever follows it: it holds no line feed and
/// does not end in a carriage return.
pub open spec fn is_plain_line(line: Seq<char>) -> bool {
    &&& forall|j: int| 0 <= j < line.len() ==> #[trigger] line[j] != '\n'
    &&& !(line.len() > 0 && line.last() == '\r')
}

/// A plain line followed by a line feed is the first line of any text that
/// starts with them, and the text's other lines are those of what follows.
pub proof fn lemma_lines_after_line(line: Seq<char>, rest: Seq<char>)
    requires
        is_plain_line(line),
    ensures
        lines(line.push('\n') + rest) == seq![line] + lines(rest),
{
    let s = line.push('\n') + rest;
    let n = line.len() as int;
    assert forall|j: int| 0 <= j < n implies #[trigger] s[j] != '\n' by {
        assert(s[j] == line[j]);
    }
    assert(s[n] == '\n');
    lemma_line_len(s, n);
    assert(s.take(n) =~= line);
    assert(s.skip(n + 1) =~= rest);
}

/// The text made of the given lines, each followed by a line feed.
pub open spec fn join_lines(ls: Seq<Seq<char>>) -> Seq<char>
    decreases ls.len(),
{
    if ls.len() == 0 {
        Seq::empty()
    } else {
        ls[0].push('\n') + join_lines(ls.drop_first())
    }
}

/// Joining one more line adds the line and a line feed at the end.
pub proof fn lemma_join_push(ls: Seq<Seq<char>>, line: Seq<char>)
    ensures
        join_lines(ls.push(line)) == join_lines(ls) + line.push('\n'),
    decreases ls.len(),
{
    let more = ls.push(line);
    if ls.len() == 0 {
        assert(more.drop_first() =~= Seq::<Seq<char>>::empty());
        assert(join_lines(more.drop_first()) =~= Seq::<char>::empty());
        assert(join_lines(more) =~= join_lines(ls) + line.push('\n'));
    } else {
        lemma_join_push(ls.drop_first(), line);
        assert(more.drop_first() =~= ls.drop_first().push(line));
        assert(more[0] == ls[0]);
        assert(join_lines(more) == ls[0].push('\n') + join_lines(more.drop_first()));
        assert(join_lines(more) =~= join_lines(ls) + line.push('\n'));
    }
}

/// Plain lines that were joined come back when the text is split.
pub proof fn lemma_lines_of_joined(ls: Seq<Seq<char>>)
    requires
        forall|i: int| 0 <= i < ls.len() ==> is_plain_line(#[trigger] ls[i]),
    ensures
        lines(join_lines(ls)) == ls,
    decreases ls.len(),
{
    if ls.len() > 0 {
        let rest = ls.drop_first();
        assert forall|i: int| 0 <= i < rest.len() implies is_plain_line(#[trigger] rest[i]) by {
            assert(rest[i] == ls[i + 1]);
        }
        lemma_lines_of_joined(rest);
        lemma_lines_after_line(ls[0], join_lines(rest));
        assert(seq![ls[0]] + rest =~= ls);
    }
}

/// Splits `text` into its lines.
pub fn split_lines<'a>(text: &'a str) -> (out: Vec<&'a str>)
    ensures
        out@.len() == lines(text@).len(),
        forall|i: int| 0 <= i < out@.len() ==> (#[trigger] out@[i])@ == lines(text@)[i],
{
    let mut out: Vec<&'a str> = Vec::new();
    let ghost done: Seq<Seq<char>> = Seq::empty();
    let mut start: usize = 0;
    let mut at: usize = 0;
    let mut after_cr = false;
    // The count shows that a place in the text fits in a `usize`.
    let total: usize = text.unicode_len();
    proof {
        assert(text@.skip(0) =~= text@);
        assert(done + lines(text@) =~= lines(text@));
    }
    for c in it: text.chars()
        invariant
            it.seq() == text@,
            at == it.index(),
            start <= at <= text@.len(),
            total == text@.len(),
            forall|j: int| start <= j < at ==> #[trigger] text@[j] != '\n',
            after_cr == (start < at && text@[at - 1] == '\r'),
            done.len() == out@.len(),
            forall|i: int| 0 <= i < out@.len() ==> (#[trigger] out@[i])@ == done[i],
            lines(text@) == done + lines(text@.skip(start as int)),
    {
        if c == '\n' {
            let end: usize = if after_cr { at - 1 } else { at };
            let line = text.substring_char(start, end);
            proof {
                let rest = text@.skip(start as int);
                assert forall|j: int| 0 <= j < at - start implies #[trigger] rest[j] != '\n' by {
                    assert(rest[j] == text@[start + j]);
                }
                lemma_line_len(rest, at - start);
                assert(rest.take(at - start) =~= text@.subrange(start as int, at as int));
                assert(trim_cr(rest.take(at - start)) =~= line@);
                assert(rest.skip(at - start + 1) =~= text@.skip(at + 1));
                assert(done + (seq![line@] + lines(text@.skip(at + 1))) =~= done.push(line@)
                    + lines(text@.skip(at + 1)));
                done = done.push(line@);
            }
            out.push(line);
            start = at + 1;
            after_cr = false;
        } else {
            after_cr = c == '\r';
        }
        at = at + 1;
    }
    if start < at {
        let line = text.substring_char(start, at);
        proof {
            let rest = text@.skip(start as int);
            assert forall|j: int| 0 <= j < at - start implies #[trigger] rest[j] != '\n' by {
                assert(rest[j] == text@[start + j]);
            }
            lemma_line_len(rest, at - start);
            assert(rest =~= line@);
            done = done.push(line@);
        }
        out.push(line);
    } else {
        proof {
            assert(text@.skip(start as int).len() == 0);
            assert(done + Seq::<Seq<char>>::empty() =~= done);
        }
    }
    out
}

} // verus!
