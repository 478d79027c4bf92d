//! What a LaTeX log says about undefined control sequences.

use vstd::prelude::*;

use crate::number::{decimal, decimal_string};
use crate::text::{
    chars_of, contains, find_char, find_char_from, find_from, lemma_find_char,
    lemma_find_char_first, lemma_find_char_skip, push_text, string_of, texts,
};
use crate::text_laws::{law_search_finds_the_first_place, stands_at};

verus! {

/// The words by which the log reports an undefined control sequence.
pub const UNDEFINED: &'static str = "Undefined control sequence";

/// A line without the carriage return that it may end with.
pub open spec fn without_return(line: Seq<char>) -> Seq<char> {
    if line.len() > 0 && line.last() == '\r' {
        line.drop_last()
    } else {
        line
    }
}

/// The lines of `s` from position `from` on. A line ends with a line feed, or a
/// carriage return and a line feed, neither of which is part of it; the end of
/// the last line can be missing.
pub open spec fn lines_from(s: Seq<char>, from: int) -> Seq<Seq<char>>
    decreases s.len() - from,
{
    if from >= s.len() {
        seq![]
    } else {
        match find_char(s, '\n', from) {
            Some(end) => if from <= end < s.len() {
                seq![without_return(s.subrange(from, end))] + lines_from(s, end + 1)
            } else {
                seq![]
            },
            None => seq![s.subrange(from, s.len() as int)],
        }
    }
}

/// The first line of the context of line `i`: three lines before it, as far as there are.
pub open spec fn context_start(i: int) -> int {
    if i < 3 {
        0
    } else {
        i - 3
    }
}

/// The end of the context of line `i` of `n`: seven lines behind it, as far as there are.
pub open spec fn context_end(i: int, n: int) -> int {
    if i + 8 < n {
        i + 8
    } else {
        n
    }
}

/// `count` blanks.
pub open spec fn blanks(count: nat) -> Seq<char> {
    Seq::new(count, |i: int| ' ')
}

/// A line of a context: its number, counted from 1 and set to the right in six
/// columns, a colon, and the line.
pub open spec fn numbered_line(j: int, line: Seq<char>) -> Seq<char> {
    let number = decimal((j + 1) as nat);
    let padding = if number.len() < 6 {
        blanks((6 - number.len()) as nat)
    } else {
        seq![]
    };
    padding + number + ": "@ + line
}

/// The context of line `i`: an empty line, a heading with the path of the log,
/// and the numbered lines.
pub open spec fn context_of(path: Seq<char>, lines: Seq<Seq<char>>, i: int) -> Seq<Seq<char>> {
    let start = context_start(i);
    let end = context_end(i, lines.len() as int);
    seq![seq![], "==== LaTeX error context from "@ + path + " ===="@] + Seq::new(
        (end - start) as nat,
        |k: int| numbered_line(start + k, lines[start + k]),
    )
}

/// The contexts of the first `n` lines that report an undefined control sequence.
pub open spec fn contexts(path: Seq<char>, lines: Seq<Seq<char>>, n: int) -> Seq<Seq<char>>
    decreases n,
{
    if n <= 0 {
        seq![]
    } else if contains(lines[n - 1], UNDEFINED@) {
        contexts(path, lines, n - 1) + context_of(path, lines, n - 1)
    } else {
        contexts(path, lines, n - 1)
    }
}

/// The context of a line holds that line, and at most three lines before and
/// seven behind it.
pub proof fn law_context_holds_its_line(path: Seq<char>, lines: Seq<Seq<char>>, i: int)
    requires
        0 <= i < lines.len(),
    ensures
        0 <= context_start(i) <= i < context_end(i, lines.len() as int) <= lines.len(),
        i - context_start(i) <= 3,
        context_end(i, lines.len() as int) - i <= 8,
        context_of(path, lines, i)[2 + i - context_start(i)] == numbered_line(i, lines[i]),
        context_of(path, lines, i).len() <= 13,
{
}

/// A log without such a report gives no context.
pub proof fn law_no_report_no_context(path: Seq<char>, lines: Seq<Seq<char>>, n: int)
    requires
        0 <= n <= lines.len(),
        forall|i: int| 0 <= i < n ==> !contains(#[trigger] lines[i], UNDEFINED@),
    ensures
        contexts(path, lines, n) == Seq::<Seq<char>>::empty(),
    decreases n,
{
    if n > 0 {
        law_no_report_no_context(path, lines, n - 1);
    }
}

/// The lines from a position on are the lines of the text from there on.
proof fn lemma_lines_of_rest(s: Seq<char>, n: int, rest: Seq<char>, i: int)
    requires
        0 <= n <= s.len(),
        s.skip(n) == rest,
        0 <= i,
    ensures
        lines_from(s, n + i) == lines_from(rest, i),
    decreases rest.len() - i,
{
    if i < rest.len() {
        lemma_find_char_skip(s, '\n', n, i);
        lemma_find_char(rest, '\n', i);
        match find_char(rest, '\n', i) {
            Some(end) => {
                assert(s.subrange(n + i, n + end) =~= rest.subrange(i, end));
                lemma_lines_of_rest(s, n, rest, end + 1);
            },
            None => {
                assert(s.subrange(n + i, s.len() as int) =~= rest.subrange(i, rest.len() as int));
            },
        }
    }
}

/// A line ends at a line feed, which is not part of it; nor is a carriage return
/// in front of that. What follows are lines of their own.
pub proof fn law_line_feed_ends_a_line(line: Seq<char>, rest: Seq<char>)
    requires
        !line.contains('\n'),
    ensures
        line.len() == 0 || line.last() != '\r' ==> lines_from(line + seq!['\n'] + rest, 0)
            == seq![line] + lines_from(rest, 0),
        lines_from(line + seq!['\r', '\n'] + rest, 0) == seq![line] + lines_from(rest, 0),
{
    let plain = line + seq!['\n'] + rest;
    let n = line.len() as int;
    assert forall|j: int| 0 <= j < n implies #[trigger] plain[j] != '\n' by {
        assert(plain[j] == line[j]);
        assert(line.contains(line[j]));
    }
    lemma_find_char_first(plain, '\n', 0, n);
    assert(plain.subrange(0, n) =~= line);
    assert(plain.skip(n + 1) =~= rest);
    lemma_lines_of_rest(plain, n + 1, rest, 0);
    let both = line + seq!['\r', '\n'] + rest;
    assert forall|j: int| 0 <= j < n + 1 implies #[trigger] both[j] != '\n' by {
        if j < n {
            assert(both[j] == line[j]);
            assert(line.contains(line[j]));
        }
    }
    lemma_find_char_first(both, '\n', 0, n + 1);
    assert(both.subrange(0, n + 1) =~= line.push('\r'));
    assert(line.push('\r').drop_last() =~= line);
    assert(both.skip(n + 2) =~= rest);
    lemma_lines_of_rest(both, n + 2, rest, 0);
}

/// A text without a line feed is one line, with all that it holds; an empty one
/// has no lines.
pub proof fn law_last_line_needs_no_line_feed(line: Seq<char>)
    requires
        !line.contains('\n'),
    ensures
        line.len() > 0 ==> lines_from(line, 0) == seq![line],
        line.len() == 0 ==> lines_from(line, 0) == Seq::<Seq<char>>::empty(),
{
    lemma_find_char(line, '\n', 0);
    assert(line.subrange(0, line.len() as int) =~= line);
}

/// A line of a context is shown behind its number, counted from 1 and set to the
/// right in six columns, a colon and a blank.
pub proof fn law_numbered_line(j: int, line: Seq<char>, padding: nat)
    requires
        0 <= j,
        decimal((j + 1) as nat).len() >= 6 ==> padding == 0,
        decimal((j + 1) as nat).len() < 6 ==> padding + decimal((j + 1) as nat).len() == 6,
    ensures
        numbered_line(j, line) == Seq::new(padding, |k: int| ' ') + decimal((j + 1) as nat) + seq![
            ':',
            ' ',
        ] + line,
{
    reveal_strlit(": ");
    assert(": "@ =~= seq![':', ' ']);
    assert(numbered_line(j, line) =~= Seq::new(padding, |k: int| ' ') + decimal((j + 1) as nat)
        + seq![':', ' '] + line);
}

/// Each line that holds the words `Undefined control sequence` adds its context to
/// those of the lines before it: an empty line, a heading with the path of the
/// log, and the numbered lines from three before it to seven behind it, as far as
/// there are. Other lines add nothing.
pub proof fn law_report_adds_its_context(path: Seq<char>, lines: Seq<Seq<char>>, i: int)
    requires
        0 <= i < lines.len(),
    ensures
        contexts(path, lines, 0) == Seq::<Seq<char>>::empty(),
        (forall|k: int| !#[trigger] stands_at(lines[i], "Undefined control sequence"@, k))
            ==> contexts(path, lines, i + 1) == contexts(path, lines, i),
        (exists|k: int| #[trigger] stands_at(lines[i], "Undefined control sequence"@, k)) ==> {
            let before = contexts(path, lines, i);
            let all = contexts(path, lines, i + 1);
            let start = if i < 3 { 0 } else { i - 3 };
            let end = if i + 8 < lines.len() { i + 8 } else { lines.len() as int };
            let n = before.len() as int;
            &&& all.len() == n + 2 + (end - start)
            &&& all.take(n) == before
            &&& all[n] == Seq::<char>::empty()
            &&& all[n + 1] == "==== LaTeX error context from "@ + path + " ===="@
            &&& forall|j: int|
                start <= j < end ==> all[n + 2 + (j - start)] == #[trigger] numbered_line(
                    j,
                    lines[j],
                )
        },
{
    let before = contexts(path, lines, i);
    let all = contexts(path, lines, i + 1);
    law_search_finds_the_first_place(lines[i], UNDEFINED@, 0);
    if contains(lines[i], UNDEFINED@) {
        let context = context_of(path, lines, i);
        assert(all == before + context);
        assert(all.take(before.len() as int) =~= before);
    }
}

/// The lines of a text, without their line ends.
pub fn split_lines(content: &str) -> (r: Vec<String>)
    ensures
        texts(r@) == lines_from(content@, 0),
{
    let v = chars_of(content);
    let n: usize = v.len();
    let mut out: Vec<String> = Vec::new();
    let mut from: usize = 0;
    assert(texts(out@) + lines_from(v@, 0) =~= lines_from(v@, 0));
    while from < n
        invariant
            n == v@.len(),
            from <= n,
            lines_from(v@, 0) == texts(out@) + lines_from(v@, from as int),
        decreases n - from,
    {
        let ghost before = out@;
        proof {
            lemma_find_char(v@, '\n', from as int);
        }
        match find_char_from(&v, '\n', from) {
            Some(end) => {
                let stop: usize = if end > from && v[end - 1] == '\r' { end - 1 } else { end };
                let line = string_of(&v, from, stop);
                assert(line@ =~= without_return(v@.subrange(from as int, end as int)));
                out.push(line);
                assert(texts(out@) =~= texts(before).push(line@));
                assert(texts(out@) + lines_from(v@, end + 1) =~= texts(before) + lines_from(
                    v@,
                    from as int,
                ));
                from = end + 1;
            },
            None => {
                let line = string_of(&v, from, n);
                out.push(line);
                assert(texts(out@) =~= texts(before).push(line@));
                assert(lines_from(v@, from as int) =~= seq![line@]);
                assert(texts(out@) + lines_from(v@, n as int) =~= texts(before) + lines_from(
                    v@,
                    from as int,
                ));
                from = n;
            },
        }
    }
    assert(texts(out@) + lines_from(v@, n as int) =~= texts(out@));
    out
}

fn write_numbered(j: usize, line: &str) -> (r: String)
    requires
        j < usize::MAX,
    ensures
        r@ == numbered_line(j as int, line@),
{
    let number = decimal_string(j as u64 + 1);
    let digits = chars_of(number.as_str());
    let mut out = String::new();
    let mut width: usize = digits.len();
    while width < 6
        invariant
            digits@.len() <= 6 ==> digits@.len() <= width <= 6,
            digits@.len() > 6 ==> width == digits@.len(),
            digits@.len() <= 6 ==> out@ == blanks((width - digits@.len()) as nat),
            digits@.len() > 6 ==> out@ == Seq::<char>::empty(),
        decreases 6 - width,
    {
        out.push(' ');
        width += 1;
    }
    push_text(&mut out, number.as_str());
    push_text(&mut out, ": ");
    push_text(&mut out, line);
    out
}

/// The lines to print for a LaTeX log: for each line that reports an undefined
/// control sequence, a heading and the lines around it.
pub fn latex_error_context(path: &str, content: &str) -> (r: Vec<String>)
    ensures
        texts(r@) == contexts(
            path@,
            lines_from(content@, 0),
            lines_from(content@, 0).len() as int,
        ),
{
    let lines = split_lines(content);
    let n: usize = lines.len();
    let pat = chars_of(UNDEFINED);
    let ghost all = lines_from(content@, 0);
    let mut out: Vec<String> = Vec::new();
    let mut i: usize = 0;
    assert(texts(out@) =~= seq![]);
    while i < n
        invariant
            n == lines@.len(),
            i <= n,
            all == texts(lines@),
            pat@ == UNDEFINED@,
            texts(out@) == contexts(path@, all, i as int),
        decreases n - i,
    {
        assert(all[i as int] == lines@[i as int]@);
        if find_from(&chars_of(lines[i].as_str()), &pat, 0).is_some() {
            let ghost before = texts(out@);
            let mut heading = String::new();
            push_text(&mut heading, "==== LaTeX error context from ");
            push_text(&mut heading, path);
            push_text(&mut heading, " ====");
            out.push(String::new());
            out.push(heading);
            let start: usize = if i < 3 { 0 } else { i - 3 };
            let end: usize = if n - i > 8 { i + 8 } else { n };
            let ghost context = context_of(path@, all, i as int);
            let mut j: usize = start;
            assert(texts(out@) =~= before + context.take(2));
            while j < end
                invariant
                    n == lines@.len(),
                    i < n,
                    all == texts(lines@),
                    start == context_start(i as int),
                    end == context_end(i as int, n as int),
                    start <= j <= end <= n <= usize::MAX,
                    context == context_of(path@, all, i as int),
                    texts(out@) == before + context.take(2 + j - start),
                decreases end - j,
            {
                let ghost done = out@;
                let line = write_numbered(j, lines[j].as_str());
                assert(all[j as int] == lines@[j as int]@);
                assert(context[2 + j - start] == line@);
                out.push(line);
                assert(texts(out@) =~= texts(done).push(line@));
                assert(context.take(2 + j + 1 - start) =~= context.take(2 + j - start).push(line@));
                j += 1;
            }
            assert(context.take(2 + end - start) =~= context);
        }
        i += 1;
    }
    out
}

} // verus!
