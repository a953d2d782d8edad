//! `PYTHON ... END_PYTHON` blocks in shell scripts.
//!
//! A line on which exactly one segment of the pipeline is a `PYTHON` command starts a block: the
//! lines that follow, up to a line that is exactly `END_PYTHON`, are Python source. Such a line is
//! rewritten so that the command reads those lines as a quoted here-document. All other lines stay
//! as they are.

use vstd::prelude::*;
use vstd::string::*;
use vstd::utf8::*;

use crate::text;
use crate::text::{char_width, chars_of, is_whitespace, same_text, text_of};
use crate::tokenizer::{SourcePosition, TokenizerError};

verus! {

/// Which quotes are open, and whether the next character is escaped.
#[derive(Clone, Copy, Debug, PartialEq, Eq, Structural)]
pub struct Quoting {
    /// Between single quotes.
    pub single: bool,
    /// Between double quotes.
    pub double: bool,
    /// Behind a backslash.
    pub escaped: bool,
}

/// The state outside all quotes.
pub open spec fn unquoted() -> Quoting {
    Quoting { single: false, double: false, escaped: false }
}

/// The state behind one more character: a backslash outside single quotes escapes the character
/// behind it, and a quote that is neither escaped nor within quotes of the other kind opens or
/// closes.
pub open spec fn quoting_step(q: Quoting, c: char) -> Quoting {
    if q.escaped {
        Quoting { escaped: false, ..q }
    } else if c == '\\' && !q.single {
        Quoting { escaped: true, ..q }
    } else if c == '\'' && !q.double {
        Quoting { single: !q.single, ..q }
    } else if c == '"' && !q.single {
        Quoting { double: !q.double, ..q }
    } else {
        q
    }
}

/// The state before character `i`.
pub open spec fn quoting_before(s: Seq<char>, i: int) -> Quoting
    decreases i,
{
    if i <= 0 {
        unquoted()
    } else {
        quoting_step(quoting_before(s, i - 1), s[i - 1])
    }
}

/// Whether character `i` separates two segments of a pipeline: an unquoted `|` that does not start
/// a `|&`.
pub open spec fn is_pipe(s: Seq<char>, i: int) -> bool {
    &&& quoting_before(s, i) == unquoted()
    &&& s[i] == '|'
    &&& !(i + 1 < s.len() && s[i + 1] == '&')
}

/// The pipeline separators among the first `n` characters.
pub open spec fn pipes_before(s: Seq<char>, n: int) -> Seq<int>
    decreases n,
{
    if n <= 0 {
        seq![]
    } else if is_pipe(s, n - 1) {
        pipes_before(s, n - 1).push(n - 1)
    } else {
        pipes_before(s, n - 1)
    }
}

/// The pipeline separators of `s`.
pub open spec fn pipes(s: Seq<char>) -> Seq<int> {
    pipes_before(s, s.len() as int)
}

/// The separators stand in order, and within the characters looked at.
pub proof fn pipes_increase(s: Seq<char>, n: int)
    requires
        0 <= n <= s.len(),
    ensures
        forall|k: int|
            0 <= k < pipes_before(s, n).len() ==> 0 <= #[trigger] pipes_before(s, n)[k] < n,
        forall|j: int, k: int|
            0 <= j < k < pipes_before(s, n).len() ==> #[trigger] pipes_before(s, n)[j]
                < #[trigger] pipes_before(s, n)[k],
        pipes_before(s, n).len() <= n,
    decreases n,
{
    if n > 0 {
        pipes_increase(s, n - 1);
    }
}

/// How many white space characters `s` starts with.
pub open spec fn leading_white(s: Seq<char>) -> nat
    decreases s.len(),
{
    if s.len() > 0 && text::is_white(s[0]) {
        1 + leading_white(s.drop_first())
    } else {
        0
    }
}

/// Whether a segment of a pipeline is a `PYTHON` command: the word, behind white space, and behind
/// it the end, white space or a redirection.
pub open spec fn is_python_command(segment: Seq<char>) -> bool {
    let s = segment.skip(leading_white(segment) as int);
    &&& s.len() >= 6
    &&& s.take(6) == "PYTHON"@
    &&& s.len() == 6 || text::is_white(s[6]) || s[6] == '<' || s[6] == '>'
}

/// Where segment `k` of a pipeline starts.
pub open spec fn segment_start(s: Seq<char>, k: int) -> int {
    if k == 0 {
        0
    } else {
        pipes(s)[k - 1] + 1
    }
}

/// Where segment `k` of a pipeline ends.
pub open spec fn segment_end(s: Seq<char>, k: int) -> int {
    if k < pipes(s).len() {
        pipes(s)[k]
    } else {
        s.len() as int
    }
}

/// Segment `k` of a pipeline.
pub open spec fn segment(s: Seq<char>, k: int) -> Seq<char> {
    s.subrange(segment_start(s, k), segment_end(s, k))
}

/// The ends of those of the first `n` segments that are `PYTHON` commands.
pub open spec fn python_ends(s: Seq<char>, n: int) -> Seq<int>
    decreases n,
{
    if n <= 0 {
        seq![]
    } else if is_python_command(segment(s, n - 1)) {
        python_ends(s, n - 1).push(segment_end(s, n - 1))
    } else {
        python_ends(s, n - 1)
    }
}

/// A line without its line feed.
pub open spec fn without_newline(line: Seq<char>) -> Seq<char> {
    if line.len() > 0 && line.last() == '\n' {
        line.drop_last()
    } else {
        line
    }
}

/// Where the redirection of a line that starts a block goes: behind the one `PYTHON` command. A
/// line with none or several starts no block.
pub open spec fn block_insert(line: Seq<char>) -> Option<int> {
    let s = without_newline(line);
    let ends = python_ends(s, pipes(s).len() as int + 1);
    if ends.len() == 1 {
        Some(ends[0])
    } else {
        None
    }
}

/// Whether a line ends a block.
pub open spec fn is_terminator(line: Seq<char>) -> bool {
    line == "END_PYTHON\n"@ || line == "END_PYTHON"@
}

/// A line that starts a block, with the redirection put in.
pub open spec fn marked(line: Seq<char>, at: int) -> Seq<char> {
    line.take(at) + " <<'END_PYTHON'"@ + line.skip(at)
}

/// The end of the first line of `s`, behind its line feed.
pub open spec fn first_line_end(s: Seq<char>) -> int
    decreases s.len(),
{
    if s.len() == 0 {
        0
    } else if s[0] == '\n' {
        1
    } else {
        1 + first_line_end(s.drop_first())
    }
}

/// The first line of a text that is not empty is not empty either.
pub proof fn first_line_bounds(s: Seq<char>)
    ensures
        0 <= first_line_end(s) <= s.len(),
        s.len() > 0 ==> first_line_end(s) > 0,
        forall|i: int| 0 <= i < first_line_end(s) - 1 ==> s[i] != '\n',
        first_line_end(s) < s.len() ==> first_line_end(s) > 0 && s[first_line_end(s) - 1] == '\n',
    decreases s.len(),
{
    if s.len() > 0 && s[0] != '\n' {
        let rest = s.drop_first();
        first_line_bounds(rest);
        assert forall|i: int| 0 <= i < first_line_end(s) - 1 implies s[i] != '\n' by {
            if i > 0 {
                assert(s[i] == rest[i - 1]);
            }
        }
    }
}

/// The lines of `s`, each with its line feed.
pub open spec fn lines(s: Seq<char>) -> Seq<Seq<char>>
    decreases s.len(),
{
    if s.len() == 0 {
        seq![]
    } else {
        proof {
            first_line_bounds(s);
        }
        let end = first_line_end(s);
        seq![s.take(end)] + lines(s.skip(end))
    }
}

/// The texts of `ls`, one behind the other.
pub open spec fn joined(ls: Seq<Seq<char>>) -> Seq<char>
    decreases ls.len(),
{
    if ls.len() == 0 {
        seq![]
    } else {
        joined(ls.drop_last()) + ls.last()
    }
}

/// Joining two lists of texts joins the one behind the other.
pub proof fn lemma_joined_concat(a: Seq<Seq<char>>, b: Seq<Seq<char>>)
    ensures
        joined(a + b) == joined(a) + joined(b),
    decreases b.len(),
{
    if b.len() == 0 {
        assert(a + b =~= a);
        assert(joined(a) + joined(b) =~= joined(a));
    } else {
        lemma_joined_concat(a, b.drop_last());
        assert((a + b).drop_last() =~= a + b.drop_last());
        assert((a + b).last() == b.last());
        assert(joined(a) + (joined(b.drop_last()) + b.last()) =~= joined(a) + joined(
            b.drop_last(),
        ) + b.last());
    }
}

/// Joining one text gives the text.
pub proof fn lemma_joined_one(l: Seq<char>)
    ensures
        joined(seq![l]) == l,
{
    let one = seq![l];
    assert(one.drop_last() =~= Seq::<Seq<char>>::empty());
    assert(joined(one.drop_last()) =~= Seq::<char>::empty());
    assert(Seq::<char>::empty() + l =~= l);
}

/// The lines of a text make up the text.
pub proof fn lines_make_up_text(s: Seq<char>)
    ensures
        joined(lines(s)) == s,
    decreases s.len(),
{
    if s.len() > 0 {
        first_line_bounds(s);
        let end = first_line_end(s);
        lines_make_up_text(s.skip(end));
        lemma_joined_concat(seq![s.take(end)], lines(s.skip(end)));
        lemma_joined_one(s.take(end));
        assert(s.take(end) + s.skip(end) =~= s);
    }
}

/// The first line at or behind line `i` that ends a block.
pub open spec fn terminator_from(ls: Seq<Seq<char>>, i: int) -> Option<int>
    decreases ls.len() - i,
{
    if i >= ls.len() {
        None
    } else if is_terminator(ls[i]) {
        Some(i)
    } else {
        terminator_from(ls, i + 1)
    }
}

/// The terminator found is one, and no line before it is.
pub proof fn terminator_is_first(ls: Seq<Seq<char>>, i: int)
    requires
        0 <= i,
    ensures
        match terminator_from(ls, i) {
            Some(e) => {
                &&& i <= e < ls.len()
                &&& is_terminator(ls[e])
                &&& forall|j: int| i <= j < e ==> !is_terminator(#[trigger] ls[j])
            },
            None => forall|j: int| i <= j < ls.len() ==> !is_terminator(#[trigger] ls[j]),
        },
    decreases (if i < ls.len() { ls.len() - i } else { 0 }),
{
    if i < ls.len() && !is_terminator(ls[i]) {
        terminator_is_first(ls, i + 1);
    }
}

/// The lines from line `i` on, with the blocks rewritten; or the first of them that starts a block
/// without an end.
pub open spec fn rewritten_from(ls: Seq<Seq<char>>, i: int) -> Result<Seq<Seq<char>>, int>
    decreases ls.len() - i,
{
    if i < 0 || i >= ls.len() {
        Ok(seq![])
    } else {
        match block_insert(ls[i]) {
            None => match rewritten_from(ls, i + 1) {
                Ok(rest) => Ok(seq![ls[i]] + rest),
                Err(line) => Err(line),
            },
            Some(at) => match terminator_from(ls, i + 1) {
                None => Err(i),
                Some(e) => {
                    proof {
                        terminator_is_first(ls, i + 1);
                    }
                    match rewritten_from(ls, e + 1) {
                        Ok(rest) => Ok(
                            seq![marked(ls[i], at)] + ls.subrange(i + 1, e + 1) + rest,
                        ),
                        Err(line) => Err(line),
                    }
                },
            },
        }
    }
}

/// The script with its blocks rewritten, or the number of the line that starts a block without an
/// end.
pub open spec fn preprocessed(s: Seq<char>) -> Result<Seq<char>, int> {
    match rewritten_from(lines(s), 0) {
        Ok(ls) => Ok(joined(ls)),
        Err(line) => Err(line + 1),
    }
}

/// Whether `out` is a line of a script as rewriting leaves it: as it was, or with the redirection
/// put in.
pub open spec fn kept(line: Seq<char>, out: Seq<char>) -> bool {
    ||| out == line
    ||| block_insert(line) matches Some(at) && out == marked(line, at)
}

/// Rewriting keeps the number of lines, and every line but those that start a block.
pub proof fn rewriting_keeps_lines(ls: Seq<Seq<char>>, i: int)
    requires
        0 <= i <= ls.len(),
        rewritten_from(ls, i) is Ok,
    ensures
        rewritten_from(ls, i)->Ok_0.len() == ls.len() - i,
        forall|k: int|
            0 <= k < ls.len() - i ==> kept(ls[i + k], #[trigger] rewritten_from(ls, i)->Ok_0[k]),
    decreases ls.len() - i,
{
    if i < ls.len() {
        let out = rewritten_from(ls, i)->Ok_0;
        match block_insert(ls[i]) {
            None => {
                rewriting_keeps_lines(ls, i + 1);
                let rest = rewritten_from(ls, i + 1)->Ok_0;
                assert forall|k: int| 0 <= k < ls.len() - i implies kept(
                    ls[i + k],
                    #[trigger] out[k],
                ) by {
                    if k > 0 {
                        assert(out[k] == rest[k - 1]);
                    }
                }
            },
            Some(at) => {
                terminator_is_first(ls, i + 1);
                let e = terminator_from(ls, i + 1)->Some_0;
                rewriting_keeps_lines(ls, e + 1);
                let rest = rewritten_from(ls, e + 1)->Ok_0;
                assert forall|k: int| 0 <= k < ls.len() - i implies kept(
                    ls[i + k],
                    #[trigger] out[k],
                ) by {
                    if k > e - i {
                        assert(out[k] == rest[k - (e + 1 - i)]);
                    }
                }
            },
        }
    }
}

/// A script none of whose lines starts a block stays as it is.
pub proof fn script_without_blocks_is_unchanged(s: Seq<char>)
    requires
        forall|i: int| 0 <= i < lines(s).len() ==> block_insert(#[trigger] lines(s)[i]) is None,
    ensures
        preprocessed(s) == Ok::<Seq<char>, int>(s),
{
    lemma_without_blocks(lines(s), 0);
    assert(lines(s).skip(0) =~= lines(s));
    lines_make_up_text(s);
}

proof fn lemma_without_blocks(ls: Seq<Seq<char>>, i: int)
    requires
        0 <= i <= ls.len(),
        forall|j: int| i <= j < ls.len() ==> block_insert(#[trigger] ls[j]) is None,
    ensures
        rewritten_from(ls, i) == Ok::<Seq<Seq<char>>, int>(ls.skip(i)),
    decreases ls.len() - i,
{
    if i < ls.len() {
        lemma_without_blocks(ls, i + 1);
        assert(seq![ls[i]] + ls.skip(i + 1) =~= ls.skip(i));
    } else {
        assert(ls.skip(i) =~= seq![]);
    }
}

/// Lines looked at from further on are those behind the ones left out.
proof fn lemma_shift(ls: Seq<Seq<char>>, n: int, i: int)
    requires
        0 <= n,
        0 <= i,
        n + i <= ls.len(),
    ensures
        terminator_from(ls, n + i) == (match terminator_from(ls.skip(n), i) {
            Some(e) => Some(e + n),
            None => None,
        }),
        rewritten_from(ls, n + i) == (match rewritten_from(ls.skip(n), i) {
            Ok(out) => Ok::<Seq<Seq<char>>, int>(out),
            Err(line) => Err(line + n),
        }),
    decreases ls.len() - n - i,
{
    let tail = ls.skip(n);
    if n + i < ls.len() {
        assert(tail[i] == ls[n + i]);
        lemma_shift(ls, n, i + 1);
        if block_insert(tail[i]) is Some {
            terminator_is_first(tail, i + 1);
            if let Some(e) = terminator_from(tail, i + 1) {
                lemma_shift(ls, n, e + 1);
                assert(tail.subrange(i + 1, e + 1) =~= ls.subrange(n + i + 1, n + e + 1));
            }
        }
    }
}

/// A block is rewritten as a whole: the line that starts it gets the redirection, the lines up to
/// its end stay as they are, whatever they hold, and the lines behind it are rewritten on their
/// own.
pub proof fn block_is_rewritten(
    start: Seq<char>,
    body: Seq<Seq<char>>,
    end: Seq<char>,
    rest: Seq<Seq<char>>,
)
    requires
        block_insert(start) is Some,
        forall|i: int| 0 <= i < body.len() ==> !is_terminator(#[trigger] body[i]),
        is_terminator(end),
    ensures
        rewritten_from(seq![start] + body + seq![end] + rest, 0) == (match rewritten_from(rest, 0) {
            Ok(out) => Ok::<Seq<Seq<char>>, int>(
                seq![marked(start, block_insert(start)->Some_0)] + body + seq![end] + out,
            ),
            Err(line) => Err(line + body.len() + 2),
        }),
{
    let ls = seq![start] + body + seq![end] + rest;
    let e = body.len() as int + 1;
    assert forall|j: int| 1 <= j < e implies !is_terminator(#[trigger] ls[j]) by {
        assert(ls[j] == body[j - 1]);
    }
    assert(ls[e] == end);
    terminator_is_first(ls, 1);
    assert(terminator_from(ls, 1) == Some(e));
    lemma_shift(ls, e + 1, 0);
    assert(ls.skip(e + 1) =~= rest);
    let head = seq![marked(start, block_insert(start)->Some_0)];
    assert(ls.subrange(1, e + 1) =~= body + seq![end]);
    if let Ok(out) = rewritten_from(rest, 0) {
        assert(head + (body + seq![end]) + out =~= head + body + seq![end] + out);
    }
}

/// A line that starts no block stays as it is, and the lines behind it are rewritten on their own.
pub proof fn other_line_is_kept(line: Seq<char>, rest: Seq<Seq<char>>)
    requires
        block_insert(line) is None,
    ensures
        rewritten_from(seq![line] + rest, 0) == (match rewritten_from(rest, 0) {
            Ok(out) => Ok::<Seq<Seq<char>>, int>(seq![line] + out),
            Err(at) => Err(at + 1),
        }),
{
    let ls = seq![line] + rest;
    lemma_shift(ls, 1, 0);
    assert(ls.skip(1) =~= rest);
}

/// A script is refused exactly for a block without an end: the line reported starts a block, and no
/// line behind it ends one.
pub proof fn refused_block_has_no_end(s: Seq<char>)
    requires
        preprocessed(s) is Err,
    ensures
        ({
            let ls = lines(s);
            let line = preprocessed(s)->Err_0 - 1;
            &&& 0 <= line < ls.len()
            &&& block_insert(ls[line]) is Some
            &&& forall|j: int| line < j < ls.len() ==> !is_terminator(#[trigger] ls[j])
        }),
{
    lemma_refused(lines(s), 0);
}

proof fn lemma_refused(ls: Seq<Seq<char>>, i: int)
    requires
        0 <= i,
        rewritten_from(ls, i) is Err,
    ensures
        ({
            let line = rewritten_from(ls, i)->Err_0;
            &&& i <= line < ls.len()
            &&& block_insert(ls[line]) is Some
            &&& forall|j: int| line < j < ls.len() ==> !is_terminator(#[trigger] ls[j])
        }),
    decreases ls.len() - i,
{
    match block_insert(ls[i]) {
        None => {
            lemma_refused(ls, i + 1);
        },
        Some(at) => {
            terminator_is_first(ls, i + 1);
            if let Some(e) = terminator_from(ls, i + 1) {
                lemma_refused(ls, e + 1);
            }
        },
    }
}

/// Whether `ls` can be the lines of a text: none is empty, and a line feed stands at the end of
/// each but the last and nowhere else.
pub open spec fn proper(ls: Seq<Seq<char>>) -> bool {
    &&& forall|k: int| 0 <= k < ls.len() ==> (#[trigger] ls[k]).len() > 0
    &&& forall|k: int, j: int|
        0 <= k < ls.len() && 0 <= j < ls[k].len() - 1 ==> #[trigger] ls[k][j] != '\n'
    &&& forall|k: int| 0 <= k < ls.len() - 1 ==> (#[trigger] ls[k]).last() == '\n'
}

/// The lines of a text are proper.
pub proof fn lines_are_proper(s: Seq<char>)
    ensures
        proper(lines(s)),
    decreases s.len(),
{
    if s.len() > 0 {
        first_line_bounds(s);
        let end = first_line_end(s);
        lines_are_proper(s.skip(end));
        let rest = lines(s.skip(end));
        let ls = lines(s);
        assert(ls[0] == s.take(end));
        assert forall|k: int| 0 <= k < ls.len() implies (#[trigger] ls[k]).len() > 0 by {
            if k > 0 {
                assert(ls[k] == rest[k - 1]);
            }
        }
        assert forall|k: int, j: int| 0 <= k < ls.len() && 0 <= j < ls[k].len() - 1 implies
            #[trigger] ls[k][j] != '\n' by {
            if k > 0 {
                assert(ls[k] == rest[k - 1]);
                assert(rest[k - 1][j] != '\n');
            }
        }
        assert forall|k: int| 0 <= k < ls.len() - 1 implies (#[trigger] ls[k]).last() == '\n' by {
            if k > 0 {
                assert(ls[k] == rest[k - 1]);
            } else if end == s.len() {
                assert(s.skip(end) =~= Seq::<char>::empty());
                assert(rest.len() == 0);
            }
        }
    }
}

/// A line of a text is a stretch of it.
pub proof fn line_position(s: Seq<char>, k: int) -> (at: int)
    requires
        0 <= k < lines(s).len(),
    ensures
        0 <= at,
        at + lines(s)[k].len() <= s.len(),
        forall|j: int| 0 <= j < lines(s)[k].len() ==> #[trigger] lines(s)[k][j] == s[at + j],
    decreases s.len(),
{
    first_line_bounds(s);
    let end = first_line_end(s);
    let rest = s.skip(end);
    if k == 0 {
        0
    } else {
        assert(lines(s)[k] == lines(rest)[k - 1]);
        let at = line_position(rest, k - 1);
        assert forall|j: int| 0 <= j < lines(s)[k].len() implies #[trigger] lines(s)[k][j] == s[end
            + at + j] by {
            assert(lines(rest)[k - 1][j] == rest[at + j]);
        }
        end + at
    }
}

/// The last line of a text ends as the text does.
pub proof fn last_line_ends_text(s: Seq<char>)
    requires
        s.len() > 0,
    ensures
        lines(s).len() > 0,
        lines(s).last().len() > 0,
        lines(s).last().last() == s.last(),
{
    lines_make_up_text(s);
    lines_are_proper(s);
    let ls = lines(s);
    assert(ls.len() > 0);
    assert(ls[ls.len() - 1].len() > 0);
    assert(joined(ls) == joined(ls.drop_last()) + ls.last());
}

/// The first line of a text that starts with a whole line.
pub proof fn lemma_first_line(l: Seq<char>, rest: Seq<char>)
    requires
        l.len() > 0,
        forall|j: int| 0 <= j < l.len() - 1 ==> l[j] != '\n',
        l.last() == '\n' || rest.len() == 0,
    ensures
        first_line_end(l + rest) == l.len(),
    decreases l.len(),
{
    let s = l + rest;
    if s[0] != '\n' {
        assert(s.drop_first() =~= l.drop_first() + rest);
        if l.len() == 1 {
            assert(s.drop_first() =~= Seq::<char>::empty());
            assert(first_line_end(s.drop_first()) == 0);
        } else {
            assert(l.drop_first().last() == l.last());
            lemma_first_line(l.drop_first(), rest);
        }
    }
}

/// Proper lines are the lines of the text that they make up.
pub proof fn lines_of_joined(ls: Seq<Seq<char>>)
    requires
        proper(ls),
    ensures
        lines(joined(ls)) == ls,
    decreases ls.len(),
{
    if ls.len() == 0 {
        assert(lines(joined(ls)) =~= ls);
    } else {
        let l = ls[0];
        let tail = ls.drop_first();
        assert(ls =~= seq![l] + tail);
        lemma_joined_concat(seq![l], tail);
        lemma_joined_one(l);
        assert forall|k: int, j: int| 0 <= k < tail.len() && 0 <= j < tail[k].len() - 1 implies
            #[trigger] tail[k][j] != '\n' by {
            assert(ls[k + 1][j] != '\n');
        }
        assert forall|k: int| 0 <= k < tail.len() - 1 implies (#[trigger] tail[k]).last()
            == '\n' by {
            assert(ls[k + 1].last() == '\n');
        }
        assert forall|k: int| 0 <= k < tail.len() implies (#[trigger] tail[k]).len() > 0 by {
            assert(ls[k + 1].len() > 0);
        }
        lines_of_joined(tail);
        let rest = joined(tail);
        assert(forall|j: int| 0 <= j < l.len() - 1 ==> ls[0][j] != '\n');
        if tail.len() > 0 {
            assert(ls[0].last() == '\n');
        }
        lemma_first_line(l, rest);
        let s = l + rest;
        assert(s.take(l.len() as int) =~= l);
        assert(s.skip(l.len() as int) =~= rest);
        assert(lines(s) =~= ls);
    }
}

/// The redirection goes into the line, before its line feed.
pub proof fn lemma_insert_bounds(line: Seq<char>)
    requires
        block_insert(line) is Some,
    ensures
        0 <= block_insert(line)->Some_0 <= without_newline(line).len(),
{
    let s = without_newline(line);
    pipes_increase(s, s.len() as int);
    lemma_ends_bounds(s, pipes(s).len() as int + 1);
    let ends = python_ends(s, pipes(s).len() as int + 1);
    assert(0 <= ends[0] <= s.len());
}

proof fn lemma_ends_bounds(s: Seq<char>, n: int)
    requires
        0 <= n <= pipes(s).len() + 1,
        forall|k: int| 0 <= k < pipes(s).len() ==> 0 <= #[trigger] pipes(s)[k] < s.len(),
    ensures
        forall|k: int|
            0 <= k < python_ends(s, n).len() ==> 0 <= #[trigger] python_ends(s, n)[k] <= s.len(),
    decreases n,
{
    if n > 0 {
        lemma_ends_bounds(s, n - 1);
        assert(0 <= segment_end(s, n - 1) <= s.len()) by {
            if n - 1 < pipes(s).len() {
                assert(0 <= pipes(s)[n - 1] < s.len());
            }
        }
        let before = python_ends(s, n - 1);
        assert forall|k: int| 0 <= k < python_ends(s, n).len() implies 0 <= #[trigger] python_ends(
            s,
            n,
        )[k] <= s.len() by {
            if k < before.len() {
                assert(0 <= before[k] <= s.len());
            }
        }
    }
}

/// Rewriting keeps line numbers: the lines of the rewritten script are the lines of the script, each
/// as it was or with the redirection put in.
pub proof fn rewriting_keeps_line_numbers(s: Seq<char>)
    requires
        preprocessed(s) is Ok,
    ensures
        ({
            let output = preprocessed(s)->Ok_0;
            &&& lines(output).len() == lines(s).len()
            &&& forall|k: int|
                0 <= k < lines(s).len() ==> kept(lines(s)[k], #[trigger] lines(output)[k])
        }),
{
    let ls = lines(s);
    let out = rewritten_from(ls, 0)->Ok_0;
    lines_are_proper(s);
    rewriting_keeps_lines(ls, 0);
    reveal_strlit(" <<'END_PYTHON'");
    let mark = " <<'END_PYTHON'"@;
    assert forall|k: int| 0 <= k < out.len() implies (#[trigger] out[k]).len() > 0 && (forall|j: int|
        0 <= j < out[k].len() - 1 ==> #[trigger] out[k][j] != '\n') && (k < out.len() - 1
        ==> out[k].last() == '\n') by {
        assert(kept(ls[0 + k], out[k]));
        let line = ls[k];
        assert(line.len() > 0);
        assert(forall|j: int| 0 <= j < line.len() - 1 ==> #[trigger] ls[k][j] != '\n');
        if out[k] != line {
            let at = block_insert(line)->Some_0;
            lemma_insert_bounds(line);
            lemma_without_newline(line, k, ls);
            assert(out[k] =~= line.take(at) + mark + line.skip(at));
            if k < out.len() - 1 {
                assert(line.last() == '\n');
                assert(out[k].last() == line.last());
            }
            assert forall|j: int| 0 <= j < out[k].len() - 1 implies #[trigger] out[k][j]
                != '\n' by {
                if j < at {
                    assert(out[k][j] == line[j]);
                    assert(j < without_newline(line).len());
                } else if j < at + mark.len() {
                    assert(out[k][j] == mark[j - at]);
                } else {
                    assert(out[k][j] == line[j - mark.len()]);
                }
            }
        }
    }
    assert(proper(out));
    lines_of_joined(out);
    assert forall|k: int| 0 <= k < ls.len() implies kept(ls[k], #[trigger] out[k]) by {
        assert(kept(ls[0 + k], out[k]));
    }
}

/// Without its line feed a line holds none.
proof fn lemma_without_newline(line: Seq<char>, k: int, ls: Seq<Seq<char>>)
    requires
        proper(ls),
        0 <= k < ls.len(),
        line == ls[k],
    ensures
        forall|j: int| 0 <= j < without_newline(line).len() ==> #[trigger] line[j] != '\n',
        without_newline(line).len() >= line.len() - 1,
{
    assert forall|j: int| 0 <= j < without_newline(line).len() implies #[trigger] line[j]
        != '\n' by {
        if j < line.len() - 1 {
            assert(ls[k][j] != '\n');
        }
    }
}

/// The byte offsets of the pipeline separators of `s`.
pub fn unquoted_pipe_positions(s: &str) -> (r: Vec<usize>)
    ensures
        r@.len() == pipes(s@).len(),
        forall|k: int|
            0 <= k < r@.len() ==> #[trigger] r@[k] == text::byte_offset(s@, pipes(s@)[k]),
{
    let chars = chars_of(s);
    let size = s.as_bytes().len();
    let mut positions: Vec<usize> = Vec::new();
    let mut q = Quoting { single: false, double: false, escaped: false };
    let mut at: usize = 0;
    let mut i: usize = 0;
    assert(s@.take(0) =~= Seq::<char>::empty());
    assert(encode_utf8(s@.take(0)) =~= Seq::<u8>::empty());
    while i < chars.len()
        invariant
            chars@ == s@,
            size == encode_utf8(s@).len(),
            i <= chars@.len(),
            at == text::byte_offset(s@, i as int),
            q == quoting_before(s@, i as int),
            positions@.len() == pipes_before(s@, i as int).len(),
            forall|k: int|
                0 <= k < positions@.len() ==> #[trigger] positions@[k] == text::byte_offset(
                    s@,
                    pipes_before(s@, i as int)[k],
                ),
        decreases chars@.len() - i,
    {
        let c = chars[i];
        proof {
            text::lemma_byte_offset_step(s@, i as int);
            text::lemma_byte_offset_monotone(s@, i + 1, s@.len() as int);
        }
        let next_is_ampersand = i + 1 < chars.len() && chars[i + 1] == '&';
        if !q.escaped && !q.single && !q.double && c == '|' && !next_is_ampersand {
            positions.push(at);
        }
        if q.escaped {
            q.escaped = false;
        } else if c == '\\' && !q.single {
            q.escaped = true;
        } else if c == '\'' && !q.double {
            q.single = !q.single;
        } else if c == '"' && !q.single {
            q.double = !q.double;
        }
        at += char_width(c);
        i += 1;
    }
    positions
}

/// Whether a segment of a pipeline is a `PYTHON` command.
pub fn segment_is_python_command(segment: &str) -> (r: bool)
    ensures
        r == is_python_command(segment@),
{
    let chars = chars_of(segment);
    let mut i: usize = 0;
    assert(segment@.skip(0) =~= segment@);
    while i < chars.len() && is_whitespace(chars[i])
        invariant
            chars@ == segment@,
            i <= chars@.len(),
            leading_white(segment@) == i + leading_white(segment@.skip(i as int)),
        decreases chars@.len() - i,
    {
        assert(segment@.skip(i as int).drop_first() =~= segment@.skip(i + 1));
        i += 1;
    }
    let ghost s = segment@.skip(leading_white(segment@) as int);
    assert(leading_white(segment@) == i);
    if chars.len() - i < 6 {
        return false;
    }
    proof {
        reveal_strlit("PYTHON");
        assert("PYTHON"@ =~= seq!['P', 'Y', 'T', 'H', 'O', 'N']);
        assert(s.take(6) =~= seq![s[0], s[1], s[2], s[3], s[4], s[5]]);
    }
    if !(chars[i] == 'P' && chars[i + 1] == 'Y' && chars[i + 2] == 'T' && chars[i + 3] == 'H'
        && chars[i + 4] == 'O' && chars[i + 5] == 'N') {
        assert(s.take(6) != "PYTHON"@) by {
            if s.take(6) == "PYTHON"@ {
                assert(s.take(6)[0] == 'P' && s.take(6)[1] == 'Y' && s.take(6)[2] == 'T'
                    && s.take(6)[3] == 'H' && s.take(6)[4] == 'O' && s.take(6)[5] == 'N');
            }
        }
        return false;
    }
    if chars.len() - i == 6 {
        return true;
    }
    let c = chars[i + 6];
    is_whitespace(c) || c == '<' || c == '>'
}

/// The two parts of `s` around character `i`, which starts at byte `at`.
fn cut<'a>(s: &'a str, at: usize, Ghost(i): Ghost<int>) -> (r: (&'a str, &'a str))
    requires
        0 <= i <= s@.len(),
        at == text::byte_offset(s@, i),
    ensures
        r.0@ == s@.take(i),
        r.1@ == s@.skip(i),
{
    proof {
        text::lemma_byte_offset_cut(s@, i);
    }
    let r = s.split_at(at);
    proof {
        text::lemma_encode_injective(r.0@, s@.take(i));
        text::lemma_encode_injective(r.1@, s@.skip(i));
    }
    r
}

/// The byte offset at which the redirection of a line that starts a block goes; none where the line
/// starts no block.
pub fn find_python_block_insert(line: &str) -> (r: Option<usize>)
    ensures
        match r {
            Some(at) => block_insert(line@) matches Some(i) && 0 <= i <= line@.len() && at
                == text::byte_offset(line@, i),
            None => block_insert(line@) is None,
        },
{
    let size = line.as_bytes().len();
    let chars = chars_of(line);
    let ghost s = without_newline(line@);
    let ends_with_newline = chars.len() > 0 && chars[chars.len() - 1] == '\n';
    let line_end: usize = if ends_with_newline {
        proof {
            text::lemma_byte_offset_step(line@, line@.len() - 1);
            text::lemma_byte_offset_monotone(line@, line@.len() - 1, line@.len() as int);
        }
        size - 1
    } else {
        size
    };
    proof {
        text::lemma_byte_offset_monotone(line@, s.len() as int, line@.len() as int);
        assert(s =~= line@.take(s.len() as int));
    }
    let body = cut(line, line_end, Ghost(s.len() as int)).0;
    let positions = unquoted_pipe_positions(body);
    proof {
        pipes_increase(s, s.len() as int);
    }
    let mut insert_at: Option<usize> = None;
    let mut start: usize = 0;
    let mut k: usize = 0;
    let mut more = true;
    assert(body@.take(0) =~= Seq::<char>::empty());
    assert(encode_utf8(body@.take(0)) =~= Seq::<u8>::empty());
    while more
        invariant
            s == body@,
            s == without_newline(line@),
            s.len() <= line@.len(),
            forall|i: int| 0 <= i <= s.len() ==> #[trigger] s.take(i) == line@.take(i),
            line_end == text::byte_offset(line@, s.len() as int),
            positions@.len() == pipes(s).len(),
            forall|j: int|
                0 <= j < positions@.len() ==> #[trigger] positions@[j] == text::byte_offset(
                    s,
                    pipes(s)[j],
                ),
            forall|j: int| 0 <= j < pipes(s).len() ==> 0 <= #[trigger] pipes(s)[j] < s.len(),
            forall|i: int, j: int|
                0 <= i < j < pipes(s).len() ==> #[trigger] pipes(s)[i] < #[trigger] pipes(s)[j],
            k <= positions@.len(),
            more ==> start == text::byte_offset(s, segment_start(s, k as int)),
            !more ==> k == positions@.len(),
            match insert_at {
                Some(at) => {
                    let ends = python_ends(s, segments_seen(k as int, more));
                    &&& ends.len() == 1
                    &&& 0 <= ends[0] <= s.len()
                    &&& at == text::byte_offset(line@, ends[0])
                },
                None => python_ends(s, segments_seen(k as int, more)).len() == 0,
            },
        decreases positions@.len() + 1 - segments_seen(k as int, more),
    {
        let ghost from = segment_start(s, k as int);
        let ghost to = segment_end(s, k as int);
        let end = if k < positions.len() {
            positions[k]
        } else {
            line_end
        };
        proof {
            assert(0 <= from <= to <= s.len()) by {
                if k > 0 {
                    assert(0 <= pipes(s)[k - 1] < s.len());
                    if k < pipes(s).len() {
                        assert(pipes(s)[k - 1] < pipes(s)[k as int]);
                    }
                }
            }
            assert(s.take(to) == line@.take(to));
            assert(end == text::byte_offset(s, to));
        }
        let upto = cut(body, end, Ghost(to)).0;
        proof {
            assert(upto@.take(from) =~= s.take(from));
            assert(upto@.skip(from) =~= segment(s, k as int));
        }
        let segment = cut(upto, start, Ghost(from)).1;
        if segment_is_python_command(segment) {
            if insert_at.is_some() {
                proof {
                    lemma_python_ends_grow(s, k + 1, pipes(s).len() as int + 1);
                }
                return None;
            }
            insert_at = Some(end);
        }
        if k < positions.len() {
            proof {
                text::lemma_byte_offset_step(s, to);
                text::lemma_byte_offset_monotone(s, to + 1, s.len() as int);
                text::lemma_byte_offset_monotone(line@, s.len() as int, line@.len() as int);
                assert(s.take(s.len() as int) == line@.take(s.len() as int));
                assert(encode_scalar('|' as u32).len() == 1);
                lemma_pipe_is_bar(s, k as int);
            }
            start = positions[k] + 1;
            k += 1;
        } else {
            more = false;
        }
    }
    insert_at
}

/// How many segments have been looked at where segment `k` is the next, if there are more.
spec fn segments_seen(k: int, more: bool) -> int {
    if more {
        k
    } else {
        k + 1
    }
}

/// The separators are bars.
proof fn lemma_pipe_is_bar(s: Seq<char>, k: int)
    requires
        0 <= k < pipes(s).len(),
    ensures
        s[pipes(s)[k]] == '|',
{
    lemma_pipes_before_are_bars(s, s.len() as int, k);
}

proof fn lemma_pipes_before_are_bars(s: Seq<char>, n: int, k: int)
    requires
        0 <= n <= s.len(),
        0 <= k < pipes_before(s, n).len(),
    ensures
        s[pipes_before(s, n)[k]] == '|',
    decreases n,
{
    if n > 0 && k < pipes_before(s, n - 1).len() {
        lemma_pipes_before_are_bars(s, n - 1, k);
    }
}

proof fn lemma_python_ends_grow(s: Seq<char>, m: int, n: int)
    requires
        0 <= m <= n,
    ensures
        python_ends(s, m).len() <= python_ends(s, n).len(),
    decreases n - m,
{
    if m < n {
        lemma_python_ends_grow(s, m, n - 1);
    }
}

/// The texts of strings.
pub open spec fn texts(ls: Seq<String>) -> Seq<Seq<char>> {
    ls.map_values(|l: String| l@)
}

/// The lines of `input`, each with its line feed.
pub(crate) fn split_lines(input: &str) -> (r: Vec<String>)
    ensures
        texts(r@) == lines(input@),
{
    let chars = chars_of(input);
    let mut r: Vec<String> = Vec::new();
    let mut start: usize = 0;
    proof {
        assert(input@.skip(0) =~= input@);
        assert(texts(r@) + lines(input@) =~= lines(input@));
    }
    while start < chars.len()
        invariant
            chars@ == input@,
            start <= chars@.len(),
            texts(r@) + lines(input@.skip(start as int)) == lines(input@),
        decreases chars@.len() - start,
    {
        let ghost rest = input@.skip(start as int);
        let mut end: usize = start;
        let mut more = true;
        assert(rest.skip(0) =~= rest);
        while more && end < chars.len()
            invariant
                chars@ == input@,
                start <= end <= chars@.len(),
                start < chars@.len(),
                rest == input@.skip(start as int),
                more ==> first_line_end(rest) == end - start + first_line_end(
                    rest.skip(end - start),
                ),
                !more ==> first_line_end(rest) == end - start,
            decreases chars@.len() - end,
        {
            let ghost tail = rest.skip(end - start);
            if chars[end] == '\n' {
                more = false;
            }
            assert(tail[0] == chars@[end as int]);
            assert(tail.drop_first() =~= rest.skip(end - start + 1));
            end += 1;
        }
        let line = text_of(&chars, start, end);
        proof {
            first_line_bounds(rest);
            assert(end - start == first_line_end(rest));
            assert(line@ =~= rest.take(end - start));
            assert(rest.skip(end - start) =~= input@.skip(end as int));
            let before = texts(r@);
            assert(before + lines(rest) =~= before.push(line@) + lines(input@.skip(end as int)));
        }
        let ghost before = r@;
        r.push(line);
        assert(texts(r@) =~= texts(before).push(line@));
        start = end;
    }
    assert(texts(r@) + lines(input@.skip(start as int)) =~= texts(r@));
    r
}

/// Whether a line ends a block.
fn ends_block(line: &str) -> (r: bool)
    ensures
        r == is_terminator(line@),
{
    same_text(line, "END_PYTHON\n") || same_text(line, "END_PYTHON")
}

/// Rewrites the blocks of a script.
pub fn preprocess_python_blocks(input: &str) -> (r: Result<String, TokenizerError>)
    ensures
        match preprocessed(input@) {
            Ok(output) => r matches Ok(s) && s@ == output,
            Err(line) => r matches Err(TokenizerError::UnterminatedPythonBlock(at)) && at.line
                == line && at.index == 0 && at.column == 1,
        },
{
    let source = split_lines(input);
    let ghost ls = lines(input@);
    let ghost mut done: Seq<Seq<char>> = seq![];
    let mut output = String::new();
    let mut i: usize = 0;
    proof {
        if let Ok(all) = rewritten_from(ls, 0) {
            assert(done + all =~= all);
        }
    }
    while i < source.len()
        invariant
            ls == lines(input@),
            texts(source@) == ls,
            i <= source@.len(),
            output@ == joined(done),
            rewritten_from(ls, 0) == (match rewritten_from(ls, i as int) {
                Ok(rest) => Ok::<Seq<Seq<char>>, int>(done + rest),
                Err(line) => Err(line),
            }),
        decreases source@.len() - i,
    {
        let line = source[i].as_str();
        let ghost first = i as int;
        assert(line@ == ls[first]);
        let start_line: usize = i + 1;
        match find_python_block_insert(line) {
            None => {
                output.append(line);
                proof {
                    let one = seq![ls[first]];
                    if let Ok(rest) = rewritten_from(ls, first + 1) {
                        assert(done + (one + rest) =~= (done + one) + rest);
                    }
                    lemma_joined_concat(done, one);
                    lemma_joined_one(ls[first]);
                    done = done + one;
                }
                i += 1;
            },
            Some(insert_at) => {
                let ghost at = block_insert(ls[first])->Some_0;
                let (head, tail) = cut(line, insert_at, Ghost(at));
                output.append(head);
                output.append(" <<'END_PYTHON'");
                output.append(tail);
                let ghost mut part = seq![marked(ls[first], at)];
                proof {
                    lemma_joined_concat(done, part);
                    lemma_joined_one(marked(ls[first], at));
                    assert(output@ =~= joined(done) + marked(ls[first], at));
                }
                i += 1;
                let mut found = false;
                assert(ls.subrange(first + 1, i as int) =~= Seq::<Seq<char>>::empty());
                assert(part =~= seq![marked(ls[first], at)] + ls.subrange(first + 1, i as int));
                while !found && i < source.len()
                    invariant
                        ls == lines(input@),
                        texts(source@) == ls,
                        0 <= first < i <= source@.len(),
                        part == seq![marked(ls[first], at)] + ls.subrange(first + 1, i as int),
                        output@ == joined(done + part),
                        !found ==> terminator_from(ls, first + 1) == terminator_from(ls, i as int),
                        found ==> terminator_from(ls, first + 1) == Some(i - 1),
                    decreases source@.len() - i,
                {
                    let body_line = source[i].as_str();
                    assert(body_line@ == ls[i as int]);
                    output.append(body_line);
                    proof {
                        lemma_joined_concat(done + part, seq![ls[i as int]]);
                        lemma_joined_one(ls[i as int]);
                        assert(part + seq![ls[i as int]] =~= seq![marked(ls[first], at)]
                            + ls.subrange(first + 1, i + 1));
                        assert((done + part) + seq![ls[i as int]] =~= done + (part
                            + seq![ls[i as int]]));
                        part = part + seq![ls[i as int]];
                    }
                    if ends_block(body_line) {
                        found = true;
                    }
                    i += 1;
                }
                if !found {
                    return Err(
                        TokenizerError::UnterminatedPythonBlock(
                            SourcePosition { index: 0, line: start_line, column: 1 },
                        ),
                    );
                }
                proof {
                    if let Ok(rest) = rewritten_from(ls, i as int) {
                        assert(done + (part + rest) =~= (done + part) + rest);
                    }
                    done = done + part;
                }
            },
        }
    }
    assert(done + Seq::<Seq<char>>::empty() =~= done);
    Ok(output)
}

} // verus!
