//! Taking the common indentation off a text.

use vstd::prelude::*;

use crate::blocks;
use crate::blocks::split_lines;
use crate::text;
use crate::text::{chars_of, is_whitespace, text_of};

verus! {

/// A line without its ending: a line feed, and a carriage return before it.
pub open spec fn without_ending(line: Seq<char>) -> Seq<char> {
    if line.len() > 0 && line.last() == '\n' {
        let l = line.drop_last();
        if l.len() > 0 && l.last() == '\r' {
            l.drop_last()
        } else {
            l
        }
    } else {
        line
    }
}

/// The lines of a text, without their endings.
pub open spec fn bare_lines(s: Seq<char>) -> Seq<Seq<char>> {
    blocks::lines(s).map_values(|l: Seq<char>| without_ending(l))
}

/// Whether a character indents.
pub open spec fn is_indent(c: char) -> bool {
    c == ' ' || c == '\t'
}

/// How many spaces and tabs a line starts with.
pub open spec fn indent(line: Seq<char>) -> nat
    decreases line.len(),
{
    if line.len() > 0 && is_indent(line[0]) {
        1 + indent(line.drop_first())
    } else {
        0
    }
}

/// The least indentation among the lines that are not blank.
pub open spec fn least_indent(ls: Seq<Seq<char>>) -> Option<nat>
    decreases ls.len(),
{
    if ls.len() == 0 {
        None
    } else {
        let before = least_indent(ls.drop_last());
        let l = ls.last();
        if text::is_blank(l) {
            before
        } else {
            match before {
                Some(n) if n <= indent(l) => Some(n),
                _ => Some(indent(l)),
            }
        }
    }
}

/// The indentation that the lines which are not blank have in common.
pub open spec fn common_indent(ls: Seq<Seq<char>>) -> nat {
    match least_indent(ls) {
        Some(n) => n,
        None => 0,
    }
}

/// A line without the first `n` of the spaces and tabs that it starts with.
pub open spec fn outdented(line: Seq<char>, n: nat) -> Seq<char> {
    line.skip(if indent(line) < n { indent(line) as int } else { n as int })
}

/// The first `k` lines, without the common indentation, each with a line feed where the text has a
/// line behind it or ends in a line feed.
pub open spec fn dedented_lines(s: Seq<char>, k: int) -> Seq<Seq<char>> {
    let ls = bare_lines(s);
    let n = common_indent(ls);
    Seq::new(
        k as nat,
        |i: int|
            if i + 1 < ls.len() || s.last() == '\n' {
                outdented(ls[i], n).push('\n')
            } else {
                outdented(ls[i], n)
            },
    )
}

/// A text without the indentation that its lines have in common.
pub open spec fn dedented(s: Seq<char>) -> Seq<char> {
    blocks::joined(dedented_lines(s, bare_lines(s).len() as int))
}

/// The common indentation is had by every line that is not blank, and by one of them exactly.
pub proof fn common_indent_is_least(ls: Seq<Seq<char>>)
    ensures
        forall|i: int|
            0 <= i < ls.len() && !text::is_blank(#[trigger] ls[i]) ==> common_indent(ls) <= indent(
                ls[i],
            ),
        (exists|i: int| 0 <= i < ls.len() && !text::is_blank(#[trigger] ls[i])) ==> exists|i: int|
            0 <= i < ls.len() && !text::is_blank(#[trigger] ls[i]) && indent(ls[i])
                == common_indent(ls),
{
    lemma_least(ls);
}

proof fn lemma_least(ls: Seq<Seq<char>>)
    ensures
        match least_indent(ls) {
            Some(n) => {
                &&& forall|i: int|
                    0 <= i < ls.len() && !text::is_blank(#[trigger] ls[i]) ==> n <= indent(ls[i])
                &&& exists|i: int|
                    0 <= i < ls.len() && !text::is_blank(#[trigger] ls[i]) && indent(ls[i]) == n
            },
            None => forall|i: int| 0 <= i < ls.len() ==> text::is_blank(#[trigger] ls[i]),
        },
    decreases ls.len(),
{
    if ls.len() > 0 {
        let d = ls.drop_last();
        lemma_least(d);
        assert(forall|i: int| 0 <= i < d.len() ==> d[i] == #[trigger] ls[i]);
        let k = ls.len() - 1;
        if let Some(n) = least_indent(ls) {
            if !text::is_blank(ls[k]) && indent(ls[k]) == n {
                assert(!text::is_blank(ls[k]) && indent(ls[k]) == n);
            } else {
                let i = choose|i: int|
                    0 <= i < d.len() && !text::is_blank(#[trigger] d[i]) && indent(d[i]) == n;
                assert(!text::is_blank(ls[i]) && indent(ls[i]) == n);
            }
            assert forall|i: int| 0 <= i < ls.len() && !text::is_blank(#[trigger] ls[i]) implies n
                <= indent(ls[i]) by {
                if i < k {
                    assert(!text::is_blank(d[i]));
                }
            }
        } else {
            assert forall|i: int| 0 <= i < ls.len() implies text::is_blank(#[trigger] ls[i]) by {
                if i < k {
                    assert(text::is_blank(d[i]));
                }
            }
        }
    }
}

/// A line starts with as many spaces and tabs as its indentation says, and no more.
pub proof fn lemma_indent_bound(line: Seq<char>)
    ensures
        indent(line) <= line.len(),
        forall|i: int| 0 <= i < indent(line) ==> is_indent(#[trigger] line[i]),
        indent(line) < line.len() ==> !is_indent(line[indent(line) as int]),
    decreases line.len(),
{
    if line.len() > 0 && is_indent(line[0]) {
        let rest = line.drop_first();
        lemma_indent_bound(rest);
        assert forall|i: int| 0 <= i < indent(line) implies is_indent(#[trigger] line[i]) by {
            if i > 0 {
                assert(line[i] == rest[i - 1]);
            }
        }
    }
}

/// Taking indentation off a line leaves it with that much less, and with all that stands behind its
/// indentation.
pub proof fn outdenting_keeps_the_rest(line: Seq<char>, n: nat)
    requires
        n <= indent(line),
    ensures
        indent(outdented(line, n)) == indent(line) - n,
        outdented(line, n).skip(indent(line) - n) == line.skip(indent(line) as int),
    decreases n,
{
    lemma_indent_bound(line);
    if n == 0 {
        assert(line.skip(0) =~= line);
    } else {
        let rest = line.drop_first();
        outdenting_keeps_the_rest(rest, (n - 1) as nat);
        assert(outdented(line, n) =~= outdented(rest, (n - 1) as nat));
        assert(line.skip(indent(line) as int) =~= rest.skip(indent(rest) as int));
    }
}

/// Whether a line ends in a line feed with no carriage return before it, or in no line feed.
spec fn ends_simply(l: Seq<char>) -> bool {
    !(l.len() >= 2 && l.last() == '\n' && l[l.len() - 2] == '\r')
}

/// A text that has no indentation in common and no carriage return before a line feed stays as it
/// is.
pub proof fn unindented_text_is_unchanged(s: Seq<char>)
    requires
        common_indent(bare_lines(s)) == 0,
        forall|i: int| 0 <= i < s.len() - 1 ==> !(s[i] == '\r' && #[trigger] s[i + 1] == '\n'),
    ensures
        dedented(s) == s,
{
    let raw = blocks::lines(s);
    assert forall|i: int| 0 <= i < raw.len() implies ends_simply(#[trigger] raw[i]) by {
        let at = blocks::line_position(s, i);
        let l = raw[i];
        if l.len() >= 2 {
            assert(raw[i][l.len() - 1] == s[at + l.len() - 1]);
            assert(raw[i][l.len() - 2] == s[at + l.len() - 2]);
            assert(s[at + l.len() - 2 + 1] == l.last());
        }
    }
    lemma_unchanged(s);
}

proof fn lemma_unchanged(s: Seq<char>)
    requires
        common_indent(bare_lines(s)) == 0,
        forall|i: int|
            0 <= i < blocks::lines(s).len() ==> ends_simply(#[trigger] blocks::lines(s)[i]),
    ensures
        dedented(s) == s,
{
    let raw = blocks::lines(s);
    let ls = bare_lines(s);
    blocks::lines_make_up_text(s);
    blocks::lines_are_proper(s);
    let out = dedented_lines(s, ls.len() as int);
    assert forall|i: int| 0 <= i < raw.len() implies #[trigger] out[i] == raw[i] by {
        let l = raw[i];
        assert(l.len() > 0);
        assert(ends_simply(l));
        assert(ls[i] == without_ending(l));
        assert(outdented(ls[i], 0) =~= ls[i]);
        if i + 1 < raw.len() {
            assert(l.last() == '\n');
            assert(without_ending(l) =~= l.drop_last());
            assert(l.drop_last().push('\n') =~= l);
        } else {
            blocks::last_line_ends_text(s);
            if s.last() == '\n' {
                assert(without_ending(l) =~= l.drop_last());
                assert(l.drop_last().push('\n') =~= l);
            }
        }
    }
    assert(out =~= raw);
}

/// Taking the common indentation off a text once more changes nothing, where no line of the text
/// ends in two carriage returns and a line feed.
pub proof fn dedenting_again_changes_nothing(s: Seq<char>)
    requires
        forall|i: int|
            0 <= i < s.len() - 2 ==> !(s[i] == '\r' && s[i + 1] == '\r' && #[trigger] s[i + 2]
                == '\n'),
    ensures
        dedented(dedented(s)) == dedented(s),
{
    let ls = bare_lines(s);
    let n = common_indent(ls);
    let count = ls.len() as int;
    let out = dedented_lines(s, count);
    let t = dedented(s);
    let bare = Seq::new(ls.len(), |i: int| outdented(ls[i], n));
    assert forall|i: int| 0 <= i < count implies plain_line(#[trigger] bare[i]) && (out[i]
        == bare[i] || out[i] == bare[i].push('\n')) && (i < count - 1 ==> out[i] == bare[i].push(
        '\n',
    )) && (out[i] == bare[i].push('\n') && bare[i].len() > 0 ==> bare[i].last() != '\r') by {
        lemma_bare_line(s, i);
        lemma_indent_bound(ls[i]);
    }
    // The lines of the result are those of the text, but for an empty last one.
    let cut = if count > 0 && out[count - 1].len() == 0 {
        count - 1
    } else {
        count
    };
    let kept = out.take(cut);
    assert(blocks::joined(kept) == t) by {
        if cut < count {
            assert(out.drop_last() =~= kept);
            assert(blocks::joined(kept) + out.last() =~= blocks::joined(kept));
        } else {
            assert(kept =~= out);
        }
    }
    assert forall|k: int| 0 <= k < kept.len() implies (#[trigger] kept[k]).len() > 0 by {
        assert(kept[k] == out[k]);
        assert(plain_line(bare[k]));
    }
    assert forall|k: int, j: int| 0 <= k < kept.len() && 0 <= j < kept[k].len() - 1 implies
        #[trigger] kept[k][j] != '\n' by {
        assert(kept[k] == out[k]);
        assert(plain_line(bare[k]));
        assert(kept[k][j] == bare[k][j]);
    }
    assert forall|k: int| 0 <= k < kept.len() - 1 implies (#[trigger] kept[k]).last() == '\n' by {
        assert(kept[k] == out[k]);
        assert(plain_line(bare[k]));
    }
    blocks::lines_of_joined(kept);
    assert forall|k: int| 0 <= k < kept.len() implies ends_simply(#[trigger] kept[k])
        && without_ending(kept[k]) == bare[k] by {
        assert(kept[k] == out[k]);
        assert(plain_line(bare[k]));
        if out[k] == bare[k].push('\n') {
            assert(out[k].drop_last() =~= bare[k]);
        }
    }
    assert(bare_lines(t) =~= bare.take(cut));
    lemma_outdented_has_none(ls, bare, n);
    if cut < count {
        assert(plain_line(bare[count - 1]));
        assert(text::is_blank(bare[count - 1]));
        assert(bare.drop_last() =~= bare.take(cut));
    } else {
        assert(bare.take(cut) =~= bare);
    }
    assert(common_indent(bare_lines(t)) == 0);
    lemma_unchanged(t);
}

/// Lines that are all blank have no indentation in common.
pub proof fn lemma_all_blank(ls: Seq<Seq<char>>)
    requires
        forall|i: int| 0 <= i < ls.len() ==> text::is_blank(#[trigger] ls[i]),
    ensures
        common_indent(ls) == 0,
{
    lemma_least(ls);
}

/// A line without its ending holds no line feeds.
pub proof fn lemma_plain_bare_line(s: Seq<char>, i: int)
    requires
        0 <= i < bare_lines(s).len(),
    ensures
        plain_line(bare_lines(s)[i]),
{
    let raw = blocks::lines(s);
    blocks::lines_are_proper(s);
    let l = raw[i];
    let bare = without_ending(l);
    assert(bare_lines(s)[i] == bare);
    assert forall|j: int| 0 <= j < bare.len() implies #[trigger] bare[j] != '\n' by {
        assert(bare[j] == l[j]);
        if j < l.len() - 1 {
            assert(raw[i][j] != '\n');
        }
    }
}

/// Whether a line holds no line feeds.
pub open spec fn plain_line(l: Seq<char>) -> bool {
    forall|j: int| 0 <= j < l.len() ==> #[trigger] l[j] != '\n'
}

/// A line without its ending holds no line feeds, and no carriage return stands at its end where it
/// had an ending.
proof fn lemma_bare_line(s: Seq<char>, i: int)
    requires
        0 <= i < bare_lines(s).len(),
        forall|j: int|
            0 <= j < s.len() - 2 ==> !(s[j] == '\r' && s[j + 1] == '\r' && #[trigger] s[j + 2]
                == '\n'),
    ensures
        plain_line(bare_lines(s)[i]),
        (i + 1 < bare_lines(s).len() || s.last() == '\n') && bare_lines(s)[i].len() > 0
            ==> bare_lines(s)[i].last() != '\r',
{
    let raw = blocks::lines(s);
    blocks::lines_are_proper(s);
    let at = blocks::line_position(s, i);
    let l = raw[i];
    let bare = without_ending(l);
    assert(bare_lines(s)[i] == bare);
    assert forall|j: int| 0 <= j < bare.len() implies #[trigger] bare[j] != '\n' by {
        assert(bare[j] == l[j]);
        if j < l.len() - 1 {
            assert(raw[i][j] != '\n');
        }
    }
    if (i + 1 < raw.len() || s.last() == '\n') && bare.len() > 0 {
        assert(l.last() == '\n') by {
            if i + 1 == raw.len() {
                assert(s.len() > 0);
                blocks::last_line_ends_text(s);
            }
        }
        if bare.last() == '\r' {
            let m = l.len() as int;
            assert(bare.len() == m - 2);
            assert(raw[i][m - 1] == s[at + m - 1]);
            assert(raw[i][m - 2] == s[at + m - 2]);
            assert(raw[i][m - 3] == s[at + m - 3]);
            assert(s[at + m - 3 + 2] == '\n');
        }
    }
}

proof fn lemma_outdented_has_none(ls: Seq<Seq<char>>, bare: Seq<Seq<char>>, n: nat)
    requires
        n == common_indent(ls),
        bare == Seq::new(ls.len(), |i: int| outdented(ls[i], n)),
    ensures
        common_indent(bare) == 0,
{
    lemma_least(ls);
    lemma_least(bare);
    if let Some(m) = least_indent(ls) {
        let i = choose|i: int|
            0 <= i < ls.len() && !text::is_blank(#[trigger] ls[i]) && indent(ls[i]) == m;
        outdenting_keeps_the_rest(ls[i], n);
        lemma_indent_bound(ls[i]);
        let j = choose|j: int| 0 <= j < ls[i].len() && !text::is_white(#[trigger] ls[i][j]);
        assert(!is_indent(ls[i][j]));
        assert(bare[i][j - n] == ls[i][j]);
        assert(!text::is_blank(bare[i]));
        assert(indent(bare[i]) == 0);
    } else {
        assert forall|i: int| 0 <= i < bare.len() implies text::is_blank(#[trigger] bare[i]) by {
            assert(text::is_blank(ls[i]));
            lemma_indent_bound(ls[i]);
            let k = if indent(ls[i]) < n { indent(ls[i]) as int } else { n as int };
            assert forall|j: int| 0 <= j < bare[i].len() implies text::is_white(
                #[trigger] bare[i][j],
            ) by {
                assert(bare[i][j] == ls[i][j + k]);
            }
        }
        if let Some(m) = least_indent(bare) {
            let i = choose|i: int|
                0 <= i < bare.len() && !text::is_blank(#[trigger] bare[i]) && indent(bare[i]) == m;
            assert(text::is_blank(bare[i]));
        }
    }
}

/// The lines of a text, without their endings.
fn split_bare_lines(input: &str) -> (r: Vec<Vec<char>>)
    ensures
        char_lines(r@) == bare_lines(input@),
{
    let raw = split_lines(input);
    let mut r: Vec<Vec<char>> = Vec::new();
    let mut i: usize = 0;
    while i < raw.len()
        invariant
            blocks::texts(raw@) == blocks::lines(input@),
            i <= raw@.len(),
            char_lines(r@) == bare_lines(input@).take(i as int),
        decreases raw@.len() - i,
    {
        let mut line = chars_of(raw[i].as_str());
        let ghost l = line@;
        assert(l == blocks::lines(input@)[i as int]);
        if line.len() > 0 && line[line.len() - 1] == '\n' {
            let _ = line.pop();
            if line.len() > 0 && line[line.len() - 1] == '\r' {
                let _ = line.pop();
            }
        }
        let ghost bare = line@;
        assert(bare == without_ending(l));
        let ghost before = r@;
        r.push(line);
        proof {
            assert(char_lines(r@) =~= char_lines(before).push(bare));
            assert(bare_lines(input@)[i as int] == bare);
            assert(bare_lines(input@).take(i + 1) =~= bare_lines(input@).take(i as int).push(bare));
        }
        i += 1;
    }
    assert(bare_lines(input@).take(i as int) =~= bare_lines(input@));
    r
}

/// Lines held as characters.
spec fn char_lines(ls: Seq<Vec<char>>) -> Seq<Seq<char>> {
    ls.map_values(|l: Vec<char>| l@)
}

/// How many spaces and tabs a line starts with.
fn indent_of(line: &Vec<char>) -> (r: usize)
    ensures
        r == indent(line@),
        r <= line@.len(),
{
    let mut n: usize = 0;
    assert(line@.skip(0) =~= line@);
    while n < line.len() && (line[n] == ' ' || line[n] == '\t')
        invariant
            n <= line@.len(),
            indent(line@) == n + indent(line@.skip(n as int)),
        decreases line@.len() - n,
    {
        assert(line@.skip(n as int).drop_first() =~= line@.skip(n + 1));
        n += 1;
    }
    n
}

/// Whether a line holds nothing but white space.
fn is_blank_line(line: &Vec<char>) -> (r: bool)
    ensures
        r == text::is_blank(line@),
{
    let mut i: usize = 0;
    while i < line.len()
        invariant
            i <= line@.len(),
            forall|j: int| 0 <= j < i ==> text::is_white(#[trigger] line@[j]),
        decreases line@.len() - i,
    {
        if !is_whitespace(line[i]) {
            return false;
        }
        i += 1;
    }
    true
}

/// The indentation that the lines which are not blank have in common.
fn common_indent_of(lines: &Vec<Vec<char>>) -> (r: usize)
    ensures
        r == common_indent(char_lines(lines@)),
{
    let ghost ls = char_lines(lines@);
    let mut least: Option<usize> = None;
    let mut i: usize = 0;
    while i < lines.len()
        invariant
            ls == char_lines(lines@),
            i <= lines@.len(),
            match least {
                Some(n) => least_indent(ls.take(i as int)) == Some(n as nat),
                None => least_indent(ls.take(i as int)) is None,
            },
        decreases lines@.len() - i,
    {
        proof {
            assert(ls.take(i + 1).drop_last() =~= ls.take(i as int));
            assert(ls.take(i + 1).last() == lines@[i as int]@);
        }
        if !is_blank_line(&lines[i]) {
            let n = indent_of(&lines[i]);
            least = match least {
                Some(m) => if m <= n {
                    Some(m)
                } else {
                    Some(n)
                },
                None => Some(n),
            };
        }
        i += 1;
    }
    assert(ls.take(i as int) =~= ls);
    match least {
        Some(n) => n,
        None => 0,
    }
}

/// Takes the common indentation off a text.
pub fn dedent_text(input: &str) -> (r: String)
    ensures
        r@ == dedented(input@),
{
    let lines = split_bare_lines(input);
    let ghost ls = bare_lines(input@);
    let chars = chars_of(input);
    let ends_with_newline = chars.len() > 0 && chars[chars.len() - 1] == '\n';
    let min_indent = common_indent_of(&lines);
    let mut out = String::new();
    let mut i: usize = 0;
    assert(dedented_lines(input@, 0) =~= Seq::<Seq<char>>::empty());
    while i < lines.len()
        invariant
            ls == bare_lines(input@),
            char_lines(lines@) == ls,
            ends_with_newline == (input@.len() > 0 && input@.last() == '\n'),
            input@.len() == 0 ==> ls.len() == 0,
            min_indent == common_indent(ls),
            i <= lines@.len(),
            out@ == blocks::joined(dedented_lines(input@, i as int)),
        decreases lines@.len() - i,
    {
        let line = &lines[i];
        assert(line@ == ls[i as int]);
        let own = indent_of(line);
        let strip = if own < min_indent {
            own
        } else {
            min_indent
        };
        let rest = text_of(line, strip, line.len());
        assert(rest@ =~= outdented(ls[i as int], min_indent as nat));
        out.append(rest.as_str());
        if i + 1 < lines.len() || ends_with_newline {
            out.push('\n');
        }
        proof {
            let after = dedented_lines(input@, i + 1);
            assert(after.drop_last() =~= dedented_lines(input@, i as int));
            assert(out@ =~= blocks::joined(after));
        }
        i += 1;
    }
    out
}

} // verus!
