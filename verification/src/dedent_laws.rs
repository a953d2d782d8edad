//! What taking the common indentation off a text does to its lines.

use vstd::prelude::*;

use crate::blocks;
use crate::dedent;
use crate::text;

verus! {

/// A line in parts: spaces and tabs, what stands behind them, and whether it ends in a carriage
/// return and a line feed.
#[verifier::ext_equal]
pub struct IndentedLine {
    /// The spaces and tabs that are taken off.
    pub indent: Seq<char>,
    /// The rest of the line, without its ending.
    pub rest: Seq<char>,
    /// Whether a carriage return stands before the line feed.
    pub carriage_return: bool,
}

/// The lines that the parts make up. The last has an ending where `closed`.
pub open spec fn indented_lines(ls: Seq<IndentedLine>, closed: bool) -> Seq<Seq<char>> {
    Seq::new(
        ls.len(),
        |i: int|
            ls[i].indent + ls[i].rest + (if i + 1 == ls.len() && !closed {
                Seq::<char>::empty()
            } else if ls[i].carriage_return {
                seq!['\r', '\n']
            } else {
                seq!['\n']
            }),
    )
}

/// The same lines without the parts that are taken off, each with a line feed for its ending.
pub open spec fn unindented_lines(ls: Seq<IndentedLine>, closed: bool) -> Seq<Seq<char>> {
    Seq::new(
        ls.len(),
        |i: int|
            ls[i].rest + (if i + 1 == ls.len() && !closed {
                Seq::<char>::empty()
            } else {
                seq!['\n']
            }),
    )
}

/// Whether the parts are those of lines: no line feed in the rest, no line without a character, and
/// no carriage return that an ending could take for its own.
pub open spec fn are_lines(ls: Seq<IndentedLine>, closed: bool) -> bool {
    &&& forall|i: int, j: int|
        0 <= i < ls.len() && 0 <= j < ls[i].indent.len() ==> (#[trigger] ls[i].indent[j] == ' '
            || ls[i].indent[j] == '\t')
    &&& forall|i: int, j: int|
        0 <= i < ls.len() && 0 <= j < ls[i].rest.len() ==> #[trigger] ls[i].rest[j] != '\n'
    &&& forall|i: int| #![trigger ls[i]]
        0 <= i < ls.len() && !ls[i].carriage_return && ls[i].rest.len() > 0 && (i + 1 < ls.len()
            || closed) ==> ls[i].rest.last() != '\r'
    &&& ls.len() > 0 && !closed ==> ls.last().indent.len() + ls.last().rest.len() > 0
}

/// Whether the lines that are not blank have `width` spaces and tabs in common and no more, and
/// blank lines have as many of them as they hold.
pub open spec fn have_in_common(ls: Seq<IndentedLine>, width: nat) -> bool {
    &&& forall|i: int| #![trigger ls[i]]
        0 <= i < ls.len() ==> ls[i].indent.len() == width || {
            &&& ls[i].indent.len() < width
            &&& ls[i].rest.len() > 0 ==> ls[i].rest[0] != ' ' && ls[i].rest[0] != '\t'
            &&& forall|j: int| 0 <= j < ls[i].rest.len() ==> text::is_white(#[trigger] ls[i].rest[j])
        }
    &&& {
        ||| exists|i: int| #![trigger ls[i]]
            0 <= i < ls.len() && ls[i].indent.len() == width && ls[i].rest.len() > 0
                && ls[i].rest[0] != ' ' && ls[i].rest[0] != '\t' && exists|j: int|
                0 <= j < ls[i].rest.len() && !text::is_white(#[trigger] ls[i].rest[j])
        ||| width == 0 && forall|i: int, j: int|
            0 <= i < ls.len() && 0 <= j < ls[i].rest.len() ==> text::is_white(
                #[trigger] ls[i].rest[j],
            )
    }
}

/// Every line loses the spaces and tabs that the lines which are not blank have in common, and keeps
/// all that stands behind them; a blank line that has fewer loses those that it has. Each ending
/// becomes a line feed.
pub proof fn common_indentation_is_taken_off(ls: Seq<IndentedLine>, closed: bool, width: nat)
    requires
        are_lines(ls, closed),
        have_in_common(ls, width),
    ensures
        dedent::dedented(blocks::joined(indented_lines(ls, closed))) == blocks::joined(
            unindented_lines(ls, closed),
        ),
{
    let raw = indented_lines(ls, closed);
    let s = blocks::joined(raw);
    lemma_raw_lines(ls, closed);
    let bare = dedent::bare_lines(s);
    assert(bare.len() == ls.len());
    assert forall|i: int| 0 <= i < ls.len() implies #[trigger] bare[i] == ls[i].indent
        + ls[i].rest by {
        lemma_bare(ls, closed, i);
    }
    lemma_common(ls, bare, width);
    let out = dedent::dedented_lines(s, bare.len() as int);
    if ls.len() > 0 {
        lemma_last(ls, closed);
    }
    assert forall|i: int| 0 <= i < ls.len() implies #[trigger] out[i] == unindented_lines(
        ls,
        closed,
    )[i] by {
        assert(bare[i] == ls[i].indent + ls[i].rest);
        lemma_indent_concat(ls[i].indent, ls[i].rest);
        assert(dedent::outdented(bare[i], width) =~= ls[i].rest);
        assert(ls[i].rest + Seq::<char>::empty() =~= ls[i].rest);
        assert(ls[i].rest.push('\n') =~= ls[i].rest + seq!['\n']);
    }
    assert(out =~= unindented_lines(ls, closed));
}

proof fn lemma_raw_lines(ls: Seq<IndentedLine>, closed: bool)
    requires
        are_lines(ls, closed),
    ensures
        blocks::lines(blocks::joined(indented_lines(ls, closed))) == indented_lines(ls, closed),
{
    let raw = indented_lines(ls, closed);
    assert forall|k: int, j: int| 0 <= k < raw.len() && 0 <= j < raw[k].len() - 1 implies
        #[trigger] raw[k][j] != '\n' by {
        let n = ls[k].indent.len() as int;
        let m = ls[k].rest.len() as int;
        if j < n {
            assert(raw[k][j] == ls[k].indent[j]);
        } else if j < n + m {
            assert(raw[k][j] == ls[k].rest[j - n]);
        }
    }
    assert forall|k: int| 0 <= k < raw.len() implies (#[trigger] raw[k]).len() > 0 by {}
    assert forall|k: int| 0 <= k < raw.len() - 1 implies (#[trigger] raw[k]).last() == '\n' by {}
    blocks::lines_of_joined(raw);
}

proof fn lemma_last(ls: Seq<IndentedLine>, closed: bool)
    requires
        are_lines(ls, closed),
        ls.len() > 0,
    ensures
        blocks::joined(indented_lines(ls, closed)).len() > 0,
        blocks::joined(indented_lines(ls, closed)).last() == '\n' <==> closed,
{
    let raw = indented_lines(ls, closed);
    let l = raw.last();
    let k = ls.len() - 1;
    assert(blocks::joined(raw) == blocks::joined(raw.drop_last()) + l);
    assert(l.len() > 0);
    assert(blocks::joined(raw).last() == l.last());
    if !closed {
        let m = ls[k].rest.len() as int;
        if m > 0 {
            assert(l.last() == ls[k].rest[m - 1]);
        } else {
            assert(l.last() == ls[k].indent[ls[k].indent.len() - 1]);
        }
    }
}

proof fn lemma_bare(ls: Seq<IndentedLine>, closed: bool, i: int)
    requires
        are_lines(ls, closed),
        0 <= i < ls.len(),
    ensures
        dedent::without_ending(indented_lines(ls, closed)[i]) == ls[i].indent + ls[i].rest,
{
    let l = indented_lines(ls, closed)[i];
    let n = ls[i].indent.len() as int;
    let m = ls[i].rest.len() as int;
    let body = ls[i].indent + ls[i].rest;
    if i + 1 == ls.len() && !closed {
        assert(l =~= body);
        if m > 0 {
            assert(l.last() == ls[i].rest[m - 1]);
        } else if n > 0 {
            assert(l.last() == ls[i].indent[n - 1]);
        }
    } else if ls[i].carriage_return {
        assert(l.drop_last().drop_last() =~= body);
        assert(l.drop_last().last() == '\r');
    } else {
        assert(l.drop_last() =~= body);
        if m > 0 {
            assert(body.last() == ls[i].rest.last());
        } else if n > 0 {
            assert(body.last() == ls[i].indent[n - 1]);
        }
    }
}

proof fn lemma_indent_concat(a: Seq<char>, b: Seq<char>)
    requires
        forall|j: int| 0 <= j < a.len() ==> a[j] == ' ' || a[j] == '\t',
    ensures
        dedent::indent(a + b) == a.len() + dedent::indent(b),
    decreases a.len(),
{
    if a.len() == 0 {
        assert(a + b =~= b);
    } else {
        assert((a + b).drop_first() =~= a.drop_first() + b);
        lemma_indent_concat(a.drop_first(), b);
    }
}

proof fn lemma_blank(a: Seq<char>, b: Seq<char>)
    requires
        forall|j: int| 0 <= j < a.len() ==> a[j] == ' ' || a[j] == '\t',
    ensures
        text::is_blank(a + b) <==> forall|j: int|
            0 <= j < b.len() ==> text::is_white(#[trigger] b[j]),
{
    assert(forall|j: int| 0 <= j < b.len() ==> #[trigger] b[j] == (a + b)[j + a.len()]);
    assert forall|j: int| 0 <= j < a.len() implies text::is_white(#[trigger] (a + b)[j]) by {
        assert((a + b)[j] == a[j]);
    }
    if text::is_blank(a + b) {
        assert forall|j: int| 0 <= j < b.len() implies text::is_white(#[trigger] b[j]) by {
            assert(text::is_white((a + b)[j + a.len()]));
        }
    }
    if forall|j: int| 0 <= j < b.len() ==> text::is_white(#[trigger] b[j]) {
        assert forall|j: int| 0 <= j < (a + b).len() implies text::is_white(
            #[trigger] (a + b)[j],
        ) by {
            if j >= a.len() {
                assert((a + b)[j] == b[j - a.len()]);
            }
        }
    }
}

proof fn lemma_common(ls: Seq<IndentedLine>, bare: Seq<Seq<char>>, width: nat)
    requires
        forall|i: int, j: int|
            0 <= i < ls.len() && 0 <= j < ls[i].indent.len() ==> (#[trigger] ls[i].indent[j] == ' '
                || ls[i].indent[j] == '\t'),
        have_in_common(ls, width),
        bare.len() == ls.len(),
        forall|i: int| 0 <= i < ls.len() ==> #[trigger] bare[i] == ls[i].indent + ls[i].rest,
    ensures
        dedent::common_indent(bare) == width,
{
    dedent::common_indent_is_least(bare);
    let n = dedent::common_indent(bare);
    assert forall|i: int| 0 <= i < ls.len() implies dedent::indent(#[trigger] bare[i])
        == ls[i].indent.len() + dedent::indent(ls[i].rest) && (text::is_blank(bare[i]) <==> forall|
        j: int,
    |
        0 <= j < ls[i].rest.len() ==> text::is_white(#[trigger] ls[i].rest[j])) by {
        lemma_indent_concat(ls[i].indent, ls[i].rest);
        lemma_blank(ls[i].indent, ls[i].rest);
    }
    if exists|i: int| #![trigger ls[i]]
        0 <= i < ls.len() && ls[i].indent.len() == width && ls[i].rest.len() > 0 && ls[i].rest[0]
            != ' ' && ls[i].rest[0] != '\t' && exists|j: int|
            0 <= j < ls[i].rest.len() && !text::is_white(#[trigger] ls[i].rest[j]) {
        let i = choose|i: int| #![trigger ls[i]]
            0 <= i < ls.len() && ls[i].indent.len() == width && ls[i].rest.len() > 0
                && ls[i].rest[0] != ' ' && ls[i].rest[0] != '\t' && exists|j: int|
                0 <= j < ls[i].rest.len() && !text::is_white(#[trigger] ls[i].rest[j]);
        assert(!text::is_blank(bare[i]));
        assert(dedent::indent(bare[i]) == width);
        let k = choose|k: int|
            0 <= k < bare.len() && !text::is_blank(#[trigger] bare[k]) && dedent::indent(bare[k])
                == n;
        assert(bare[k] == ls[k].indent + ls[k].rest);
        assert(ls[k].indent.len() == width);
    } else {
        assert forall|i: int| 0 <= i < bare.len() implies text::is_blank(#[trigger] bare[i]) by {
            assert(bare[i] == ls[i].indent + ls[i].rest);
        }
        dedent::lemma_all_blank(bare);
    }
}

/// The lines of a text without its common indentation have no indentation in common: unless all of
/// them are blank, one that is not starts with neither a space nor a tab.
pub proof fn no_common_indentation_is_left(s: Seq<char>)
    ensures
        ({
            let ls = blocks::lines(dedent::dedented(s));
            ||| forall|i: int, j: int|
                0 <= i < ls.len() && 0 <= j < ls[i].len() ==> text::is_white(#[trigger] ls[i][j])
            ||| exists|i: int| #![trigger ls[i]]
                0 <= i < ls.len() && ls[i].len() > 0 && ls[i][0] != ' ' && ls[i][0] != '\t'
                    && exists|j: int|
                    0 <= j < ls[i].len() && !text::is_white(#[trigger] ls[i][j])
        }),
{
    let bare = dedent::bare_lines(s);
    let n = dedent::common_indent(bare);
    let count = bare.len() as int;
    let out = dedent::dedented_lines(s, count);
    let t = dedent::dedented(s);
    let off = Seq::new(bare.len(), |i: int| dedent::outdented(bare[i], n));
    assert forall|i: int| 0 <= i < count implies (#[trigger] out[i] == off[i] || out[i]
        == off[i].push('\n')) && (i < count - 1 ==> out[i] == off[i].push('\n'))
        && dedent::plain_line(off[i]) by {
        dedent::lemma_plain_bare_line(s, i);
        dedent::lemma_indent_bound(bare[i]);
    }
    let cut = if count > 0 && out[count - 1].len() == 0 {
        count - 1
    } else {
        count
    };
    let kept = out.take(cut);
    assert(blocks::joined(kept) == t) by {
        if cut < count {
            assert(out.drop_last() =~= kept);
            assert(blocks::joined(kept) + out.last() =~= blocks::joined(kept));
        } else {
            assert(kept =~= out);
        }
    }
    assert forall|k: int| 0 <= k < kept.len() implies (#[trigger] kept[k]).len() > 0 by {
        assert(kept[k] == out[k]);
    }
    assert forall|k: int, j: int| 0 <= k < kept.len() && 0 <= j < kept[k].len() - 1 implies
        #[trigger] kept[k][j] != '\n' by {
        assert(kept[k] == out[k]);
        assert(kept[k][j] == off[k][j]);
    }
    assert forall|k: int| 0 <= k < kept.len() - 1 implies (#[trigger] kept[k]).last() == '\n' by {
        assert(kept[k] == out[k]);
    }
    blocks::lines_of_joined(kept);
    if exists|i: int| 0 <= i < count && !text::is_blank(#[trigger] bare[i]) {
        dedent::common_indent_is_least(bare);
        let i = choose|i: int|
            0 <= i < bare.len() && !text::is_blank(#[trigger] bare[i]) && dedent::indent(bare[i])
                == n;
        dedent::lemma_indent_bound(bare[i]);
        let j = choose|j: int| 0 <= j < bare[i].len() && !text::is_white(#[trigger] bare[i][j]);
        assert(j >= n);
        assert(off[i][j - n] == bare[i][j]);
        assert(out[i] == off[i] || out[i] == off[i].push('\n'));
        assert(out[i][j - n] == bare[i][j]);
        assert(out[i].len() > 0);
        assert(i < cut);
        assert(kept[i] == out[i]);
        assert(kept[i][0] == bare[i][n as int]);
        assert(!text::is_white(kept[i][j - n]));
    } else {
        assert forall|i: int, j: int| 0 <= i < kept.len() && 0 <= j < kept[i].len() implies
            text::is_white(#[trigger] kept[i][j]) by {
            assert(kept[i] == out[i]);
            assert(text::is_blank(bare[i]));
            dedent::lemma_indent_bound(bare[i]);
            let d = bare[i].len() - off[i].len();
            if j < off[i].len() {
                assert(out[i][j] == off[i][j]);
                assert(off[i][j] == bare[i][j + d]);
            }
        }
    }
}

} // verus!
