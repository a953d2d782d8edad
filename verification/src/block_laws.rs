//! What holds of quoting, pipelines and `PYTHON ... END_PYTHON` blocks, in terms of the texts alone.

use vstd::prelude::*;

use crate::blocks;
use crate::blocks::Quoting;
use crate::text;

verus! {

/// The state within double quotes.
spec fn in_double() -> Quoting {
    Quoting { single: false, double: true, escaped: false }
}

proof fn lemma_quoting_prefix(a: Seq<char>, b: Seq<char>, n: int)
    requires
        0 <= n <= a.len(),
    ensures
        blocks::quoting_before(a + b, n) == blocks::quoting_before(a, n),
    decreases n,
{
    if n > 0 {
        lemma_quoting_prefix(a, b, n - 1);
        assert((a + b)[n - 1] == a[n - 1]);
    }
}

/// Where no quotes are open behind `a`, what follows is quoted as if it stood alone.
pub proof fn quoting_starts_anew(a: Seq<char>, b: Seq<char>, i: int)
    requires
        blocks::quoting_before(a, a.len() as int) == (Quoting {
            single: false,
            double: false,
            escaped: false,
        }),
        0 <= i <= b.len(),
    ensures
        blocks::quoting_before(a + b, a.len() + i) == blocks::quoting_before(b, i),
    decreases i,
{
    if i == 0 {
        lemma_quoting_prefix(a, b, a.len() as int);
    } else {
        quoting_starts_anew(a, b, i - 1);
        assert((a + b)[a.len() + i - 1] == b[i - 1]);
    }
}

/// Characters other than quotes and backslashes open nothing.
pub proof fn plain_text_opens_nothing(t: Seq<char>, i: int)
    requires
        forall|j: int| 0 <= j < t.len() ==> t[j] != '\\' && t[j] != '\'' && t[j] != '"',
        0 <= i <= t.len(),
    ensures
        blocks::quoting_before(t, i) == (Quoting { single: false, double: false, escaped: false }),
    decreases i,
{
    if i > 0 {
        plain_text_opens_nothing(t, i - 1);
    }
}

/// Outside quotes a backslash takes its meaning from the character behind it, whichever it is.
pub proof fn backslash_escapes_any_character(c: char)
    ensures
        blocks::quoting_before(seq!['\\', c], 1) != (Quoting {
            single: false,
            double: false,
            escaped: false,
        }),
        blocks::quoting_before(seq!['\\', c], 2) == (Quoting {
            single: false,
            double: false,
            escaped: false,
        }),
{
    reveal_with_fuel(blocks::quoting_before, 3);
}

/// Between single quotes nothing has a meaning but the closing quote.
pub proof fn single_quotes_hold_until_the_next(t: Seq<char>, i: int)
    requires
        forall|j: int| 0 <= j < t.len() ==> t[j] != '\'',
        1 <= i <= t.len() + 1,
    ensures
        blocks::quoting_before(seq!['\''] + t + seq!['\''], i) == (Quoting {
            single: true,
            double: false,
            escaped: false,
        }),
        blocks::quoting_before(seq!['\''] + t + seq!['\''], t.len() as int + 2) == (Quoting {
            single: false,
            double: false,
            escaped: false,
        }),
{
    let s = seq!['\''] + t + seq!['\''];
    lemma_single(t, i);
    lemma_single(t, t.len() as int + 1);
    assert(s[t.len() as int + 1] == '\'');
}

proof fn lemma_single(t: Seq<char>, i: int)
    requires
        forall|j: int| 0 <= j < t.len() ==> t[j] != '\'',
        1 <= i <= t.len() + 1,
    ensures
        blocks::quoting_before(seq!['\''] + t + seq!['\''], i) == (Quoting {
            single: true,
            double: false,
            escaped: false,
        }),
    decreases i,
{
    let s = seq!['\''] + t + seq!['\''];
    reveal_with_fuel(blocks::quoting_before, 2);
    if i > 1 {
        lemma_single(t, i - 1);
        assert(s[i - 1] == t[i - 2]);
    } else {
        assert(s[0] == '\'');
    }
}

/// The text between double quotes that is made of `units`: each a character, with a backslash
/// before it or without.
pub open spec fn double_text(units: Seq<(bool, char)>) -> Seq<char>
    decreases units.len(),
{
    if units.len() == 0 {
        seq![]
    } else {
        let (escaped, c) = units.last();
        double_text(units.drop_last()) + if escaped {
            seq!['\\', c]
        } else {
            seq![c]
        }
    }
}

/// Between double quotes a backslash escapes the character behind it, so that the quotes stay open
/// up to the next double quote without a backslash.
pub proof fn double_quotes_hold_until_the_next(units: Seq<(bool, char)>, i: int)
    requires
        forall|j: int| #![trigger units[j]]
            0 <= j < units.len() && !units[j].0 ==> units[j].1 != '\\' && units[j].1 != '"',
        1 <= i <= double_text(units).len() + 1,
    ensures
        ({
            let s = seq!['"'] + double_text(units) + seq!['"'];
            &&& blocks::quoting_before(s, i).double
            &&& blocks::quoting_before(s, double_text(units).len() as int + 1) == (Quoting {
                single: false,
                double: true,
                escaped: false,
            })
            &&& blocks::quoting_before(s, s.len() as int) == (Quoting {
                single: false,
                double: false,
                escaped: false,
            })
        }),
{
    let t = double_text(units);
    let s = seq!['"'] + t + seq!['"'];
    lemma_double(units, i);
    lemma_double(units, t.len() as int + 1);
    lemma_quoting_prefix(seq!['"'] + t, seq!['"'], i);
    lemma_quoting_prefix(seq!['"'] + t, seq!['"'], t.len() as int + 1);
    assert(s[t.len() as int + 1] == '"');
}

proof fn lemma_double(units: Seq<(bool, char)>, i: int)
    requires
        forall|j: int| #![trigger units[j]]
            0 <= j < units.len() && !units[j].0 ==> units[j].1 != '\\' && units[j].1 != '"',
        1 <= i <= double_text(units).len() + 1,
    ensures
        blocks::quoting_before(seq!['"'] + double_text(units), i).double,
        i == double_text(units).len() + 1 ==> blocks::quoting_before(
            seq!['"'] + double_text(units),
            i,
        ) == in_double(),
    decreases units.len(),
{
    reveal_with_fuel(blocks::quoting_before, 3);
    let s = seq!['"'] + double_text(units);
    if units.len() == 0 {
        assert(s[0] == '"');
    } else {
        let before = units.drop_last();
        let t = double_text(before);
        let (escaped, c) = units.last();
        let last = if escaped {
            seq!['\\', c]
        } else {
            seq![c]
        };
        assert(forall|j: int| 0 <= j < before.len() ==> before[j] == #[trigger] units[j]);
        assert(units[units.len() - 1] == (escaped, c));
        assert(s =~= (seq!['"'] + t) + last);
        lemma_double(before, t.len() as int + 1);
        lemma_quoting_prefix(seq!['"'] + t, last, t.len() as int + 1);
        if i <= t.len() + 1 {
            lemma_double(before, i);
            lemma_quoting_prefix(seq!['"'] + t, last, i);
        } else {
            assert(s[t.len() as int + 1] == last[0]);
            if i == t.len() + 3 {
                assert(s[t.len() as int + 2] == last[1]);
            }
            if escaped {
                assert(blocks::quoting_before(s, t.len() as int + 2).double);
                assert(blocks::quoting_before(s, t.len() as int + 2).escaped);
            }
        }
    }
}

/// A double quote behind a backslash does not close double quotes, and the next one without does: a
/// bar behind that separates, unless `&` follows it.
pub proof fn escaped_quote_leaves_the_quotes_open(t: Seq<char>, u: Seq<char>, rest: Seq<char>)
    requires
        forall|j: int| 0 <= j < t.len() ==> t[j] != '\\' && t[j] != '"',
        forall|j: int| 0 <= j < u.len() ==> u[j] != '\\' && u[j] != '"',
        rest.len() == 0 || rest[0] != '&',
    ensures
        blocks::quoting_before(seq!['"'] + t + seq!['\\', '"'], t.len() as int + 3) == (Quoting {
            single: false,
            double: true,
            escaped: false,
        }),
        ({
            let closed = seq!['"'] + t + seq!['\\', '"'] + u + seq!['"'];
            blocks::pipes(closed + seq!['|'] + rest).contains(closed.len() as int)
        }),
{
    let before = Seq::new(t.len(), |j: int| (false, t[j]));
    let open = before.push((true, '"'));
    let all = open + Seq::new(u.len(), |j: int| (false, u[j]));
    lemma_plain_units(seq![], t);
    assert(Seq::<(bool, char)>::empty() + before =~= before);
    assert(double_text(seq![]) + t =~= t);
    assert(open.drop_last() =~= before);
    assert(double_text(open) =~= t + seq!['\\', '"']);
    double_quotes_hold_until_the_next(open, 1);
    let s = seq!['"'] + double_text(open);
    lemma_quoting_prefix(s, seq!['"'], s.len() as int);
    assert(s =~= seq!['"'] + t + seq!['\\', '"']);
    lemma_plain_units(open, u);
    let plain: Seq<char> = seq![];
    bar_behind_double_quotes_separates(all, plain, rest);
    let closed = seq!['"'] + t + seq!['\\', '"'] + u + seq!['"'];
    assert(seq!['"'] + double_text(all) + seq!['"'] + plain =~= closed);
}

proof fn lemma_plain_units(units: Seq<(bool, char)>, t: Seq<char>)
    ensures
        double_text(units + Seq::new(t.len(), |j: int| (false, t[j]))) == double_text(units) + t,
    decreases t.len(),
{
    let more = Seq::new(t.len(), |j: int| (false, t[j]));
    if t.len() == 0 {
        assert(units + more =~= units);
    } else {
        let d = t.drop_last();
        lemma_plain_units(units, d);
        let less = Seq::new(d.len(), |j: int| (false, d[j]));
        assert((units + more).drop_last() =~= units + less);
        assert(double_text(units) + d + seq![t.last()] =~= double_text(units) + t);
    }
}

/// The pipeline separators are the bars outside all quotes that no `&` follows: all of them, and no
/// others.
pub proof fn separators_are_unquoted_bars(s: Seq<char>, i: int)
    ensures
        blocks::pipes(s).contains(i) <==> {
            &&& 0 <= i < s.len()
            &&& s[i] == '|'
            &&& blocks::quoting_before(s, i) == (Quoting {
                single: false,
                double: false,
                escaped: false,
            })
            &&& i + 1 == s.len() || s[i + 1] != '&'
        },
{
    lemma_pipes_complete(s, s.len() as int, i);
}

proof fn lemma_pipes_complete(s: Seq<char>, n: int, i: int)
    requires
        0 <= n <= s.len(),
    ensures
        blocks::pipes_before(s, n).contains(i) <==> 0 <= i < n && blocks::is_pipe(s, i),
    decreases n,
{
    if n > 0 {
        lemma_pipes_complete(s, n - 1, i);
        let before = blocks::pipes_before(s, n - 1);
        let after = blocks::pipes_before(s, n);
        if blocks::is_pipe(s, n - 1) {
            assert(after =~= before.push(n - 1));
            assert(after[after.len() - 1] == n - 1);
            if before.contains(i) {
                let k = choose|k: int| 0 <= k < before.len() && before[k] == i;
                assert(after[k] == i);
            }
            if after.contains(i) && i != n - 1 {
                let k = choose|k: int| 0 <= k < after.len() && after[k] == i;
                assert(before[k] == i);
            }
        }
    }
}

/// A bar behind closed quotes separates, unless `&` follows it: behind a text between double quotes,
/// whatever that text escapes, and any plain text behind that.
pub proof fn bar_behind_double_quotes_separates(
    units: Seq<(bool, char)>,
    plain: Seq<char>,
    rest: Seq<char>,
)
    requires
        forall|j: int| #![trigger units[j]]
            0 <= j < units.len() && !units[j].0 ==> units[j].1 != '\\' && units[j].1 != '"',
        forall|j: int|
            0 <= j < plain.len() ==> plain[j] != '\\' && plain[j] != '\'' && plain[j] != '"',
        rest.len() == 0 || rest[0] != '&',
    ensures
        ({
            let before = seq!['"'] + double_text(units) + seq!['"'] + plain;
            blocks::pipes(before + seq!['|'] + rest).contains(before.len() as int)
        }),
{
    let q = seq!['"'] + double_text(units) + seq!['"'];
    let before = q + plain;
    let s = before + seq!['|'] + rest;
    double_quotes_hold_until_the_next(units, 1);
    plain_text_opens_nothing(plain, plain.len() as int);
    quoting_starts_anew(q, plain, plain.len() as int);
    lemma_quoting_prefix(before, seq!['|'] + rest, before.len() as int);
    assert(s =~= before + (seq!['|'] + rest));
    separators_are_unquoted_bars(s, before.len() as int);
}

/// A segment is a `PYTHON` command exactly where it is white space, the word, and then nothing,
/// white space or a redirection.
pub proof fn python_commands_start_with_the_word(white: Seq<char>, rest: Seq<char>)
    requires
        forall|i: int| 0 <= i < white.len() ==> text::is_white(#[trigger] white[i]),
    ensures
        blocks::is_python_command(white + seq!['P', 'Y', 'T', 'H', 'O', 'N'] + rest) <==> (
        rest.len() == 0 || text::is_white(rest[0]) || rest[0] == '<' || rest[0] == '>'),
{
    let word = seq!['P', 'Y', 'T', 'H', 'O', 'N'];
    let s = white + word + rest;
    assert(s =~= white + (word + rest));
    lemma_leading(white, word + rest);
    assert(s.skip(white.len() as int) =~= word + rest);
    reveal_strlit("PYTHON");
    assert((word + rest).take(6) =~= word);
    assert("PYTHON"@ =~= word);
    if rest.len() > 0 {
        assert((word + rest)[6] == rest[0]);
    }
}

/// A `PYTHON` command is white space, the word, and what follows.
pub proof fn python_commands_have_the_word(segment: Seq<char>) -> (r: (Seq<char>, Seq<char>))
    requires
        blocks::is_python_command(segment),
    ensures
        segment == r.0 + seq!['P', 'Y', 'T', 'H', 'O', 'N'] + r.1,
        forall|i: int| 0 <= i < r.0.len() ==> text::is_white(#[trigger] r.0[i]),
{
    let n = blocks::leading_white(segment) as int;
    lemma_leading_bound(segment);
    let s = segment.skip(n);
    reveal_strlit("PYTHON");
    let word = seq!['P', 'Y', 'T', 'H', 'O', 'N'];
    assert("PYTHON"@ =~= word);
    assert(s =~= s.take(6) + s.skip(6));
    assert(segment =~= segment.take(n) + word + s.skip(6));
    (segment.take(n), s.skip(6))
}

proof fn lemma_leading(white: Seq<char>, rest: Seq<char>)
    requires
        forall|i: int| 0 <= i < white.len() ==> text::is_white(#[trigger] white[i]),
        rest.len() > 0,
        !text::is_white(rest[0]),
    ensures
        blocks::leading_white(white + rest) == white.len(),
    decreases white.len(),
{
    if white.len() > 0 {
        assert((white + rest).drop_first() =~= white.drop_first() + rest);
        lemma_leading(white.drop_first(), rest);
    } else {
        assert(white + rest =~= rest);
    }
}

proof fn lemma_leading_bound(s: Seq<char>)
    ensures
        blocks::leading_white(s) <= s.len(),
        forall|i: int| 0 <= i < blocks::leading_white(s) ==> text::is_white(#[trigger] s[i]),
    decreases s.len(),
{
    if s.len() > 0 && text::is_white(s[0]) {
        let rest = s.drop_first();
        lemma_leading_bound(rest);
        assert forall|i: int| 0 <= i < blocks::leading_white(s) implies text::is_white(
            #[trigger] s[i],
        ) by {
            if i > 0 {
                assert(s[i] == rest[i - 1]);
            }
        }
    }
}

/// Whether `s[a..b]` is a segment of the pipeline `s`: it reaches from a separator or the start to a
/// separator or the end, and holds no separator.
pub open spec fn is_segment(s: Seq<char>, a: int, b: int) -> bool {
    &&& 0 <= a <= b <= s.len()
    &&& a == 0 || blocks::pipes(s).contains(a - 1)
    &&& b == s.len() || blocks::pipes(s).contains(b)
    &&& forall|i: int| a <= i < b ==> !#[trigger] blocks::pipes(s).contains(i)
}

proof fn lemma_segment_number(s: Seq<char>, a: int, b: int) -> (k: int)
    requires
        is_segment(s, a, b),
    ensures
        0 <= k <= blocks::pipes(s).len(),
        a == blocks::segment_start(s, k),
        b == blocks::segment_end(s, k),
{
    let p = blocks::pipes(s);
    blocks::pipes_increase(s, s.len() as int);
    let k = if a == 0 {
        0
    } else {
        let j = choose|j: int| 0 <= j < p.len() && p[j] == a - 1;
        j + 1
    };
    if k < p.len() {
        assert(p.contains(p[k]));
        if k > 0 {
            assert(p[k - 1] < p[k]);
        }
        assert(0 <= p[k] < s.len());
        assert(!(a <= p[k] < b));
        if b != p[k] {
            // `b` lies before `p[k]` and at or behind `a`, so it would be a separator in between.
            let m = choose|m: int| 0 <= m < p.len() && p[m] == b;
            if m < k - 1 {
                assert(p[m] < p[k - 1]);
            } else if m > k {
                assert(p[k] < p[m]);
            }
        }
    } else if b < s.len() {
        let m = choose|m: int| 0 <= m < p.len() && p[m] == b;
        if m < k - 1 {
            assert(p[m] < p[k - 1]);
        }
    }
    k
}

proof fn lemma_numbered_segment(s: Seq<char>, k: int)
    requires
        0 <= k <= blocks::pipes(s).len(),
    ensures
        is_segment(s, blocks::segment_start(s, k), blocks::segment_end(s, k)),
{
    let p = blocks::pipes(s);
    blocks::pipes_increase(s, s.len() as int);
    let a = blocks::segment_start(s, k);
    let b = blocks::segment_end(s, k);
    if k > 0 {
        assert(p[k - 1] == a - 1);
        assert(p.contains(a - 1));
    }
    if k < p.len() {
        assert(p[k] == b);
        assert(p.contains(b));
        if k > 0 {
            assert(p[k - 1] < p[k]);
        }
    }
    assert forall|i: int| a <= i < b implies !#[trigger] p.contains(i) by {
        if p.contains(i) {
            let m = choose|m: int| 0 <= m < p.len() && p[m] == i;
            if m < k {
                if m < k - 1 {
                    assert(p[m] < p[k - 1]);
                }
            } else if m > k {
                assert(p[k] < p[m]);
            }
        }
    }
}

proof fn lemma_ends(s: Seq<char>, n: int)
    requires
        0 <= n <= blocks::pipes(s).len() + 1,
    ensures
        forall|e: int| #[trigger]
            blocks::python_ends(s, n).contains(e) ==> exists|k: int|
                0 <= k < n && #[trigger] blocks::segment_end(s, k) == e
                    && blocks::is_python_command(blocks::segment(s, k)),
        forall|k: int|
            0 <= k < n && blocks::is_python_command(#[trigger] blocks::segment(s, k))
                ==> blocks::python_ends(s, n).contains(blocks::segment_end(s, k)),
        forall|j: int, k: int|
            0 <= j < k < n && blocks::is_python_command(#[trigger] blocks::segment(s, j))
                && blocks::is_python_command(#[trigger] blocks::segment(s, k))
                ==> blocks::python_ends(s, n).len() >= 2,
        (exists|k: int| 0 <= k < n && blocks::is_python_command(#[trigger] blocks::segment(s, k)))
            ==> blocks::python_ends(s, n).len() >= 1,
        blocks::python_ends(s, n).len() >= 2 ==> exists|j: int, k: int|
            0 <= j < k < n && blocks::is_python_command(#[trigger] blocks::segment(s, j))
                && blocks::is_python_command(#[trigger] blocks::segment(s, k)),
        blocks::python_ends(s, n).len() >= 1 ==> exists|k: int|
            0 <= k < n && blocks::is_python_command(#[trigger] blocks::segment(s, k)),
    decreases n,
{
    if n > 0 {
        lemma_ends(s, n - 1);
        let before = blocks::python_ends(s, n - 1);
        let after = blocks::python_ends(s, n);
        let last = blocks::segment(s, n - 1);
        if blocks::is_python_command(last) {
            let e = blocks::segment_end(s, n - 1);
            assert(after =~= before.push(e));
            assert(after[after.len() - 1] == e);
            assert forall|x: int| before.contains(x) implies #[trigger] after.contains(x) by {
                let k = choose|k: int| 0 <= k < before.len() && before[k] == x;
                assert(after[k] == x);
            }
            assert forall|x: int| #[trigger] after.contains(x) implies exists|k: int|
                0 <= k < n && #[trigger] blocks::segment_end(s, k) == x
                    && blocks::is_python_command(blocks::segment(s, k)) by {
                if x != e {
                    let k = choose|k: int| 0 <= k < after.len() && after[k] == x;
                    assert(before[k] == x);
                    assert(before.contains(x));
                }
            }
        }
    }
}

/// A line starts a block exactly where one and only one segment of its pipeline is a `PYTHON`
/// command, and the redirection goes to the end of that segment. A line feed at the end of the line
/// makes no difference.
pub proof fn one_python_segment_starts_a_block(s: Seq<char>, at: int)
    requires
        s.len() == 0 || s.last() != '\n',
    ensures
        blocks::block_insert(s) == Some(at) <==> {
            &&& exists|a: int| #[trigger]
                is_segment(s, a, at) && blocks::is_python_command(s.subrange(a, at))
            &&& forall|a: int, b: int| #[trigger]
                is_segment(s, a, b) && blocks::is_python_command(s.subrange(a, b)) ==> b == at
        },
        blocks::block_insert(s.push('\n')) == blocks::block_insert(s),
{
    assert(s.push('\n').drop_last() =~= s);
    let n = blocks::pipes(s).len() as int + 1;
    let ends = blocks::python_ends(s, n);
    lemma_ends(s, n);
    blocks::pipes_increase(s, s.len() as int);
    if blocks::block_insert(s) == Some(at) {
        assert(ends[0] == at);
        assert(ends.contains(at));
        let k = choose|k: int|
            0 <= k < n && #[trigger] blocks::segment_end(s, k) == at && blocks::is_python_command(
                blocks::segment(s, k),
            );
        lemma_numbered_segment(s, k);
        assert(is_segment(s, blocks::segment_start(s, k), at));
        assert forall|a: int, b: int| #[trigger]
            is_segment(s, a, b) && blocks::is_python_command(s.subrange(a, b)) implies b == at by {
            let m = lemma_segment_number(s, a, b);
            assert(blocks::is_python_command(blocks::segment(s, m)));
            assert(ends.contains(b));
        }
    }
    if (exists|a: int| #[trigger]
        is_segment(s, a, at) && blocks::is_python_command(s.subrange(a, at))) && (forall|
        a: int,
        b: int,
    | #[trigger]
        is_segment(s, a, b) && blocks::is_python_command(s.subrange(a, b)) ==> b == at) {
        let a = choose|a: int| #[trigger]
            is_segment(s, a, at) && blocks::is_python_command(s.subrange(a, at));
        let m = lemma_segment_number(s, a, at);
        assert(blocks::is_python_command(blocks::segment(s, m)));
        assert(ends.contains(at));
        if ends.len() >= 2 {
            let (j, k) = choose|j: int, k: int|
                0 <= j < k < n && blocks::is_python_command(#[trigger] blocks::segment(s, j))
                    && blocks::is_python_command(#[trigger] blocks::segment(s, k));
            lemma_numbered_segment(s, j);
            lemma_numbered_segment(s, k);
            assert(is_segment(s, blocks::segment_start(s, j), blocks::segment_end(s, j)));
            assert(is_segment(s, blocks::segment_start(s, k), blocks::segment_end(s, k)));
            assert(blocks::segment_end(s, j) < blocks::segment_end(s, k)) by {
                if k < blocks::pipes(s).len() {
                    assert(blocks::pipes(s)[j] < blocks::pipes(s)[k]);
                } else {
                    assert(0 <= blocks::pipes(s)[j] < s.len());
                }
            }
        }
        let i = choose|i: int| 0 <= i < ends.len() && ends[i] == at;
        assert(ends[0] == at);
    }
}

/// Whether `l` is one whole line: a line feed stands at its end and nowhere else.
pub open spec fn is_whole_line(l: Seq<char>) -> bool {
    &&& l.len() > 0
    &&& l.last() == '\n'
    &&& forall|j: int| 0 <= j < l.len() - 1 ==> l[j] != '\n'
}

proof fn lemma_lines_behind(l: Seq<char>, rest: Seq<char>)
    requires
        is_whole_line(l) || (rest.len() == 0 && l.len() > 0 && forall|j: int|
            0 <= j < l.len() - 1 ==> l[j] != '\n'),
    ensures
        blocks::lines(l + rest) == seq![l] + blocks::lines(rest),
{
    blocks::lemma_first_line(l, rest);
    assert((l + rest).take(l.len() as int) =~= l);
    assert((l + rest).skip(l.len() as int) =~= rest);
}

proof fn lemma_lines_behind_all(ls: Seq<Seq<char>>, rest: Seq<char>)
    requires
        forall|i: int| 0 <= i < ls.len() ==> is_whole_line(#[trigger] ls[i]),
    ensures
        blocks::lines(blocks::joined(ls) + rest) == ls + blocks::lines(rest),
    decreases ls.len(),
{
    if ls.len() == 0 {
        assert(blocks::joined(ls) + rest =~= rest);
        assert(ls + blocks::lines(rest) =~= blocks::lines(rest));
    } else {
        let before = ls.drop_last();
        let l = ls[ls.len() - 1];
        assert(forall|i: int| 0 <= i < before.len() ==> before[i] == #[trigger] ls[i]);
        assert(blocks::joined(ls) + rest =~= blocks::joined(before) + (l + rest));
        lemma_lines_behind_all(before, l + rest);
        lemma_lines_behind(l, rest);
        assert(before + (seq![l] + blocks::lines(rest)) =~= ls + blocks::lines(rest));
    }
}

proof fn lemma_rewritten_one(line: Seq<char>, rest: Seq<Seq<char>>)
    requires
        blocks::block_insert(line) is None,
    ensures
        blocks::rewritten_from(seq![line] + rest, 0) == (match blocks::rewritten_from(rest, 0) {
            Ok(out) => Ok::<Seq<Seq<char>>, int>(seq![line] + out),
            Err(at) => Err(at + 1),
        }),
{
    blocks::other_line_is_kept(line, rest);
}

/// A script without any text stays empty.
pub proof fn empty_script_stays_empty()
    ensures
        blocks::preprocessed(seq![]) == Ok::<Seq<char>, int>(seq![]),
{
    assert(blocks::lines(seq![]) =~= seq![]);
}

/// A line that starts no block is kept as it stands, and the script behind it is rewritten on its
/// own.
pub proof fn other_line_of_a_script_is_kept(l: Seq<char>, rest: Seq<char>)
    requires
        is_whole_line(l),
        blocks::block_insert(l) is None,
    ensures
        blocks::preprocessed(l + rest) == (match blocks::preprocessed(rest) {
            Ok(out) => Ok::<Seq<char>, int>(l + out),
            Err(line) => Err(line + 1),
        }),
{
    lemma_lines_behind(l, rest);
    lemma_rewritten_one(l, blocks::lines(rest));
    if let Ok(out) = blocks::rewritten_from(blocks::lines(rest), 0) {
        blocks::lemma_joined_concat(seq![l], out);
        blocks::lemma_joined_one(l);
    }
}

/// Whether a line ends a block: it is `END_PYTHON` and nothing else, with a line feed or without.
pub proof fn block_ends_at_the_bare_word(l: Seq<char>)
    ensures
        blocks::is_terminator(l) <==> (l == seq!['E', 'N', 'D', '_', 'P', 'Y', 'T', 'H', 'O', 'N']
            || l == seq!['E', 'N', 'D', '_', 'P', 'Y', 'T', 'H', 'O', 'N', '\n']),
{
    reveal_strlit("END_PYTHON");
    reveal_strlit("END_PYTHON\n");
    assert("END_PYTHON"@ =~= seq!['E', 'N', 'D', '_', 'P', 'Y', 'T', 'H', 'O', 'N']);
    assert("END_PYTHON\n"@ =~= seq!['E', 'N', 'D', '_', 'P', 'Y', 'T', 'H', 'O', 'N', '\n']);
}

/// A block becomes a command that reads the lines of the block as a quoted here-document: the
/// redirection is put into the first line, all else stays as it stands, and the script behind the
/// block is rewritten on its own.
pub proof fn block_becomes_a_here_document(
    start: Seq<char>,
    body: Seq<Seq<char>>,
    rest: Seq<char>,
    at: int,
)
    requires
        is_whole_line(start),
        blocks::block_insert(start) == Some(at),
        forall|i: int|
            0 <= i < body.len() ==> is_whole_line(#[trigger] body[i]) && body[i] != seq![
                'E',
                'N',
                'D',
                '_',
                'P',
                'Y',
                'T',
                'H',
                'O',
                'N',
                '\n',
            ],
    ensures
        ({
            let end = seq!['E', 'N', 'D', '_', 'P', 'Y', 'T', 'H', 'O', 'N', '\n'];
            let mark = seq![
                ' ',
                '<',
                '<',
                '\'',
                'E',
                'N',
                'D',
                '_',
                'P',
                'Y',
                'T',
                'H',
                'O',
                'N',
                '\'',
            ];
            blocks::preprocessed(start + blocks::joined(body) + end + rest) == (
            match blocks::preprocessed(rest) {
                Ok(out) => Ok::<Seq<char>, int>(
                    start.take(at) + mark + start.skip(at) + blocks::joined(body) + end + out,
                ),
                Err(line) => Err(line + body.len() + 2),
            })
        }),
{
    let end = seq!['E', 'N', 'D', '_', 'P', 'Y', 'T', 'H', 'O', 'N', '\n'];
    let mark = seq![
        ' ',
        '<',
        '<',
        '\'',
        'E',
        'N',
        'D',
        '_',
        'P',
        'Y',
        'T',
        'H',
        'O',
        'N',
        '\'',
    ];
    reveal_strlit(" <<'END_PYTHON'");
    assert(" <<'END_PYTHON'"@ =~= mark);
    let all = seq![start] + body + seq![end];
    assert forall|i: int| 0 <= i < all.len() implies is_whole_line(#[trigger] all[i]) by {
        if 0 < i <= body.len() {
            assert(all[i] == body[i - 1]);
        }
    }
    lemma_lines_behind_all(all, rest);
    lemma_joined_three(start, body, end);
    let s = start + blocks::joined(body) + end + rest;
    assert(blocks::lines(s) == all + blocks::lines(rest));
    block_ends_at_the_bare_word(end);
    assert forall|i: int| 0 <= i < body.len() implies !blocks::is_terminator(
        #[trigger] body[i],
    ) by {
        block_ends_at_the_bare_word(body[i]);
        let l = body[i];
        assert(is_whole_line(l));
        if l == seq!['E', 'N', 'D', '_', 'P', 'Y', 'T', 'H', 'O', 'N'] {
            assert(l.last() == 'N');
        }
    }
    blocks::block_is_rewritten(start, body, end, blocks::lines(rest));
    if let Ok(out) = blocks::rewritten_from(blocks::lines(rest), 0) {
        let head = blocks::marked(start, at);
        lemma_joined_three(head, body, end);
        blocks::lemma_joined_concat(seq![head] + body + seq![end], out);
        assert(head =~= start.take(at) + mark + start.skip(at));
    }
}

proof fn lemma_joined_three(a: Seq<char>, body: Seq<Seq<char>>, b: Seq<char>)
    ensures
        blocks::joined(seq![a] + body + seq![b]) == a + blocks::joined(body) + b,
{
    blocks::lemma_joined_one(a);
    blocks::lemma_joined_one(b);
    blocks::lemma_joined_concat(seq![a], body);
    blocks::lemma_joined_concat(seq![a] + body, seq![b]);
}

/// A block whose last line ends the script, with no line feed behind it.
pub proof fn last_block_becomes_a_here_document(
    start: Seq<char>,
    body: Seq<Seq<char>>,
    at: int,
)
    requires
        is_whole_line(start),
        blocks::block_insert(start) == Some(at),
        forall|i: int|
            0 <= i < body.len() ==> is_whole_line(#[trigger] body[i]) && !blocks::is_terminator(
                body[i],
            ),
    ensures
        ({
            let end = seq!['E', 'N', 'D', '_', 'P', 'Y', 'T', 'H', 'O', 'N'];
            blocks::preprocessed(start + blocks::joined(body) + end) == Ok::<Seq<char>, int>(
                start.take(at) + " <<'END_PYTHON'"@ + start.skip(at) + blocks::joined(body) + end,
            )
        }),
{
    let end = seq!['E', 'N', 'D', '_', 'P', 'Y', 'T', 'H', 'O', 'N'];
    let first = seq![start] + body;
    assert forall|i: int| 0 <= i < first.len() implies is_whole_line(#[trigger] first[i]) by {
        if i > 0 {
            assert(first[i] == body[i - 1]);
        }
    }
    lemma_lines_behind_all(first, end);
    lemma_lines_behind(end, seq![]);
    assert(end + Seq::<char>::empty() =~= end);
    assert(blocks::lines(end) =~= seq![end]);
    blocks::lemma_joined_concat(seq![start], body);
    blocks::lemma_joined_one(start);
    block_ends_at_the_bare_word(end);
    blocks::block_is_rewritten(start, body, end, seq![]);
    let head = blocks::marked(start, at);
    lemma_joined_three(head, body, end);
    assert(first + seq![end] =~= seq![start] + body + seq![end] + Seq::<Seq<char>>::empty());
    assert(seq![head] + body + seq![end] + Seq::<Seq<char>>::empty() =~= seq![head] + body
        + seq![end]);
}

/// A block without an end is refused with the number of its first line.
pub proof fn block_without_an_end_is_refused(start: Seq<char>, rest: Seq<char>)
    requires
        is_whole_line(start),
        blocks::block_insert(start) is Some,
        forall|i: int|
            0 <= i < blocks::lines(rest).len() ==> #[trigger] blocks::lines(rest)[i] != seq![
                'E',
                'N',
                'D',
                '_',
                'P',
                'Y',
                'T',
                'H',
                'O',
                'N',
            ] && blocks::lines(rest)[i] != seq![
                'E',
                'N',
                'D',
                '_',
                'P',
                'Y',
                'T',
                'H',
                'O',
                'N',
                '\n',
            ],
    ensures
        blocks::preprocessed(start + rest) == Err::<Seq<char>, int>(1),
{
    lemma_lines_behind(start, rest);
    let ls = seq![start] + blocks::lines(rest);
    blocks::terminator_is_first(ls, 1);
    if let Some(e) = blocks::terminator_from(ls, 1) {
        assert(ls[e] == blocks::lines(rest)[e - 1]);
        block_ends_at_the_bare_word(ls[e]);
    }
}

/// A last line without a line feed is kept as it stands where it starts no block, and refused where
/// it starts one.
pub proof fn last_line_of_a_script(l: Seq<char>)
    requires
        l.len() > 0,
        forall|j: int| 0 <= j < l.len() ==> l[j] != '\n',
    ensures
        blocks::block_insert(l) is None ==> blocks::preprocessed(l) == Ok::<Seq<char>, int>(l),
        blocks::block_insert(l) is Some ==> blocks::preprocessed(l) == Err::<Seq<char>, int>(1),
{
    let none: Seq<char> = seq![];
    assert(l + none =~= l);
    lemma_lines_behind(l, none);
    let no_lines: Seq<Seq<char>> = seq![];
    assert(blocks::lines(none) =~= no_lines);
    let ls = blocks::lines(l);
    assert(ls =~= seq![l]);
    if blocks::block_insert(l) is None {
        lemma_rewritten_one(l, no_lines);
        assert(seq![l] + no_lines =~= ls);
        blocks::lemma_joined_one(l);
    } else {
        blocks::terminator_is_first(ls, 1);
    }
}

} // verus!
