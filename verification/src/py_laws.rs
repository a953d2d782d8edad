//! What the options of `py` come to, what it runs, and what becomes of what Python gave.

use vstd::prelude::*;

use crate::blocks;
use crate::dedent_laws;
use crate::env;
use crate::env::ScopeView;
use crate::py;
use crate::py::{OptionsView, ParsedOptions, PyException, PyExecOptions, PyExecOutcome, StepView};
use crate::results::{ExecutionControlFlow, ExecutionExitCode, ExecutionResult};
use crate::text;
use crate::variables::{ValueView, VariableView};

verus! {

/// The later of two optional names.
spec fn later(a: Option<Seq<char>>, b: Option<Seq<char>>) -> Option<Seq<char>> {
    if b is Some {
        b
    } else {
        a
    }
}

/// The options `o` and, behind them, the options `p`.
spec fn followed_by(o: OptionsView, p: OptionsView) -> OptionsView {
    OptionsView {
        expression_mode: o.expression_mode || p.expression_mode,
        structured_exceptions: o.structured_exceptions || p.structured_exceptions,
        no_dedent: o.no_dedent || p.no_dedent,
        capture_stdout_var: later(o.capture_stdout_var, p.capture_stdout_var),
        capture_result_var: later(o.capture_result_var, p.capture_result_var),
        tie_var: later(o.tie_var, p.tie_var),
        untie_var: later(o.untie_var, p.untie_var),
        taken: o.taken + p.taken,
    }
}

proof fn lemma_options_distinct()
    ensures
        "-e"@ == seq!['-', 'e'],
        "-x"@ == seq!['-', 'x'],
        "-v"@ == seq!['-', 'v'],
        "-r"@ == seq!['-', 'r'],
        "-t"@ == seq!['-', 't'],
        "-u"@ == seq!['-', 'u'],
        "--"@ == seq!['-', '-'],
        "--no-dedent"@ == seq!['-', '-', 'n', 'o', '-', 'd', 'e', 'd', 'e', 'n', 't'],
        forall|a: char, b: char| seq!['-', a] == seq!['-', b] ==> a == b,
        forall|a: char|
            #[trigger] seq!['-', a] != seq!['-', '-', 'n', 'o', '-', 'd', 'e', 'd', 'e', 'n', 't'],
{
    reveal_strlit("-e");
    reveal_strlit("-x");
    reveal_strlit("-v");
    reveal_strlit("-r");
    reveal_strlit("-t");
    reveal_strlit("-u");
    reveal_strlit("--");
    reveal_strlit("--no-dedent");
    assert forall|a: char, b: char| seq!['-', a] == seq!['-', b] implies a == b by {
        assert(seq!['-', a][1] == a);
        assert(seq!['-', b][1] == b);
    }
    assert forall|a: char|
        #[trigger] seq!['-', a] != seq![
            '-',
            '-',
            'n',
            'o',
            '-',
            'd',
            'e',
            'd',
            'e',
            'n',
            't',
        ] by {
        assert(seq!['-', a].len() == 2);
    }
}

proof fn lemma_options_skip(args: Seq<Seq<char>>, o: OptionsView)
    requires
        0 <= o.taken <= args.len(),
    ensures
        py::options_from(args, o) == (match py::options_from(
            args.skip(o.taken),
            py::no_options(),
        ) {
            Some(p) => Some(followed_by(o, p)),
            None => None,
        }),
    decreases args.len() - o.taken,
{
    let i = o.taken;
    let rest = args.skip(i);
    let none = py::no_options();
    if i < args.len() {
        assert(rest[0] == args[i]);
        let arg = args[i];
        lemma_options_distinct();
        if arg == "--"@ {
        } else if arg == "-e"@ || arg == "-x"@ || arg == "--no-dedent"@ {
            let o1 = if arg == "-e"@ {
                OptionsView { expression_mode: true, taken: i + 1, ..o }
            } else if arg == "-x"@ {
                OptionsView { structured_exceptions: true, taken: i + 1, ..o }
            } else {
                OptionsView { no_dedent: true, taken: i + 1, ..o }
            };
            let p1 = if arg == "-e"@ {
                OptionsView { expression_mode: true, taken: 1, ..none }
            } else if arg == "-x"@ {
                OptionsView { structured_exceptions: true, taken: 1, ..none }
            } else {
                OptionsView { no_dedent: true, taken: 1, ..none }
            };
            lemma_options_skip(args, o1);
            lemma_options_skip(rest, p1);
            assert(rest.skip(1) =~= args.skip(i + 1));
        } else if arg == "-v"@ || arg == "-r"@ || arg == "-t"@ || arg == "-u"@ {
            if i + 1 < args.len() {
                assert(rest[1] == args[i + 1]);
                let var = Some(args[i + 1]);
                let next = OptionsView { taken: i + 2, ..o };
                let first = OptionsView { taken: 2, ..none };
                let o1 = if arg == "-v"@ {
                    OptionsView { capture_stdout_var: var, ..next }
                } else if arg == "-r"@ {
                    OptionsView { capture_result_var: var, ..next }
                } else if arg == "-t"@ {
                    OptionsView { tie_var: var, ..next }
                } else {
                    OptionsView { untie_var: var, ..next }
                };
                let p1 = if arg == "-v"@ {
                    OptionsView { capture_stdout_var: var, ..first }
                } else if arg == "-r"@ {
                    OptionsView { capture_result_var: var, ..first }
                } else if arg == "-t"@ {
                    OptionsView { tie_var: var, ..first }
                } else {
                    OptionsView { untie_var: var, ..first }
                };
                lemma_options_skip(args, o1);
                lemma_options_skip(rest, p1);
                assert(rest.skip(2) =~= args.skip(i + 2));
            }
        }
    }
}

/// Arguments without an option in front set nothing, and are all left.
pub proof fn other_arguments_set_nothing(args: Seq<Seq<char>>)
    requires
        args.len() == 0 || {
            &&& args[0] != seq!['-', '-']
            &&& args[0] != seq!['-', 'e']
            &&& args[0] != seq!['-', 'x']
            &&& args[0] != seq!['-', '-', 'n', 'o', '-', 'd', 'e', 'd', 'e', 'n', 't']
            &&& args[0] != seq!['-', 'v']
            &&& args[0] != seq!['-', 'r']
            &&& args[0] != seq!['-', 't']
            &&& args[0] != seq!['-', 'u']
        },
    ensures
        py::parsed_options(args) == Some(
            OptionsView {
                expression_mode: false,
                structured_exceptions: false,
                no_dedent: false,
                capture_stdout_var: None,
                capture_result_var: None,
                tie_var: None,
                untie_var: None,
                taken: 0,
            },
        ),
{
    lemma_options_distinct();
}

/// `--` sets nothing, and all that stands behind it is left.
pub proof fn double_dash_sets_nothing(rest: Seq<Seq<char>>)
    ensures
        py::parsed_options(seq![seq!['-', '-']] + rest) == Some(
            OptionsView {
                expression_mode: false,
                structured_exceptions: false,
                no_dedent: false,
                capture_stdout_var: None,
                capture_result_var: None,
                tie_var: None,
                untie_var: None,
                taken: 1,
            },
        ),
{
    lemma_options_distinct();
    assert((seq![seq!['-', '-']] + rest)[0] == seq!['-', '-']);
}

/// `-e` in front of arguments asks for an expression, and changes nothing else of what they ask for.
pub proof fn dash_e_asks_for_an_expression(rest: Seq<Seq<char>>)
    ensures
        py::parsed_options(seq![seq!['-', 'e']] + rest) == (match py::parsed_options(rest) {
            Some(o) => Some(OptionsView { expression_mode: true, taken: o.taken + 1, ..o }),
            None => None,
        }),
{
    lemma_options_distinct();
    lemma_flag(seq!['-', 'e'], rest);
}

/// `-x` in front of arguments asks for structured exceptions, and changes nothing else of what they
/// ask for.
pub proof fn dash_x_asks_for_structured_exceptions(rest: Seq<Seq<char>>)
    ensures
        py::parsed_options(seq![seq!['-', 'x']] + rest) == (match py::parsed_options(rest) {
            Some(o) => Some(OptionsView { structured_exceptions: true, taken: o.taken + 1, ..o }),
            None => None,
        }),
{
    lemma_options_distinct();
    lemma_flag(seq!['-', 'x'], rest);
}

/// `--no-dedent` in front of arguments asks for the indentation to be kept, and changes nothing else
/// of what they ask for.
pub proof fn no_dedent_asks_for_the_indentation(rest: Seq<Seq<char>>)
    ensures
        ({
            let flag = seq!['-', '-', 'n', 'o', '-', 'd', 'e', 'd', 'e', 'n', 't'];
            py::parsed_options(seq![flag] + rest) == (match py::parsed_options(rest) {
                Some(o) => Some(OptionsView { no_dedent: true, taken: o.taken + 1, ..o }),
                None => None,
            })
        }),
{
    lemma_options_distinct();
    lemma_flag(seq!['-', '-', 'n', 'o', '-', 'd', 'e', 'd', 'e', 'n', 't'], rest);
}

proof fn lemma_flag(flag: Seq<char>, rest: Seq<Seq<char>>)
    requires
        flag == "-e"@ || flag == "-x"@ || flag == "--no-dedent"@,
    ensures
        py::options_from(seq![flag] + rest, py::no_options()) == (match py::options_from(
            rest,
            py::no_options(),
        ) {
            Some(p) => Some(
                OptionsView {
                    expression_mode: p.expression_mode || flag == "-e"@,
                    structured_exceptions: p.structured_exceptions || flag == "-x"@,
                    no_dedent: p.no_dedent || flag == "--no-dedent"@,
                    taken: p.taken + 1,
                    ..p
                },
            ),
            None => None,
        }),
{
    lemma_options_distinct();
    let none = py::no_options();
    let args = seq![flag] + rest;
    assert(args[0] == flag);
    assert(args.skip(1) =~= rest);
    let o1 = if flag == "-e"@ {
        OptionsView { expression_mode: true, taken: 1, ..none }
    } else if flag == "-x"@ {
        OptionsView { structured_exceptions: true, taken: 1, ..none }
    } else {
        OptionsView { no_dedent: true, taken: 1, ..none }
    };
    lemma_options_skip(args, o1);
    if let Some(p) = py::options_from(rest, none) {
        assert(followed_by(o1, p) =~= (OptionsView {
            expression_mode: p.expression_mode || flag == "-e"@,
            structured_exceptions: p.structured_exceptions || flag == "-x"@,
            no_dedent: p.no_dedent || flag == "--no-dedent"@,
            taken: p.taken + 1,
            ..p
        }));
    }
}

proof fn lemma_named(flag: Seq<char>, name: Seq<char>, rest: Seq<Seq<char>>)
    requires
        flag == "-v"@ || flag == "-r"@ || flag == "-t"@ || flag == "-u"@,
    ensures
        py::options_from(seq![flag, name] + rest, py::no_options()) == (match py::options_from(
            rest,
            py::no_options(),
        ) {
            Some(p) => Some(
                OptionsView {
                    capture_stdout_var: if p.capture_stdout_var is None && flag == "-v"@ {
                        Some(name)
                    } else {
                        p.capture_stdout_var
                    },
                    capture_result_var: if p.capture_result_var is None && flag == "-r"@ {
                        Some(name)
                    } else {
                        p.capture_result_var
                    },
                    tie_var: if p.tie_var is None && flag == "-t"@ {
                        Some(name)
                    } else {
                        p.tie_var
                    },
                    untie_var: if p.untie_var is None && flag == "-u"@ {
                        Some(name)
                    } else {
                        p.untie_var
                    },
                    taken: p.taken + 2,
                    ..p
                },
            ),
            None => None,
        }),
{
    lemma_options_distinct();
    let none = py::no_options();
    let args = seq![flag, name] + rest;
    assert(args[0] == flag);
    assert(args[1] == name);
    assert(args.skip(2) =~= rest);
    let first = OptionsView { taken: 2, ..none };
    let o1 = if flag == "-v"@ {
        OptionsView { capture_stdout_var: Some(name), ..first }
    } else if flag == "-r"@ {
        OptionsView { capture_result_var: Some(name), ..first }
    } else if flag == "-t"@ {
        OptionsView { tie_var: Some(name), ..first }
    } else {
        OptionsView { untie_var: Some(name), ..first }
    };
    lemma_options_skip(args, o1);
}

/// `-v NAME` in front of arguments names the variable that takes what Python prints, unless they
/// name one themselves, and changes nothing else of what they ask for. The name may be any argument.
pub proof fn dash_v_names_the_stdout_variable(name: Seq<char>, rest: Seq<Seq<char>>)
    ensures
        py::parsed_options(seq![seq!['-', 'v'], name] + rest) == (match py::parsed_options(rest) {
            Some(o) => Some(
                OptionsView {
                    capture_stdout_var: if o.capture_stdout_var is Some {
                        o.capture_stdout_var
                    } else {
                        Some(name)
                    },
                    taken: o.taken + 2,
                    ..o
                },
            ),
            None => None,
        }),
{
    lemma_options_distinct();
    lemma_named(seq!['-', 'v'], name, rest);
}

/// `-r NAME` in front of arguments names the variable that takes the result, unless they name one
/// themselves, and changes nothing else of what they ask for. The name may be any argument.
pub proof fn dash_r_names_the_result_variable(name: Seq<char>, rest: Seq<Seq<char>>)
    ensures
        py::parsed_options(seq![seq!['-', 'r'], name] + rest) == (match py::parsed_options(rest) {
            Some(o) => Some(
                OptionsView {
                    capture_result_var: if o.capture_result_var is Some {
                        o.capture_result_var
                    } else {
                        Some(name)
                    },
                    taken: o.taken + 2,
                    ..o
                },
            ),
            None => None,
        }),
{
    lemma_options_distinct();
    lemma_named(seq!['-', 'r'], name, rest);
}

/// `-t NAME` in front of arguments names the variable to tie, unless they name one themselves, and
/// changes nothing else of what they ask for; it is refused where they name a variable to untie.
pub proof fn dash_t_names_the_variable_to_tie(name: Seq<char>, rest: Seq<Seq<char>>)
    ensures
        py::parsed_options(seq![seq!['-', 't'], name] + rest) == (match py::parsed_options(rest) {
            Some(o) if o.untie_var is None => Some(
                OptionsView {
                    tie_var: if o.tie_var is Some {
                        o.tie_var
                    } else {
                        Some(name)
                    },
                    taken: o.taken + 2,
                    ..o
                },
            ),
            _ => None,
        }),
{
    lemma_options_distinct();
    lemma_named(seq!['-', 't'], name, rest);
}

/// `-u NAME` in front of arguments names the variable to untie, unless they name one themselves, and
/// changes nothing else of what they ask for; it is refused where they name a variable to tie.
pub proof fn dash_u_names_the_variable_to_untie(name: Seq<char>, rest: Seq<Seq<char>>)
    ensures
        py::parsed_options(seq![seq!['-', 'u'], name] + rest) == (match py::parsed_options(rest) {
            Some(o) if o.tie_var is None => Some(
                OptionsView {
                    untie_var: if o.untie_var is Some {
                        o.untie_var
                    } else {
                        Some(name)
                    },
                    taken: o.taken + 2,
                    ..o
                },
            ),
            _ => None,
        }),
{
    lemma_options_distinct();
    lemma_named(seq!['-', 'u'], name, rest);
}

/// An option that needs a variable name is refused as the last argument.
pub proof fn missing_name_is_refused(flag: char)
    requires
        flag == 'v' || flag == 'r' || flag == 't' || flag == 'u',
    ensures
        py::parsed_options(seq![seq!['-', flag]]) is None,
{
    lemma_options_distinct();
    assert(seq![seq!['-', flag]][0] == seq!['-', flag]);
}

/// An option as it is given to `py`.
pub enum Given {
    /// `-e`
    Expression,
    /// `-x`
    Exceptions,
    /// `--no-dedent`
    KeepIndent,
    /// `-v NAME`
    Stdout(Seq<char>),
    /// `-r NAME`
    Result(Seq<char>),
    /// `-t NAME`
    Tie(Seq<char>),
    /// `-u NAME`
    Untie(Seq<char>),
}

/// The arguments by which an option is given.
pub open spec fn spelled_one(g: Given) -> Seq<Seq<char>> {
    match g {
        Given::Expression => seq![seq!['-', 'e']],
        Given::Exceptions => seq![seq!['-', 'x']],
        Given::KeepIndent => seq![seq!['-', '-', 'n', 'o', '-', 'd', 'e', 'd', 'e', 'n', 't']],
        Given::Stdout(name) => seq![seq!['-', 'v'], name],
        Given::Result(name) => seq![seq!['-', 'r'], name],
        Given::Tie(name) => seq![seq!['-', 't'], name],
        Given::Untie(name) => seq![seq!['-', 'u'], name],
    }
}

/// The arguments by which options are given.
pub open spec fn spelled(gs: Seq<Given>) -> Seq<Seq<char>>
    decreases gs.len(),
{
    if gs.len() == 0 {
        seq![]
    } else {
        spelled_one(gs[0]) + spelled(gs.drop_first())
    }
}

/// Options ask for an expression exactly where one of them is `-e`, and likewise each other option
/// asks for its own thing alone; what names a variable is never read as an option. The options take
/// the arguments by which they are given, and no others.
pub proof fn each_option_asks_for_its_own(gs: Seq<Given>, rest: Seq<Seq<char>>)
    requires
        rest.len() == 0 || {
            &&& rest[0] != seq!['-', '-']
            &&& rest[0] != seq!['-', 'e']
            &&& rest[0] != seq!['-', 'x']
            &&& rest[0] != seq!['-', '-', 'n', 'o', '-', 'd', 'e', 'd', 'e', 'n', 't']
            &&& rest[0] != seq!['-', 'v']
            &&& rest[0] != seq!['-', 'r']
            &&& rest[0] != seq!['-', 't']
            &&& rest[0] != seq!['-', 'u']
        },
    ensures
        py::parsed_options(spelled(gs) + rest) is None <==> {
            &&& exists|i: int| 0 <= i < gs.len() && #[trigger] gs[i] is Tie
            &&& exists|i: int| 0 <= i < gs.len() && #[trigger] gs[i] is Untie
        },
        py::parsed_options(spelled(gs) + rest) matches Some(o) ==> {
            &&& o.taken == spelled(gs).len()
            &&& o.expression_mode <==> exists|i: int|
                0 <= i < gs.len() && #[trigger] gs[i] is Expression
            &&& o.structured_exceptions <==> exists|i: int|
                0 <= i < gs.len() && #[trigger] gs[i] is Exceptions
            &&& o.no_dedent <==> exists|i: int|
                0 <= i < gs.len() && #[trigger] gs[i] is KeepIndent
            &&& o.capture_stdout_var is Some <==> exists|i: int|
                0 <= i < gs.len() && #[trigger] gs[i] is Stdout
            &&& o.capture_result_var is Some <==> exists|i: int|
                0 <= i < gs.len() && #[trigger] gs[i] is Result
            &&& o.tie_var is Some <==> exists|i: int| 0 <= i < gs.len() && #[trigger] gs[i] is Tie
            &&& o.untie_var is Some <==> exists|i: int|
                0 <= i < gs.len() && #[trigger] gs[i] is Untie
        },
    decreases gs.len(),
{
    if gs.len() == 0 {
        assert(spelled(gs) + rest =~= rest);
        other_arguments_set_nothing(rest);
    } else {
        let more = gs.drop_first();
        each_option_asks_for_its_own(more, rest);
        let behind = spelled(more) + rest;
        assert(spelled(gs) + rest =~= spelled_one(gs[0]) + behind);
        assert(forall|i: int| 0 <= i < more.len() ==> #[trigger] more[i] == gs[i + 1]);
        assert(forall|i: int| 1 <= i < gs.len() ==> #[trigger] gs[i] == more[i - 1]);
        match gs[0] {
            Given::Expression => dash_e_asks_for_an_expression(behind),
            Given::Exceptions => dash_x_asks_for_structured_exceptions(behind),
            Given::KeepIndent => no_dedent_asks_for_the_indentation(behind),
            Given::Stdout(name) => dash_v_names_the_stdout_variable(name, behind),
            Given::Result(name) => dash_r_names_the_result_variable(name, behind),
            Given::Tie(name) => dash_t_names_the_variable_to_tie(name, behind),
            Given::Untie(name) => dash_u_names_the_variable_to_untie(name, behind),
        }
    }
}

/// Options that were read are those that the arguments ask for, field by field, and the arguments
/// behind them are left.
pub proof fn read_options_are_those_asked_for<'a>(
    r: ParsedOptions<'a>,
    args: Seq<Seq<char>>,
    o: OptionsView,
)
    requires
        r.agrees_with(args, o),
    ensures
        r.expression_mode == o.expression_mode,
        r.structured_exceptions == o.structured_exceptions,
        r.no_dedent == o.no_dedent,
        match (r.capture_stdout_var, o.capture_stdout_var) {
            (Some(a), Some(b)) => a@ == b,
            (a, b) => a is None && b is None,
        },
        match (r.capture_result_var, o.capture_result_var) {
            (Some(a), Some(b)) => a@ == b,
            (a, b) => a is None && b is None,
        },
        match (r.tie_var, o.tie_var) {
            (Some(a), Some(b)) => a@ == b,
            (a, b) => a is None && b is None,
        },
        match (r.untie_var, o.untie_var) {
            (Some(a), Some(b)) => a@ == b,
            (a, b) => a is None && b is None,
        },
        r.remaining@.len() + o.taken == args.len(),
        forall|i: int|
            0 <= i < r.remaining@.len() ==> (#[trigger] r.remaining@[i])@ == args[o.taken + i],
{
    assert(py::arg_texts(r.remaining@).len() == r.remaining@.len());
    assert(args.skip(o.taken).len() == args.len() - o.taken);
    assert forall|i: int| 0 <= i < r.remaining@.len() implies (#[trigger] r.remaining@[i])@
        == args[o.taken + i] by {
        assert(py::arg_texts(r.remaining@)[i] == args.skip(o.taken)[i]);
    }
}

/// Between single quotes a backslash or a single quote gets a backslash before it, and every other
/// character stands for itself.
pub proof fn only_quotes_and_backslashes_are_escaped(a: Seq<char>, c: char, b: Seq<char>)
    ensures
        py::escaped(a + seq![c] + b) == py::escaped(a) + (if c == '\\' || c == '\'' {
            seq!['\\', c]
        } else {
            seq![c]
        }) + py::escaped(b),
        py::escaped(seq![]) == Seq::<char>::empty(),
        py::quoted(a) == seq!['\''] + py::escaped(a) + seq!['\''],
{
    py::lemma_escaped_concat(a + seq![c], b);
    py::lemma_escaped_concat(a, seq![c]);
    assert(seq![c].drop_last() =~= Seq::<char>::empty());
    assert(py::escaped(seq![c].drop_last()) =~= Seq::<char>::empty());
    assert(py::escaped(seq![c]) =~= py::escaped_char(c));
}

/// A text without quotes and backslashes is quoted as it stands.
pub proof fn plain_text_is_quoted_as_it_stands(s: Seq<char>)
    requires
        forall|i: int| 0 <= i < s.len() ==> s[i] != '\\' && s[i] != '\'',
    ensures
        py::quoted(s) == seq!['\''] + s + seq!['\''],
{
    lemma_plain_escaped(s);
}

proof fn lemma_plain_escaped(s: Seq<char>)
    requires
        forall|i: int| 0 <= i < s.len() ==> s[i] != '\\' && s[i] != '\'',
    ensures
        py::escaped(s) == s,
    decreases s.len(),
{
    if s.len() > 0 {
        lemma_plain_escaped(s.drop_last());
        assert(s =~= s.drop_last() + seq![s.last()]);
    } else {
        assert(s =~= Seq::<char>::empty());
    }
}

/// `-N` and `-N-` name the file descriptor `N`; the latter asks for it to be closed.
pub proof fn digits_name_a_descriptor(digits: Seq<char>)
    requires
        digits.len() > 0,
        forall|i: int| 0 <= i < digits.len() ==> '0' <= #[trigger] digits[i] <= '9',
    ensures
        text::decimal_value(digits) <= 0x7fff_ffff ==> {
            &&& py::fd_spec(seq!['-'] + digits) == Some((text::decimal_value(digits) as int, false))
            &&& py::fd_spec(seq!['-'] + digits + seq!['-']) == Some(
                (text::decimal_value(digits) as int, true),
            )
        },
        text::decimal_value(digits) > 0x7fff_ffff ==> {
            &&& py::fd_spec(seq!['-'] + digits) is None
            &&& py::fd_spec(seq!['-'] + digits + seq!['-']) is None
        },
{
    let a = seq!['-'] + digits;
    let b = seq!['-'] + digits + seq!['-'];
    assert(a.skip(1) =~= digits);
    assert(a.last() == digits[digits.len() - 1]);
    assert(b.subrange(1, b.len() - 1) =~= digits);
}

/// Nothing else names a file descriptor.
pub proof fn only_digits_name_a_descriptor(s: Seq<char>) -> (digits: Seq<char>)
    requires
        py::fd_spec(s) is Some,
    ensures
        digits.len() > 0,
        forall|i: int| 0 <= i < digits.len() ==> '0' <= #[trigger] digits[i] <= '9',
        text::decimal_value(digits) <= 0x7fff_ffff,
        s == seq!['-'] + digits || s == seq!['-'] + digits + seq!['-'],
{
    if s.last() == '-' {
        let digits = s.subrange(1, s.len() - 1);
        assert(s =~= seq!['-'] + digits + seq!['-']);
        digits
    } else {
        let digits = s.skip(1);
        assert(s =~= seq!['-'] + digits);
        digits
    }
}

/// A command that is not used as it should be ends with exit code 2, and a `py` command runs what it
/// ties or unties on its own, whatever other options it has.
pub proof fn command_is_planned_by_its_arguments(
    tie: Option<Seq<char>>,
    untie: Option<Seq<char>>,
    no_dedent: bool,
    options: PyExecOptions,
    rest: Seq<Seq<char>>,
)
    ensures
        ({
            let step = py::planned(tie, untie, no_dedent, options, rest);
            let refused = ExecutionResult {
                next_control_flow: ExecutionControlFlow::Normal,
                exit_code: ExecutionExitCode::InvalidUsage,
            };
            let plain = PyExecOptions { expression_mode: false, structured_exceptions: false };
            &&& tie is Some && rest.len() > 0 ==> step == StepView::Refuse(
                "py: -t expects only a variable name"@,
                refused,
            )
            &&& rest.len() == 0 ==> (tie matches Some(name) ==> step == StepView::RunCode(
                "bash.tie("@ + py::quoted(name) + ", lambda: globals().get("@ + py::quoted(name)
                    + ", ''), lambda v: globals().__setitem__("@ + py::quoted(name) + ", v))"@,
                plain,
            ))
            &&& tie is None && untie is Some && rest.len() > 0 ==> step == StepView::Refuse(
                "py: -u expects only a variable name"@,
                refused,
            )
            &&& tie is None && rest.len() == 0 ==> (untie matches Some(name) ==> step
                == StepView::RunCode("bash.untie("@ + py::quoted(name) + ")"@, plain))
            &&& tie is None && untie is None && rest.len() == 0 ==> step == StepView::Refuse(
                "py: expected arguments"@,
                refused,
            )
            &&& tie is None && untie is None && rest.len() > 0 && py::fd_spec(rest[0]) is None
                ==> step == StepView::Dispatch(options)
            &&& tie is None && untie is None && rest.len() > 1 && py::fd_spec(rest[0]) is Some
                ==> step == StepView::Refuse(
                "py: fd mode expects exactly one argument (e.g. -5 or -5-)"@,
                refused,
            )
            &&& tie is None && untie is None && rest.len() == 1 ==> (py::fd_spec(rest[0]) matches Some(
                (fd, close),
            ) ==> step == StepView::ReadScript(fd, close, no_dedent, options))
        }),
{
}

/// A script that is to keep its indentation is run as it stands.
pub proof fn kept_indentation_is_run(fd: int, script: Seq<char>, options: PyExecOptions)
    ensures
        py::script_planned(fd, Some(script), true, options) == StepView::RunCode(script, options),
{
}

/// Unless its indentation is to be kept, a script is run without any that its lines have in common,
/// however it is run otherwise: unless all of its lines are blank, one that is not starts with
/// neither a space nor a tab. What is run depends on the script alone.
pub proof fn script_is_run_without_common_indentation(
    fd: int,
    script: Seq<char>,
    options: PyExecOptions,
    other_fd: int,
    other: PyExecOptions,
)
    ensures
        py::script_planned(fd, Some(script), false, options) matches StepView::RunCode(code, how)
            && {
            let ls = blocks::lines(code);
            &&& how == options
            &&& py::script_planned(other_fd, Some(script), false, other) == StepView::RunCode(
                code,
                other,
            )
            &&& {
                ||| forall|i: int, j: int|
                    0 <= i < ls.len() && 0 <= j < ls[i].len() ==> text::is_white(
                        #[trigger] ls[i][j],
                    )
                ||| exists|i: int| #![trigger ls[i]]
                    0 <= i < ls.len() && ls[i].len() > 0 && ls[i][0] != ' ' && ls[i][0] != '\t'
                        && exists|j: int|
                        0 <= j < ls[i].len() && !text::is_white(#[trigger] ls[i][j])
            }
        },
{
    dedent_laws::no_common_indentation_is_left(script);
}

/// A script whose lines have some indentation in common is run without it, and with all else of its
/// lines, however it is run otherwise.
pub proof fn script_lines_lose_their_common_indentation(
    fd: int,
    ls: Seq<dedent_laws::IndentedLine>,
    closed: bool,
    width: nat,
    options: PyExecOptions,
)
    requires
        dedent_laws::are_lines(ls, closed),
        dedent_laws::have_in_common(ls, width),
    ensures
        py::script_planned(
            fd,
            Some(blocks::joined(dedent_laws::indented_lines(ls, closed))),
            false,
            options,
        ) == StepView::RunCode(
            blocks::joined(dedent_laws::unindented_lines(ls, closed)),
            options,
        ),
{
    dedent_laws::common_indentation_is_taken_off(ls, closed, width);
}

/// A descriptor that is not open is named in the message, and the command fails.
pub proof fn closed_descriptor_is_refused(n: nat, no_dedent: bool, options: PyExecOptions)
    ensures
        ({
            let failed = ExecutionResult {
                next_control_flow: ExecutionControlFlow::Normal,
                exit_code: ExecutionExitCode::GeneralError,
            };
            &&& py::script_planned(n as int, None, no_dedent, options) == StepView::Refuse(
                "py: bad file descriptor: "@ + text::decimal_text(n),
                failed,
            )
            &&& n > 0 ==> py::script_planned(-n, None, no_dedent, options) == StepView::Refuse(
                "py: bad file descriptor: "@ + (seq!['-'] + text::decimal_text(n)),
                failed,
            )
        }),
{
}

/// What Python printed is never lost, and neither is its value. Where no variable takes what was
/// printed, what the command prints starts with it; behind it stands the value with a line feed,
/// where no variable takes that. Nothing else is printed.
pub proof fn nothing_printed_is_lost<'a>(outcome: PyExecOutcome, options: ParsedOptions<'a>)
    ensures
        ({
            let out = py::printed(outcome, options);
            let n = outcome.stdout@.len() as int;
            &&& options.capture_stdout_var is None ==> n <= out.len() && out.take(n)
                == outcome.stdout@
            &&& options.capture_stdout_var is None && (options.capture_result_var is Some
                || outcome.value is None) ==> out == outcome.stdout@
            &&& options.capture_result_var is None ==> (outcome.value matches Some(value) ==> {
                let m = value@.len() + 1;
                &&& m <= out.len()
                &&& out.skip(out.len() - m) == value@ + seq!['\n']
                &&& options.capture_stdout_var is None ==> out.len() == n + m
                &&& options.capture_stdout_var is Some ==> out.len() == m
            })
            &&& options.capture_stdout_var is Some && (options.capture_result_var is Some
                || outcome.value is None) ==> out.len() == 0
        }),
{
    let out = py::printed(outcome, options);
    let n = outcome.stdout@.len() as int;
    if options.capture_stdout_var is None {
        assert(out.take(n) =~= outcome.stdout@);
    }
    if options.capture_result_var is None {
        if let Some(value) = outcome.value {
            let m = value@.len() + 1;
            assert(out.skip(out.len() - m) =~= value@ + seq!['\n']);
        }
    }
}

/// A variable that takes what Python printed, or its value, holds it afterwards in the global scope;
/// where both go to one variable, it holds the value. No other variable changes.
pub proof fn captured_texts_are_held<'a>(
    env: Seq<ScopeView>,
    outcome: PyExecOutcome,
    options: ParsedOptions<'a>,
    name: Seq<char>,
)
    requires
        env::nested(env),
    ensures
        ({
            let env2 = py::with_captures(env, outcome, options);
            let value = match outcome.value {
                Some(value) => value@,
                None => seq![],
            };
            let takes_value = options.capture_result_var matches Some(var) && var@ == name;
            let takes_stdout = options.capture_stdout_var matches Some(var) && var@ == name;
            &&& env2.len() == env.len()
            &&& env2.skip(1) == env.skip(1)
            &&& env2[0].kind == env[0].kind
            &&& takes_value ==> env2[0].vars.contains_key(name) && env2[0].vars[name] == (
            VariableView { value: ValueView::Text(value), integer: false, readonly: false })
            &&& !takes_value && takes_stdout ==> env2[0].vars.contains_key(name)
                && env2[0].vars[name] == (VariableView {
                value: ValueView::Text(outcome.stdout@),
                integer: false,
                readonly: false,
            })
            &&& !takes_value && !takes_stdout ==> {
                &&& env2[0].vars.contains_key(name) <==> env[0].vars.contains_key(name)
                &&& env[0].vars.contains_key(name) ==> env2[0].vars[name] == env[0].vars[name]
            }
        }),
{
    let env2 = py::with_captures(env, outcome, options);
    assert(env2.skip(1) =~= env.skip(1));
}

/// Four global variables tell of an exception: its type, its message, the lines of its traceback
/// from index 0, and the language. No other variable changes.
pub proof fn exception_is_told_in_four_variables(
    env: Seq<ScopeView>,
    e: PyException,
    name: Seq<char>,
)
    requires
        env::nested(env),
    ensures
        ({
            let env2 = py::with_exception(env, e);
            let vars = env2[0].vars;
            &&& env2.len() == env.len()
            &&& env2.skip(1) == env.skip(1)
            &&& env2[0].kind == env[0].kind
            &&& vars.contains_key("MCBASH_EXCEPTION"@) && vars["MCBASH_EXCEPTION"@] == (
            VariableView { value: ValueView::Text(e.name@), integer: false, readonly: false })
            &&& vars.contains_key("MCBASH_EXCEPTION_MSG"@) && vars["MCBASH_EXCEPTION_MSG"@] == (
            VariableView { value: ValueView::Text(e.message@), integer: false, readonly: false })
            &&& vars.contains_key("MCBASH_EXCEPTION_LANG"@) && vars["MCBASH_EXCEPTION_LANG"@] == (
            VariableView {
                value: ValueView::Text(seq!['p', 'y', 't', 'h', 'o', 'n']),
                integer: false,
                readonly: false,
            })
            &&& vars.contains_key("MCBASH_EXCEPTION_TB"@) && !vars["MCBASH_EXCEPTION_TB"@].integer
                && !vars["MCBASH_EXCEPTION_TB"@].readonly
            &&& vars["MCBASH_EXCEPTION_TB"@].value matches ValueView::Array(lines) && {
                &&& forall|k: u64| #[trigger] lines.contains_key(k) <==> k < e.traceback@.len()
                &&& forall|k: u64|
                    k < e.traceback@.len() ==> #[trigger] lines[k] == e.traceback@[k as int]@
            }
            &&& name != "MCBASH_EXCEPTION"@ && name != "MCBASH_EXCEPTION_MSG"@ && name
                != "MCBASH_EXCEPTION_TB"@ && name != "MCBASH_EXCEPTION_LANG"@ ==> {
                &&& vars.contains_key(name) <==> env[0].vars.contains_key(name)
                &&& env[0].vars.contains_key(name) ==> vars[name] == env[0].vars[name]
            }
        }),
{
    reveal_strlit("MCBASH_EXCEPTION");
    reveal_strlit("MCBASH_EXCEPTION_MSG");
    reveal_strlit("MCBASH_EXCEPTION_TB");
    reveal_strlit("MCBASH_EXCEPTION_LANG");
    reveal_strlit("python");
    assert("python"@ =~= seq!['p', 'y', 't', 'h', 'o', 'n']);
    assert("MCBASH_EXCEPTION"@.len() == 16);
    assert("MCBASH_EXCEPTION_MSG"@.len() == 20);
    assert("MCBASH_EXCEPTION_TB"@.len() == 19);
    assert("MCBASH_EXCEPTION_LANG"@.len() == 21);
    assert(py::with_exception(env, e).skip(1) =~= env.skip(1));
}

/// Captures are made whether or not Python ended in an exception, and the variables that tell of one
/// are set exactly where there is one and structured exceptions were asked for.
pub proof fn exceptions_are_told_where_asked_for<'a>(
    env: Seq<ScopeView>,
    outcome: PyExecOutcome,
    options: ParsedOptions<'a>,
    name: Seq<char>,
)
    requires
        env::nested(env),
        name != "MCBASH_EXCEPTION"@,
        name != "MCBASH_EXCEPTION_MSG"@,
        name != "MCBASH_EXCEPTION_TB"@,
        name != "MCBASH_EXCEPTION_LANG"@,
    ensures
        ({
            let env2 = py::finalized(env, outcome, options);
            let text = |t: Seq<char>|
                VariableView { value: ValueView::Text(t), integer: false, readonly: false };
            let takes_value = options.capture_result_var matches Some(var) && var@ == name;
            let takes_stdout = options.capture_stdout_var matches Some(var) && var@ == name;
            &&& env2.len() == env.len()
            &&& env2.skip(1) == env.skip(1)
            &&& takes_value ==> env2[0].vars.contains_key(name) && env2[0].vars[name] == text(
                match outcome.value {
                    Some(value) => value@,
                    None => seq![],
                },
            )
            &&& !takes_value && takes_stdout ==> env2[0].vars.contains_key(name)
                && env2[0].vars[name] == text(outcome.stdout@)
            &&& !takes_value && !takes_stdout ==> {
                &&& env2[0].vars.contains_key(name) <==> env[0].vars.contains_key(name)
                &&& env[0].vars.contains_key(name) ==> env2[0].vars[name] == env[0].vars[name]
            }
            &&& outcome.exception is None || !options.structured_exceptions ==> env2
                == py::with_captures(env, outcome, options)
            &&& options.structured_exceptions ==> (outcome.exception matches Some(e)
                ==> env2[0].vars.contains_key("MCBASH_EXCEPTION"@)
                && env2[0].vars["MCBASH_EXCEPTION"@] == text(e.name@)
                && env2[0].vars.contains_key("MCBASH_EXCEPTION_MSG"@)
                && env2[0].vars["MCBASH_EXCEPTION_MSG"@] == text(e.message@))
        }),
{
    captured_texts_are_held(env, outcome, options, name);
    let env1 = py::with_captures(env, outcome, options);
    assert(env::nested(env1)) by {
        assert forall|i: int| 0 < i < env1.len() implies (#[trigger] env1[i]).kind
            != env::EnvironmentScope::Global by {
            assert(env1[i] == env1.skip(1)[i - 1]);
            assert(env[i] == env.skip(1)[i - 1]);
        }
    }
    if let Some(e) = outcome.exception {
        exception_is_told_in_four_variables(env1, e, name);
    }
}

} // verus!
