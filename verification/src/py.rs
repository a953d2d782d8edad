//! The `py` command: its options, what it runs, and what becomes of the outcome.

use std::collections::BTreeMap;

use vstd::prelude::*;
use vstd::slice::slice_subrange;

use crate::dedent;
use crate::dedent::dedent_text;
use crate::env;
use crate::env::ScopeView;
use crate::indexed;
use crate::results;
use crate::results::{ExecutionExitCode, ExecutionResult};
use crate::shell::{Shell, ShellView};
use crate::text;
use crate::text::{chars_of, parse_digits, push_decimal, same_text};
use crate::variables;
use crate::variables::{ShellValue, ShellVariable, ValueView, VariableView};

verus! {

/// The options of a `py` command.
#[derive(Debug)]
pub struct ParsedOptions<'a> {
    /// Evaluate an expression.
    pub expression_mode: bool,
    /// Set variables for a Python exception in place of a traceback.
    pub structured_exceptions: bool,
    /// Keep the indentation of a script as it is.
    pub no_dedent: bool,
    /// The variable that takes what Python prints.
    pub capture_stdout_var: Option<String>,
    /// The variable that takes the result.
    pub capture_result_var: Option<String>,
    /// The variable to tie.
    pub tie_var: Option<String>,
    /// The variable to untie.
    pub untie_var: Option<String>,
    /// The arguments behind the options.
    pub remaining: &'a [String],
}

/// What the options of a `py` command are, and how many arguments they take.
#[verifier::ext_equal]
pub struct OptionsView {
    /// Evaluate an expression.
    pub expression_mode: bool,
    /// Set variables for a Python exception in place of a traceback.
    pub structured_exceptions: bool,
    /// Keep the indentation of a script as it is.
    pub no_dedent: bool,
    /// The variable that takes what Python prints.
    pub capture_stdout_var: Option<Seq<char>>,
    /// The variable that takes the result.
    pub capture_result_var: Option<Seq<char>>,
    /// The variable to tie.
    pub tie_var: Option<Seq<char>>,
    /// The variable to untie.
    pub untie_var: Option<Seq<char>>,
    /// How many arguments the options take.
    pub taken: int,
}

/// No option given.
pub open spec fn no_options() -> OptionsView {
    OptionsView {
        expression_mode: false,
        structured_exceptions: false,
        no_dedent: false,
        capture_stdout_var: None,
        capture_result_var: None,
        tie_var: None,
        untie_var: None,
        taken: 0,
    }
}

/// The texts of arguments.
pub open spec fn arg_texts(args: Seq<String>) -> Seq<Seq<char>> {
    args.map_values(|a: String| a@)
}

/// Reads options from the arguments behind those that `o` takes. Where an option that needs a
/// variable name has none, there are no options. The first argument that is no option ends them,
/// and so does `--`, which is dropped.
pub open spec fn options_from(args: Seq<Seq<char>>, o: OptionsView) -> Option<OptionsView>
    decreases args.len() - o.taken,
{
    let i = o.taken;
    if i < 0 || i >= args.len() {
        Some(o)
    } else if args[i] == "--"@ {
        Some(OptionsView { taken: i + 1, ..o })
    } else if args[i] == "-e"@ {
        options_from(args, OptionsView { expression_mode: true, taken: i + 1, ..o })
    } else if args[i] == "-x"@ {
        options_from(args, OptionsView { structured_exceptions: true, taken: i + 1, ..o })
    } else if args[i] == "--no-dedent"@ {
        options_from(args, OptionsView { no_dedent: true, taken: i + 1, ..o })
    } else if args[i] == "-v"@ || args[i] == "-r"@ || args[i] == "-t"@ || args[i] == "-u"@ {
        if i + 1 >= args.len() {
            None
        } else {
            let var = Some(args[i + 1]);
            let next = OptionsView { taken: i + 2, ..o };
            if args[i] == "-v"@ {
                options_from(args, OptionsView { capture_stdout_var: var, ..next })
            } else if args[i] == "-r"@ {
                options_from(args, OptionsView { capture_result_var: var, ..next })
            } else if args[i] == "-t"@ {
                options_from(args, OptionsView { tie_var: var, ..next })
            } else {
                options_from(args, OptionsView { untie_var: var, ..next })
            }
        }
    } else {
        Some(o)
    }
}

/// The options of a `py` command; none where an option lacks its variable name, or where a variable
/// is to be tied and one to be untied.
pub open spec fn parsed_options(args: Seq<Seq<char>>) -> Option<OptionsView> {
    match options_from(args, no_options()) {
        Some(o) => if o.tie_var is Some && o.untie_var is Some {
            None
        } else {
            Some(o)
        },
        None => None,
    }
}

/// Whether an argument is an option.
pub open spec fn is_option(arg: Seq<char>) -> bool {
    ||| arg == "--"@
    ||| arg == "-e"@
    ||| arg == "-x"@
    ||| arg == "--no-dedent"@
    ||| arg == "-v"@
    ||| arg == "-r"@
    ||| arg == "-t"@
    ||| arg == "-u"@
}

/// The options take arguments from the front: those behind them start with one that is no option,
/// unless `--` stands before it.
pub proof fn options_end_at_other_argument(args: Seq<Seq<char>>)
    requires
        parsed_options(args) is Some,
    ensures
        ({
            let taken = parsed_options(args)->Some_0.taken;
            &&& 0 <= taken <= args.len()
            &&& taken < args.len() && is_option(args[taken]) ==> taken > 0 && args[taken - 1]
                == "--"@
        }),
{
    lemma_options_end(args, no_options());
}

proof fn lemma_options_end(args: Seq<Seq<char>>, o: OptionsView)
    requires
        0 <= o.taken <= args.len(),
    ensures
        options_from(args, o) matches Some(end) ==> {
            &&& o.taken <= end.taken <= args.len()
            &&& end.taken < args.len() && is_option(args[end.taken]) ==> end.taken > 0
                && args[end.taken - 1] == "--"@
        },
    decreases args.len() - o.taken,
{
    let i = o.taken;
    if i < args.len() && args[i] != "--"@ {
        if args[i] == "-e"@ {
            lemma_options_end(args, OptionsView { expression_mode: true, taken: i + 1, ..o });
        } else if args[i] == "-x"@ {
            lemma_options_end(
                args,
                OptionsView { structured_exceptions: true, taken: i + 1, ..o },
            );
        } else if args[i] == "--no-dedent"@ {
            lemma_options_end(args, OptionsView { no_dedent: true, taken: i + 1, ..o });
        } else if is_option(args[i]) && i + 1 < args.len() {
            let var = Some(args[i + 1]);
            let next = OptionsView { taken: i + 2, ..o };
            lemma_options_end(args, OptionsView { capture_stdout_var: var, ..next });
            lemma_options_end(args, OptionsView { capture_result_var: var, ..next });
            lemma_options_end(args, OptionsView { tie_var: var, ..next });
            lemma_options_end(args, OptionsView { untie_var: var, ..next });
        }
    }
}

/// Behind `--` there are no options.
pub proof fn double_dash_ends_options(args: Seq<Seq<char>>)
    ensures
        parsed_options(seq!["--"@] + args) == Some(OptionsView { taken: 1, ..no_options() }),
{
    assert((seq!["--"@] + args)[0] == "--"@);
}

/// Arguments whose first is no option are all kept.
pub proof fn other_first_argument_is_kept(args: Seq<Seq<char>>)
    requires
        args.len() > 0,
        !is_option(args[0]),
    ensures
        parsed_options(args) == Some(no_options()),
{
}

impl<'a> ParsedOptions<'a> {
    /// Whether the options are `o`, read from `args`.
    pub open spec fn agrees_with(self, args: Seq<Seq<char>>, o: OptionsView) -> bool {
        &&& self.expression_mode == o.expression_mode
        &&& self.structured_exceptions == o.structured_exceptions
        &&& self.no_dedent == o.no_dedent
        &&& text::optional_text(self.capture_stdout_var) == o.capture_stdout_var
        &&& text::optional_text(self.capture_result_var) == o.capture_result_var
        &&& text::optional_text(self.tie_var) == o.tie_var
        &&& text::optional_text(self.untie_var) == o.untie_var
        &&& 0 <= o.taken <= args.len()
        &&& arg_texts(self.remaining@) == args.skip(o.taken)
    }
}

/// Reads the options of a `py` command.
pub fn parse_options<'a>(args: &'a [String]) -> (r: Result<ParsedOptions<'a>, ()>)
    ensures
        match parsed_options(arg_texts(args@)) {
            Some(o) => r matches Ok(options) && options.agrees_with(arg_texts(args@), o),
            None => r is Err,
        },
{
    let ghost texts = arg_texts(args@);
    let mut expression_mode = false;
    let mut structured_exceptions = false;
    let mut no_dedent = false;
    let mut capture_stdout_var: Option<String> = None;
    let mut capture_result_var: Option<String> = None;
    let mut tie_var: Option<String> = None;
    let mut untie_var: Option<String> = None;
    let ghost mut o = no_options();
    let mut i: usize = 0;
    let mut more = true;
    while more && i < args.len()
        invariant
            texts == arg_texts(args@),
            i <= args@.len(),
            o.taken == i,
            o.expression_mode == expression_mode,
            o.structured_exceptions == structured_exceptions,
            o.no_dedent == no_dedent,
            o.capture_stdout_var == text::optional_text(capture_stdout_var),
            o.capture_result_var == text::optional_text(capture_result_var),
            o.tie_var == text::optional_text(tie_var),
            o.untie_var == text::optional_text(untie_var),
            more ==> options_from(texts, no_options()) == options_from(texts, o),
            !more ==> options_from(texts, no_options()) == Some(o),
        decreases args@.len() - i + (if more {
            1int
        } else {
            0
        }),
    {
        let arg = args[i].as_str();
        assert(arg@ == texts[i as int]);
        if same_text(arg, "--") {
            i += 1;
            more = false;
            proof {
                o = OptionsView { taken: i as int, ..o };
            }
        } else if same_text(arg, "-e") {
            expression_mode = true;
            i += 1;
            proof {
                o = OptionsView { expression_mode: true, taken: i as int, ..o };
            }
        } else if same_text(arg, "-x") {
            structured_exceptions = true;
            i += 1;
            proof {
                o = OptionsView { structured_exceptions: true, taken: i as int, ..o };
            }
        } else if same_text(arg, "--no-dedent") {
            no_dedent = true;
            i += 1;
            proof {
                o = OptionsView { no_dedent: true, taken: i as int, ..o };
            }
        } else if same_text(arg, "-v") || same_text(arg, "-r") || same_text(arg, "-t")
            || same_text(arg, "-u") {
            if i + 1 >= args.len() {
                return Err(());
            }
            let var = args[i + 1].clone();
            assert(var@ == texts[i + 1]);
            proof {
                o = OptionsView { taken: i + 2, ..o };
            }
            if same_text(arg, "-v") {
                proof {
                    o = OptionsView { capture_stdout_var: Some(var@), ..o };
                }
                capture_stdout_var = Some(var);
            } else if same_text(arg, "-r") {
                proof {
                    o = OptionsView { capture_result_var: Some(var@), ..o };
                }
                capture_result_var = Some(var);
            } else if same_text(arg, "-t") {
                proof {
                    o = OptionsView { tie_var: Some(var@), ..o };
                }
                tie_var = Some(var);
            } else {
                proof {
                    o = OptionsView { untie_var: Some(var@), ..o };
                }
                untie_var = Some(var);
            }
            i += 2;
        } else {
            more = false;
        }
    }
    if tie_var.is_some() && untie_var.is_some() {
        return Err(());
    }
    let remaining = slice_subrange(args, i, args.len());
    assert(arg_texts(remaining@) =~= texts.skip(i as int));
    Ok(
        ParsedOptions {
            expression_mode,
            structured_exceptions,
            no_dedent,
            capture_stdout_var,
            capture_result_var,
            tie_var,
            untie_var,
            remaining,
        },
    )
}

/// What a character is written as between single quotes.
pub open spec fn escaped_char(c: char) -> Seq<char> {
    if c == '\\' || c == '\'' {
        seq!['\\', c]
    } else {
        seq![c]
    }
}

/// What a text is written as between single quotes.
pub open spec fn escaped(s: Seq<char>) -> Seq<char>
    decreases s.len(),
{
    if s.len() == 0 {
        seq![]
    } else {
        escaped(s.drop_last()) + escaped_char(s.last())
    }
}

/// The Python string literal that stands for a text.
pub open spec fn quoted(s: Seq<char>) -> Seq<char> {
    seq!['\''] + escaped(s) + seq!['\'']
}

/// Reads a Python string literal from behind its opening quote: the text up to the closing quote,
/// and what stands behind that.
pub open spec fn read_literal(t: Seq<char>) -> Option<(Seq<char>, Seq<char>)>
    decreases t.len(),
{
    if t.len() == 0 {
        None
    } else if t[0] == '\'' {
        Some((seq![], t.skip(1)))
    } else if t[0] == '\\' {
        if t.len() == 1 {
            None
        } else {
            match read_literal(t.skip(2)) {
                Some((s, rest)) => Some((seq![t[1]] + s, rest)),
                None => None,
            }
        }
    } else {
        match read_literal(t.skip(1)) {
            Some((s, rest)) => Some((seq![t[0]] + s, rest)),
            None => None,
        }
    }
}

/// A text is escaped part by part.
pub proof fn lemma_escaped_concat(a: Seq<char>, b: Seq<char>)
    ensures
        escaped(a + b) == escaped(a) + escaped(b),
    decreases b.len(),
{
    if b.len() == 0 {
        assert(a + b =~= a);
        assert(escaped(a) + escaped(b) =~= escaped(a));
    } else {
        lemma_escaped_concat(a, b.drop_last());
        assert((a + b).drop_last() =~= a + b.drop_last());
        assert((a + b).last() == b.last());
        assert(escaped(a) + (escaped(b.drop_last()) + escaped_char(b.last())) =~= escaped(a)
            + escaped(b.drop_last()) + escaped_char(b.last()));
    }
}

/// A quoted text reads back as the text, whatever it holds and whatever follows it.
pub proof fn quoted_text_reads_back(s: Seq<char>, rest: Seq<char>)
    ensures
        quoted(s)[0] == '\'',
        read_literal((quoted(s) + rest).skip(1)) == Some((s, rest)),
{
    assert((quoted(s) + rest).skip(1) =~= escaped(s) + (seq!['\''] + rest));
    lemma_reads_back(s, rest);
}

proof fn lemma_reads_back(s: Seq<char>, rest: Seq<char>)
    ensures
        read_literal(escaped(s) + (seq!['\''] + rest)) == Some((s, rest)),
    decreases s.len(),
{
    let tail = seq!['\''] + rest;
    let t = escaped(s) + tail;
    if s.len() == 0 {
        assert(t =~= tail);
        assert(t.skip(1) =~= rest);
    } else {
        let first = seq![s[0]];
        let more = s.drop_first();
        assert(s =~= first + more);
        lemma_escaped_concat(first, more);
        assert(first.drop_last() =~= Seq::<char>::empty());
        assert(escaped(first.drop_last()) =~= Seq::<char>::empty());
        assert(escaped(first) =~= escaped_char(s[0]));
        lemma_reads_back(more, rest);
        let e = escaped_char(s[0]);
        assert(t =~= e + (escaped(more) + tail));
        assert(t.skip(e.len() as int) =~= escaped(more) + tail);
    }
}

/// The Python string literal that stands for `s`.
pub fn python_quote_single(s: &str) -> (r: String)
    ensures
        r@ == quoted(s@),
{
    let chars = chars_of(s);
    let mut r = String::new();
    r.push('\'');
    let mut i: usize = 0;
    assert(s@.take(0) =~= Seq::<char>::empty());
    assert(r@ =~= seq!['\''] + escaped(s@.take(0)));
    while i < chars.len()
        invariant
            chars@ == s@,
            i <= chars@.len(),
            r@ == seq!['\''] + escaped(s@.take(i as int)),
        decreases chars@.len() - i,
    {
        let c = chars[i];
        assert(s@.take(i + 1).drop_last() =~= s@.take(i as int));
        if c == '\\' || c == '\'' {
            r.push('\\');
        }
        r.push(c);
        i += 1;
        assert(r@ =~= seq!['\''] + escaped(s@.take(i as int)));
    }
    assert(s@.take(i as int) =~= s@);
    r.push('\'');
    r
}

/// What an argument that names a file descriptor says: the descriptor, and whether to close it.
/// Such an argument is `-N` or `-N-`, where `N` holds only digits.
pub open spec fn fd_spec(s: Seq<char>) -> Option<(int, bool)> {
    let close = s.len() >= 2 && s.last() == '-';
    let digits = if close {
        s.subrange(1, s.len() - 1)
    } else {
        s.skip(1)
    };
    if s.len() < 2 || s[0] != '-' || digits.len() == 0 || !text::all_digits(digits)
        || text::decimal_value(digits) > i32::MAX {
        None
    } else {
        Some((text::decimal_value(digits) as int, close))
    }
}

/// Reads an argument that names a file descriptor.
pub fn parse_fd_spec(s: &str) -> (r: Option<(i32, bool)>)
    ensures
        match r {
            Some((fd, close)) => fd_spec(s@) == Some((fd as int, close)),
            None => fd_spec(s@) is None,
        },
{
    let chars = chars_of(s);
    if chars.len() < 2 || chars[0] != '-' {
        return None;
    }
    let close = chars[chars.len() - 1] == '-';
    let end = if close {
        chars.len() - 1
    } else {
        chars.len()
    };
    proof {
        if !close {
            assert(s@.skip(1) =~= s@.subrange(1, s@.len() as int));
        }
    }
    match parse_digits(&chars, 1, end, 0x7fff_ffff) {
        Some(fd) => Some((fd as i32, close)),
        None => None,
    }
}

/// How Python runs code.
#[derive(Clone, Copy, Debug, PartialEq, Eq, Structural)]
pub struct PyExecOptions {
    /// Evaluate an expression.
    pub expression_mode: bool,
    /// Report an exception in place of printing a traceback.
    pub structured_exceptions: bool,
}

impl Default for PyExecOptions {
    fn default() -> (r: Self)
        ensures
            r == plain_run(),
    {
        PyExecOptions { expression_mode: false, structured_exceptions: false }
    }
}

/// Statements, with tracebacks printed.
pub open spec fn plain_run() -> PyExecOptions {
    PyExecOptions { expression_mode: false, structured_exceptions: false }
}

/// What a `py` command does first.
#[derive(Debug, PartialEq, Eq)]
pub enum PyStep {
    /// Reports a message and ends.
    Refuse {
        /// The message.
        message: String,
        /// What the command ends with.
        result: ExecutionResult,
    },
    /// Runs code.
    RunCode {
        /// The code.
        code: String,
        /// How it is run.
        options: PyExecOptions,
    },
    /// Reads a script from a file descriptor and runs it.
    ReadScript {
        /// The file descriptor.
        fd: i32,
        /// Whether the descriptor is closed once the script has been read.
        close_after: bool,
        /// Whether the script keeps its indentation.
        no_dedent: bool,
        /// How the script is run.
        options: PyExecOptions,
    },
    /// Runs the arguments: a call where the first names a callable, and otherwise statements.
    Dispatch {
        /// How they are run.
        options: PyExecOptions,
    },
}

/// What a `py` command does first.
#[verifier::ext_equal]
pub enum StepView {
    /// Reports a message and ends.
    Refuse(Seq<char>, ExecutionResult),
    /// Runs code.
    RunCode(Seq<char>, PyExecOptions),
    /// Reads a script from a file descriptor, closes it if so asked, and runs the script, with its
    /// indentation if so asked.
    ReadScript(int, bool, bool, PyExecOptions),
    /// Runs the arguments.
    Dispatch(PyExecOptions),
}

impl View for PyStep {
    type V = StepView;

    open spec fn view(&self) -> StepView {
        match self {
            PyStep::Refuse { message, result } => StepView::Refuse(message@, *result),
            PyStep::RunCode { code, options } => StepView::RunCode(code@, *options),
            PyStep::ReadScript { fd, close_after, no_dedent, options } => StepView::ReadScript(
                *fd as int,
                *close_after,
                *no_dedent,
                *options,
            ),
            PyStep::Dispatch { options } => StepView::Dispatch(*options),
        }
    }
}

/// The Python code that ties a shell variable to the Python global of the same name.
pub open spec fn tie_code(name: Seq<char>) -> Seq<char> {
    let q = quoted(name);
    "bash.tie("@ + q + ", lambda: globals().get("@ + q
        + ", ''), lambda v: globals().__setitem__("@ + q + ", v))"@
}

/// The Python code that unties a shell variable.
pub open spec fn untie_code(name: Seq<char>) -> Seq<char> {
    "bash.untie("@ + quoted(name) + ")"@
}

/// Refusing a command that is not used as it should be.
pub open spec fn misused(message: Seq<char>) -> StepView {
    StepView::Refuse(message, results::ended_with(ExecutionExitCode::InvalidUsage))
}

/// What a `py` command with the given options and further arguments does first.
pub open spec fn planned(
    tie: Option<Seq<char>>,
    untie: Option<Seq<char>>,
    no_dedent: bool,
    options: PyExecOptions,
    rest: Seq<Seq<char>>,
) -> StepView {
    if let Some(name) = tie {
        if rest.len() > 0 {
            misused("py: -t expects only a variable name"@)
        } else {
            StepView::RunCode(tie_code(name), plain_run())
        }
    } else if let Some(name) = untie {
        if rest.len() > 0 {
            misused("py: -u expects only a variable name"@)
        } else {
            StepView::RunCode(untie_code(name), plain_run())
        }
    } else if rest.len() == 0 {
        misused("py: expected arguments"@)
    } else {
        match fd_spec(rest[0]) {
            Some((fd, close)) => if rest.len() != 1 {
                misused("py: fd mode expects exactly one argument (e.g. -5 or -5-)"@)
            } else {
                StepView::ReadScript(fd, close, no_dedent, options)
            },
            None => StepView::Dispatch(options),
        }
    }
}

/// Refuses a command that is not used as it should be.
fn misuse(message: &str) -> (r: PyStep)
    ensures
        r@ == misused(message@),
{
    PyStep::Refuse {
        message: message.to_owned(),
        result: ExecutionResult::new(ExecutionExitCode::InvalidUsage),
    }
}

/// Says what a `py` command does first, from what reading its options gave.
pub fn plan<'a>(parsed: &Result<ParsedOptions<'a>, ()>) -> (r: PyStep)
    ensures
        match parsed {
            Err(_) => r@ == misused("py: invalid option usage"@),
            Ok(o) => r@ == planned(
                text::optional_text(o.tie_var),
                text::optional_text(o.untie_var),
                o.no_dedent,
                (PyExecOptions {
                    expression_mode: o.expression_mode,
                    structured_exceptions: o.structured_exceptions,
                }),
                arg_texts(o.remaining@),
            ),
        },
{
    let o = match parsed {
        Err(_) => {
            return misuse("py: invalid option usage");
        },
        Ok(o) => o,
    };
    let options = PyExecOptions {
        expression_mode: o.expression_mode,
        structured_exceptions: o.structured_exceptions,
    };
    if let Some(name) = &o.tie_var {
        if o.remaining.len() > 0 {
            return misuse("py: -t expects only a variable name");
        }
        let q = python_quote_single(name.as_str());
        let mut code = "bash.tie(".to_owned();
        code.append(q.as_str());
        code.append(", lambda: globals().get(");
        code.append(q.as_str());
        code.append(", ''), lambda v: globals().__setitem__(");
        code.append(q.as_str());
        code.append(", v))");
        return PyStep::RunCode { code, options: PyExecOptions::default() };
    }
    if let Some(name) = &o.untie_var {
        if o.remaining.len() > 0 {
            return misuse("py: -u expects only a variable name");
        }
        let mut code = "bash.untie(".to_owned();
        code.append(python_quote_single(name.as_str()).as_str());
        code.append(")");
        return PyStep::RunCode { code, options: PyExecOptions::default() };
    }
    if o.remaining.len() == 0 {
        return misuse("py: expected arguments");
    }
    assert(arg_texts(o.remaining@)[0] == o.remaining@[0]@);
    match parse_fd_spec(o.remaining[0].as_str()) {
        Some((fd, close_after)) => if o.remaining.len() != 1 {
            misuse("py: fd mode expects exactly one argument (e.g. -5 or -5-)")
        } else {
            PyStep::ReadScript { fd, close_after, no_dedent: o.no_dedent, options }
        },
        None => PyStep::Dispatch { options },
    }
}

/// The decimal digits of a number, behind a `-` where it is negative.
pub open spec fn signed_text(n: int) -> Seq<char> {
    if n < 0 {
        seq!['-'] + text::decimal_text((-n) as nat)
    } else {
        text::decimal_text(n as nat)
    }
}

/// What a `py` command does with a script from a file descriptor: where the descriptor is not open,
/// it ends; otherwise it runs the script, without its common indentation unless that is to be kept.
pub open spec fn script_planned(
    fd: int,
    script: Option<Seq<char>>,
    no_dedent: bool,
    options: PyExecOptions,
) -> StepView {
    match script {
        None => StepView::Refuse(
            "py: bad file descriptor: "@ + signed_text(fd),
            results::ended_with(ExecutionExitCode::GeneralError),
        ),
        Some(script) => StepView::RunCode(
            if no_dedent {
                script
            } else {
                dedent::dedented(script)
            },
            options,
        ),
    }
}

/// Says what a `py` command does with a script from a file descriptor; there is none where the
/// descriptor is not open.
pub fn plan_script(fd: i32, script: Option<&str>, no_dedent: bool, options: PyExecOptions) -> (r:
    PyStep)
    ensures
        r@ == script_planned(
            fd as int,
            (match script {
                Some(script) => Some(script@),
                None => None,
            }),
            no_dedent,
            options,
        ),
        r is Refuse || r is RunCode,
        script matches Some(script) ==> r@ == StepView::RunCode(
            if no_dedent {
                script@
            } else {
                dedent::dedented(script@)
            },
            options,
        ),
{
    match script {
        None => {
            let mut message = "py: bad file descriptor: ".to_owned();
            if fd < 0 {
                message.push('-');
                push_decimal(&mut message, (-(fd as i64)) as u64);
            } else {
                push_decimal(&mut message, fd as u64);
            }
            assert(message@ =~= "py: bad file descriptor: "@ + signed_text(fd as int));
            PyStep::Refuse {
                message,
                result: ExecutionResult::new(ExecutionExitCode::GeneralError),
            }
        },
        Some(script) => {
            let code = if no_dedent {
                script.to_owned()
            } else {
                dedent_text(script)
            };
            PyStep::RunCode { code, options }
        },
    }
}

/// A Python exception.
#[derive(Debug, PartialEq, Eq)]
pub struct PyException {
    /// The name of its type.
    pub name: String,
    /// Its message.
    pub message: String,
    /// The lines of its traceback.
    pub traceback: Vec<String>,
}

/// What running Python gave.
#[derive(Debug, PartialEq, Eq)]
pub struct PyExecOutcome {
    /// What it printed.
    pub stdout: String,
    /// Its value, if it has one.
    pub value: Option<String>,
    /// The exception that it ended in, if it did.
    pub exception: Option<PyException>,
    /// What the command ends with.
    pub result: ExecutionResult,
}

/// A string variable.
pub open spec fn string_variable(s: Seq<char>) -> VariableView {
    variables::plain(ValueView::Text(s))
}

/// The indexed array of lines, from index 0.
pub open spec fn line_array(lines: Seq<Seq<char>>) -> Map<u64, Seq<char>> {
    Map::new(|k: u64| k < lines.len(), |k: u64| lines[k as int])
}

/// The variables with those set that tell of an exception.
pub open spec fn with_exception(env: Seq<ScopeView>, e: PyException) -> Seq<ScopeView> {
    let env1 = env::with_variable(env, 0, "MCBASH_EXCEPTION"@, string_variable(e.name@));
    let env2 = env::with_variable(env1, 0, "MCBASH_EXCEPTION_MSG"@, string_variable(e.message@));
    let env3 = env::with_variable(
        env2,
        0,
        "MCBASH_EXCEPTION_TB"@,
        variables::plain(ValueView::Array(line_array(arg_texts(e.traceback@)))),
    );
    env::with_variable(env3, 0, "MCBASH_EXCEPTION_LANG"@, string_variable("python"@))
}

/// The variables after what Python printed and its value have been captured.
pub open spec fn with_captures<'a>(
    env: Seq<ScopeView>,
    outcome: PyExecOutcome,
    options: ParsedOptions<'a>,
) -> Seq<ScopeView> {
    let env1 = match options.capture_stdout_var {
        Some(var) => env::with_variable(env, 0, var@, string_variable(outcome.stdout@)),
        None => env,
    };
    match options.capture_result_var {
        Some(var) => env::with_variable(
            env1,
            0,
            var@,
            string_variable(
                match outcome.value {
                    Some(value) => value@,
                    None => seq![],
                },
            ),
        ),
        None => env1,
    }
}

/// The variables after a run of Python: what is to be captured is, and an exception is told of where
/// that was asked for.
pub open spec fn finalized<'a>(
    env: Seq<ScopeView>,
    outcome: PyExecOutcome,
    options: ParsedOptions<'a>,
) -> Seq<ScopeView> {
    match outcome.exception {
        Some(e) if options.structured_exceptions => with_exception(
            with_captures(env, outcome, options),
            e,
        ),
        _ => with_captures(env, outcome, options),
    }
}

/// What the command prints: what Python printed and, on a line of its own, the value, each unless it
/// is captured.
pub open spec fn printed<'a>(outcome: PyExecOutcome, options: ParsedOptions<'a>) -> Seq<char> {
    let stdout = if options.capture_stdout_var is Some {
        seq![]
    } else {
        outcome.stdout@
    };
    let value = match outcome.value {
        Some(value) if options.capture_result_var is None => value@.push('\n'),
        _ => seq![],
    };
    stdout + value
}

/// Sets the variables that tell of an exception.
pub fn apply_structured_exception(shell: &mut Shell, e: &PyException)
    requires
        old(shell).wf(),
    ensures
        final(shell).wf(),
        final(shell)@ == (ShellView { env: with_exception(old(shell)@.env, *e), ..old(shell)@ }),
{
    let mut lines: BTreeMap<u64, String> = BTreeMap::new();
    let mut i: usize = 0;
    let ghost all = arg_texts(e.traceback@);
    assert(indexed::array_texts(lines@) =~= line_array(all.take(0)));
    while i < e.traceback.len()
        invariant
            all == arg_texts(e.traceback@),
            i <= e.traceback.len(),
            indexed::array_texts(lines@) == line_array(all.take(i as int)),
        decreases e.traceback@.len() - i,
    {
        let ghost before = lines@;
        let line = e.traceback[i].clone();
        proof {
            assert(line@ == all[i as int]);
            assert(line_array(all.take(i + 1)) =~= line_array(all.take(i as int)).insert(
                i as u64,
                line@,
            ));
        }
        let ghost text = line@;
        lines.insert(i as u64, line);
        assert(indexed::array_texts(lines@) =~= indexed::array_texts(before).insert(
            i as u64,
            text,
        ));
        i += 1;
    }
    assert(all.take(i as int) =~= all);
    let env = shell.env_mut();
    env.set_global("MCBASH_EXCEPTION", ShellVariable::new(ShellValue::String(e.name.clone())));
    env.set_global(
        "MCBASH_EXCEPTION_MSG",
        ShellVariable::new(ShellValue::String(e.message.clone())),
    );
    env.set_global("MCBASH_EXCEPTION_TB", ShellVariable::new(ShellValue::IndexedArray(lines)));
    env.set_global(
        "MCBASH_EXCEPTION_LANG",
        ShellVariable::new(ShellValue::String("python".to_owned())),
    );
}

/// Captures or prints what Python gave, and says what the command ends with. Returns what is to be
/// printed.
pub fn finalize_outcome<'a>(
    shell: &mut Shell,
    outcome: &PyExecOutcome,
    options: &ParsedOptions<'a>,
) -> (r: (String, ExecutionResult))
    requires
        old(shell).wf(),
    ensures
        final(shell).wf(),
        final(shell)@ == (ShellView {
            env: finalized(old(shell)@.env, *outcome, *options),
            ..old(shell)@
        }),
        r.0@ == printed(*outcome, *options),
        options.capture_stdout_var is None ==> outcome.stdout@.is_prefix_of(r.0@),
        r.1 == outcome.result,
{
    let mut out = String::new();
    if let Some(var) = &options.capture_stdout_var {
        shell.env_mut().set_global(
            var.as_str(),
            ShellVariable::new(ShellValue::String(outcome.stdout.clone())),
        );
    } else {
        out.append(outcome.stdout.as_str());
    }
    if let Some(var) = &options.capture_result_var {
        let value = match &outcome.value {
            Some(value) => value.clone(),
            None => String::new(),
        };
        shell.env_mut().set_global(var.as_str(), ShellVariable::new(ShellValue::String(value)));
    } else if let Some(value) = &outcome.value {
        out.append(value.as_str());
        out.push('\n');
    }
    assert(out@ =~= printed(*outcome, *options));
    if options.structured_exceptions {
        if let Some(e) = &outcome.exception {
            apply_structured_exception(shell, e);
        }
    }
    (out, outcome.result)
}

} // verus!
