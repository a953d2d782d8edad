use std::collections::BTreeMap;

use brush_bridge::cancel::{check_flag, CancellationToken};
use brush_bridge::dedent::dedent_text;
use brush_bridge::error::Error;
use brush_bridge::py::{
    apply_structured_exception, finalize_outcome, parse_fd_spec, parse_options, plan, plan_script,
    python_quote_single, PyExecOptions, PyExecOutcome, PyException, PyStep,
};
use brush_bridge::python::PythonContext;
use brush_bridge::results::{ExecutionControlFlow, ExecutionExitCode, ExecutionResult};
use brush_bridge::shell::Shell;
use brush_bridge::variables::ShellValue;

fn strings(list: &[&str]) -> Vec<String> {
    list.iter().map(|s| s.to_string()).collect()
}

fn value_of(shell: &Shell, name: &str) -> ShellValue {
    shell.env().get(name).unwrap().1.value().clone()
}

fn text_of(shell: &Shell, name: &str) -> String {
    value_of(shell, name).to_text()
}

#[test]
fn parses_fd_specs() {
    assert_eq!(parse_fd_spec("-5"), Some((5, false)));
    assert_eq!(parse_fd_spec("-5-"), Some((5, true)));
    assert_eq!(parse_fd_spec("-0012-"), Some((12, true)));
    assert_eq!(parse_fd_spec("5"), None);
    assert_eq!(parse_fd_spec("-"), None);
    assert_eq!(parse_fd_spec("-x"), None);
}

#[test]
fn dedents_common_indent() {
    let input = "    a\n      b\n    c\n";
    let output = dedent_text(input);
    assert_eq!(output, "a\n  b\nc\n");
}

#[test]
fn parses_options_and_rest() {
    let args = vec![
        "-x".to_string(),
        "-e".to_string(),
        "-v".to_string(),
        "OUT".to_string(),
        "-r".to_string(),
        "RET".to_string(),
        "expr".to_string(),
    ];
    let parsed = parse_options(&args).expect("options should parse");
    assert!(parsed.expression_mode);
    assert!(parsed.structured_exceptions);
    assert_eq!(parsed.capture_stdout_var.as_deref(), Some("OUT"));
    assert_eq!(parsed.capture_result_var.as_deref(), Some("RET"));
    assert_eq!(parsed.tie_var, None);
    assert_eq!(parsed.untie_var, None);
    assert_eq!(parsed.remaining, ["expr"]);
}

#[test]
fn parses_tie_and_untie_options() {
    let t = vec!["-t".to_string(), "x".to_string()];
    let parsed_t = parse_options(&t).expect("tie options should parse");
    assert_eq!(parsed_t.tie_var.as_deref(), Some("x"));
    assert_eq!(parsed_t.untie_var, None);
    assert!(parsed_t.remaining.is_empty());

    let u = vec!["-u".to_string(), "x".to_string()];
    let parsed_u = parse_options(&u).expect("untie options should parse");
    assert_eq!(parsed_u.tie_var, None);
    assert_eq!(parsed_u.untie_var.as_deref(), Some("x"));
    assert!(parsed_u.remaining.is_empty());
}

#[test]
fn fd_spec_edges() {
    assert_eq!(parse_fd_spec("--"), None);
    assert_eq!(parse_fd_spec(""), None);
    assert_eq!(parse_fd_spec("-+5"), None);
    assert_eq!(parse_fd_spec("-5--"), None);
    assert_eq!(parse_fd_spec("-é"), None);
    assert_eq!(parse_fd_spec("-2147483647"), Some((i32::MAX, false)));
    assert_eq!(parse_fd_spec("-2147483648"), None);
    assert_eq!(parse_fd_spec("-99999999999999999999999-"), None);
}

#[test]
fn dedent_edges() {
    assert_eq!(dedent_text(""), "");
    assert_eq!(dedent_text("\n"), "\n");
    assert_eq!(dedent_text("a"), "a");
    assert_eq!(dedent_text("  a\n\n \n   b"), "a\n\n\n b");
    assert_eq!(dedent_text("\t a\n\t  b\n"), "a\n b\n");
    assert_eq!(dedent_text("  a\r\n  b\r\n"), "a\nb\n");
    assert_eq!(dedent_text("  a\n  b\r"), "a\nb\r");
    assert_eq!(dedent_text("   \n  \n"), "   \n  \n");
    assert_eq!(dedent_text("a\n    b\n"), "a\n    b\n");
}

#[test]
fn dedenting_twice_is_dedenting_once() {
    for input in ["  a\n    b\n  ", "\ta\r\n\t\tb", "   \n\n", " x\n\n y\n", "a\r"] {
        let once = dedent_text(input);
        assert_eq!(dedent_text(&once), once);
    }
    assert_eq!(dedent_text("x\r\r\n"), "x\r\n");
}

#[test]
fn option_edges() {
    assert!(parse_options(&strings(&["-v"])).is_err());
    assert!(parse_options(&strings(&["-r"])).is_err());
    assert!(parse_options(&strings(&["-e", "-t"])).is_err());
    assert!(parse_options(&strings(&["-u"])).is_err());
    assert!(parse_options(&strings(&["-t", "a", "-u", "b"])).is_err());
    let args = strings(&["-e", "--", "-x", "y"]);
    let parsed = parse_options(&args).unwrap();
    assert!(parsed.expression_mode && !parsed.structured_exceptions);
    assert_eq!(parsed.remaining, ["-x", "y"]);
    let args = strings(&["-q", "-e"]);
    let parsed = parse_options(&args).unwrap();
    assert!(!parsed.expression_mode);
    assert_eq!(parsed.remaining, ["-q", "-e"]);
    let args = strings(&["-v", "A", "-v", "B", "--no-dedent"]);
    let parsed = parse_options(&args).unwrap();
    assert_eq!(parsed.capture_stdout_var.as_deref(), Some("B"));
    assert!(parsed.no_dedent);
    assert!(parsed.remaining.is_empty());
    assert!(parse_options(&[]).unwrap().remaining.is_empty());
}

#[test]
fn quoting_escapes_quotes_and_backslashes() {
    assert_eq!(python_quote_single("x"), "'x'");
    assert_eq!(python_quote_single("it's"), "'it\\'s'");
    assert_eq!(python_quote_single("a\\"), "'a\\\\'");
    assert_eq!(python_quote_single("\\'"), "'\\\\\\''");
    assert_eq!(python_quote_single(""), "''");
}

fn usage(message: &str) -> PyStep {
    PyStep::Refuse {
        message: message.to_string(),
        result: ExecutionResult::new(ExecutionExitCode::InvalidUsage),
    }
}

fn plan_args(args: &[&str]) -> PyStep {
    let args = strings(args);
    plan(&parse_options(&args))
}

#[test]
fn commands_are_planned() {
    assert_eq!(plan_args(&["-v"]), usage("py: invalid option usage"));
    assert_eq!(plan_args(&[]), usage("py: expected arguments"));
    assert_eq!(plan_args(&["-t", "x", "y"]), usage("py: -t expects only a variable name"));
    assert_eq!(plan_args(&["-u", "x", "y"]), usage("py: -u expects only a variable name"));
    assert_eq!(
        plan_args(&["-5", "x"]),
        usage("py: fd mode expects exactly one argument (e.g. -5 or -5-)")
    );
    assert_eq!(
        plan_args(&["-t", "x", "-e"]),
        PyStep::RunCode {
            code: "bash.tie('x', lambda: globals().get('x', ''), \
                   lambda v: globals().__setitem__('x', v))"
                .to_string(),
            options: PyExecOptions::default(),
        }
    );
    assert_eq!(
        plan_args(&["-u", "x"]),
        PyStep::RunCode {
            code: "bash.untie('x')".to_string(),
            options: PyExecOptions::default(),
        }
    );
    let both = PyExecOptions { expression_mode: true, structured_exceptions: true };
    assert_eq!(
        plan_args(&["-e", "-x", "-7-"]),
        PyStep::ReadScript { fd: 7, close_after: true, no_dedent: false, options: both }
    );
    assert_eq!(
        plan_args(&["--no-dedent", "-0"]),
        PyStep::ReadScript {
            fd: 0,
            close_after: false,
            no_dedent: true,
            options: PyExecOptions::default(),
        }
    );
    assert_eq!(
        plan_args(&["-e", "-x", "f", "1"]),
        PyStep::Dispatch { options: both }
    );
}

#[test]
fn scripts_are_dedented_unless_told_otherwise() {
    let options = PyExecOptions::default();
    assert_eq!(
        plan_script(3, Some("  a\n  b\n"), false, options),
        PyStep::RunCode { code: "a\nb\n".to_string(), options }
    );
    assert_eq!(
        plan_script(3, Some("  a\n  b\n"), true, options),
        PyStep::RunCode { code: "  a\n  b\n".to_string(), options }
    );
    let refused = |message: &str| PyStep::Refuse {
        message: message.to_string(),
        result: ExecutionResult::new(ExecutionExitCode::GeneralError),
    };
    assert_eq!(plan_script(12, None, false, options), refused("py: bad file descriptor: 12"));
    assert_eq!(
        plan_script(i32::MIN, None, false, options),
        refused("py: bad file descriptor: -2147483648")
    );
}

fn outcome() -> PyExecOutcome {
    PyExecOutcome {
        stdout: "processing 21 items...\n".to_string(),
        value: Some("42".to_string()),
        exception: None,
        result: ExecutionResult::success(),
    }
}

#[test]
fn output_and_value_are_printed_unless_captured() {
    let mut shell = Shell::new();
    let none = strings(&["process", "21"]);
    let (printed, result) =
        finalize_outcome(&mut shell, &outcome(), &parse_options(&none).unwrap());
    assert_eq!(printed, "processing 21 items...\n42\n");
    assert_eq!(result.exit_code.code(), 0);

    let both = strings(&["-v", "logs", "-r", "result", "process", "21"]);
    let (printed, _) = finalize_outcome(&mut shell, &outcome(), &parse_options(&both).unwrap());
    assert_eq!(printed, "");
    assert_eq!(text_of(&shell, "logs"), "processing 21 items...\n");
    assert_eq!(text_of(&shell, "result"), "42");

    let no_value = PyExecOutcome { value: None, ..outcome() };
    let (printed, _) = finalize_outcome(&mut shell, &no_value, &parse_options(&both).unwrap());
    assert_eq!(printed, "");
    assert_eq!(text_of(&shell, "result"), "");
    let (printed, _) = finalize_outcome(&mut shell, &no_value, &parse_options(&none).unwrap());
    assert_eq!(printed, "processing 21 items...\n");
}

fn failed() -> PyExecOutcome {
    PyExecOutcome {
        stdout: String::new(),
        value: None,
        exception: Some(PyException {
            name: "ValueError".to_string(),
            message: "bad".to_string(),
            traceback: strings(&["Traceback (most recent call last):", "ValueError: bad"]),
        }),
        result: ExecutionResult::new(ExecutionExitCode::GeneralError),
    }
}

#[test]
fn structured_exceptions_set_variables() {
    let mut shell = Shell::new();
    let args = strings(&["-x", "code"]);
    let (_, result) = finalize_outcome(&mut shell, &failed(), &parse_options(&args).unwrap());
    assert_eq!(result.exit_code.code(), 1);
    assert_eq!(text_of(&shell, "MCBASH_EXCEPTION"), "ValueError");
    assert_eq!(text_of(&shell, "MCBASH_EXCEPTION_MSG"), "bad");
    assert_eq!(text_of(&shell, "MCBASH_EXCEPTION_LANG"), "python");
    let mut lines = BTreeMap::new();
    lines.insert(0, "Traceback (most recent call last):".to_string());
    lines.insert(1, "ValueError: bad".to_string());
    assert_eq!(value_of(&shell, "MCBASH_EXCEPTION_TB"), ShellValue::IndexedArray(lines));

    let mut plain = Shell::new();
    let args = strings(&["code"]);
    finalize_outcome(&mut plain, &failed(), &parse_options(&args).unwrap());
    assert!(plain.env().get("MCBASH_EXCEPTION").is_none());

    apply_structured_exception(&mut plain, failed().exception.as_ref().unwrap());
    assert_eq!(text_of(&plain, "MCBASH_EXCEPTION"), "ValueError");
}

#[test]
fn cancellation_is_seen_by_clones() {
    let token = CancellationToken::new();
    assert!(!token.is_cancelled());
    assert_eq!(token.check(), Ok(()));
    let clone = token.clone();
    clone.cancel();
    assert!(token.is_cancelled());
    assert_eq!(token.check(), Err(Error::Interrupted));
    token.reset();
    assert!(!clone.is_cancelled());
    assert!(!CancellationToken::default().is_cancelled());
    assert_eq!(check_flag(true), Err(Error::Interrupted));
    assert_eq!(check_flag(false), Ok(()));
}

#[test]
fn interruption_ends_with_its_own_code() {
    let result = CancellationToken::interrupted_result();
    assert_eq!(result.next_control_flow, ExecutionControlFlow::Normal);
    assert_eq!(result.exit_code, ExecutionExitCode::Interrupted);
    assert_eq!(result.exit_code.code(), 130);
    assert_eq!(ExecutionExitCode::InvalidUsage.code(), 2);
    assert_eq!(ExecutionExitCode::Custom(7).code(), 7);
}

#[test]
fn python_defaults_depend_on_interactivity() {
    let interactive = PythonContext::defaults_for_interactive(true);
    assert!(interactive.globals.is_empty());
    assert!(interactive.implicit_dotted_dispatch);
    assert!(interactive.auto_convert_args);
    let script = PythonContext::defaults_for_interactive(false);
    assert!(!script.implicit_dotted_dispatch);
    assert!(script.auto_convert_args);
    let default = PythonContext::default();
    assert!(!default.implicit_dotted_dispatch && !default.auto_convert_args);
    assert!(default.globals.is_empty());
}
