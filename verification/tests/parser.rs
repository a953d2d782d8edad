use brush_bridge::blocks::{
    find_python_block_insert, preprocess_python_blocks, segment_is_python_command,
    unquoted_pipe_positions,
};
use brush_bridge::parser::{
    collect_tokens, parse_result_to_error, parse_tokens, tokenize_preprocessed_input, Input,
    ParseError, Parser, ParserImpl, ParserOptions, SourceInfo, TokenizerOptions,
};
use brush_bridge::tokenizer::{
    SourcePosition, SourceSpan, Token, TokenEndReason, TokenStep, TokenizeResult, TokenizerError,
};

/// A pipeline: for each command, its words and the bodies of its here-documents.
type Pipeline = Vec<(Vec<String>, Vec<String>)>;

fn here() -> SourceSpan {
    let at = SourcePosition { index: 0, line: 1, column: 1 };
    SourceSpan { start: at, end: at }
}

fn step(token: Token, reason: TokenEndReason) -> TokenStep {
    Ok(TokenizeResult { reason, token: Some(token) })
}

fn failure(report: &str) -> TokenStep {
    Err((TokenizerError::Other(report.to_string()), None))
}

/// Tokenizes words, pipes, redirections and quoted here-documents; refuses parentheses.
fn tokenize(input: &str, _options: TokenizerOptions) -> Vec<TokenStep> {
    let mut steps = Vec::new();
    let mut lines = input.split('\n');
    while let Some(line) = lines.next() {
        let mut tags: Vec<String> = Vec::new();
        let spaced = line.replace('|', " | ").replace("<<", " << ");
        let words: Vec<&str> = spaced.split_whitespace().collect();
        let mut i = 0;
        while i < words.len() {
            if words[i].contains('(') {
                steps.push(failure("unexpected parenthesis"));
                return steps;
            }
            if words[i] == "|" {
                steps.push(step(
                    Token::Operator("|".to_string(), here()),
                    TokenEndReason::OperatorEnd,
                ));
            } else if words[i] == "<<" {
                steps.push(step(
                    Token::Operator("<<".to_string(), here()),
                    TokenEndReason::OperatorEnd,
                ));
                i += 1;
                if i >= words.len() {
                    steps.push(failure("here-document without a tag"));
                    return steps;
                }
                tags.push(words[i].trim_matches('\'').to_string());
            } else {
                steps.push(step(
                    Token::Word(words[i].to_string(), here()),
                    TokenEndReason::NonNewLineBlank,
                ));
            }
            i += 1;
        }
        for tag in tags {
            let mut body = String::new();
            loop {
                match lines.next() {
                    Some(l) if l == tag => break,
                    Some(l) => {
                        body.push_str(l);
                        body.push('\n');
                    }
                    None => {
                        steps.push(failure("unterminated here-document"));
                        return steps;
                    }
                }
            }
            steps.push(step(
                Token::Word(body, here()),
                TokenEndReason::HereDocumentBodyEnd,
            ));
        }
    }
    steps.push(Ok(TokenizeResult { reason: TokenEndReason::EndOfInput, token: None }));
    steps
}

/// Parses one pipeline of commands, each a word at least.
fn pipeline(tokens: &[Token], _options: &ParserOptions) -> Result<Pipeline, usize> {
    let mut commands: Pipeline = vec![(Vec::new(), Vec::new())];
    let mut pending: Vec<usize> = Vec::new();
    for (at, token) in tokens.iter().enumerate() {
        match token {
            Token::Operator(op, _) if op == "|" => {
                if commands.last().unwrap().0.is_empty() {
                    return Err(at);
                }
                commands.push((Vec::new(), Vec::new()));
            }
            Token::Operator(_, _) => pending.push(commands.len() - 1),
            Token::Word(w, _) if w.ends_with('\n') => {
                if pending.is_empty() {
                    return Err(at);
                }
                let owner = pending.remove(0);
                commands[owner].1.push(w.clone());
            }
            Token::Word(w, _) => commands.last_mut().unwrap().0.push(w.clone()),
        }
    }
    if commands.last().unwrap().0.is_empty() {
        return Err(tokens.len());
    }
    Ok(commands)
}

fn text_pipeline(input: &str, options: &ParserOptions) -> Result<Pipeline, ()> {
    let steps = tokenize(input, options.tokenizer_options());
    let tokens = collect_tokens(&steps).map_err(|_| ())?;
    pipeline(&tokens, options).map_err(|_| ())
}

struct Config {
    name: &'static str,
    parser_impl: ParserImpl,
}

fn parser_configs() -> Vec<Config> {
    vec![
        Config { name: "peg", parser_impl: ParserImpl::Peg },
        Config { name: "winnow", parser_impl: ParserImpl::Winnow },
    ]
}

fn parse_with_config(input: &str, config: &Config) -> Result<Pipeline, ParseError> {
    let options = ParserOptions { parser_impl: config.parser_impl, ..ParserOptions::default() };
    let mut parser = Parser::new(Input::Text(input.to_string()), &options);
    parser.parse_program(tokenize, pipeline, text_pipeline)
}

fn words(list: &[&str]) -> Vec<String> {
    list.iter().map(|w| w.to_string()).collect()
}

#[test]
fn parse_python_block_basic() {
    let input = "PYTHON\nprint(42)\nEND_PYTHON\n";

    for config in parser_configs() {
        let parsed = parse_with_config(input, &config).expect(config.name);
        assert_eq!(parsed, vec![(words(&["PYTHON"]), words(&["print(42)\n"]))]);
    }
}

#[test]
fn parse_python_block_with_options_redirection_and_pipe() {
    let input = "PYTHON -x -v out 2>err.log | cat\nprint(\"ok\")\nEND_PYTHON\n";

    for config in parser_configs() {
        let parsed = parse_with_config(input, &config).expect(config.name);
        assert_eq!(
            parsed,
            vec![
                (
                    words(&["PYTHON", "-x", "-v", "out", "2>err.log"]),
                    words(&["print(\"ok\")\n"])
                ),
                (words(&["cat"]), vec![]),
            ]
        );
    }
}

#[test]
fn parse_pipeline_into_python_block() {
    let input = "echo frompipe | PYTHON -x\nprint(\"ok\")\nEND_PYTHON\n";

    for config in parser_configs() {
        let parsed = parse_with_config(input, &config).expect(config.name);
        assert_eq!(
            parsed,
            vec![
                (words(&["echo", "frompipe"]), vec![]),
                (words(&["PYTHON", "-x"]), words(&["print(\"ok\")\n"])),
            ]
        );
    }
}

#[test]
fn parse_python_block_in_middle_of_pipeline() {
    let input = "echo left | PYTHON -x | cat\nprint(\"ok\")\nEND_PYTHON\n";

    for config in parser_configs() {
        let parsed = parse_with_config(input, &config).expect(config.name);
        assert_eq!(
            parsed,
            vec![
                (words(&["echo", "left"]), vec![]),
                (words(&["PYTHON", "-x"]), words(&["print(\"ok\")\n"])),
                (words(&["cat"]), vec![]),
            ]
        );
    }
}

#[test]
fn unterminated_python_block_errors() {
    let input = "PYTHON\nprint('missing end')\n";

    for config in parser_configs() {
        let err = parse_with_config(input, &config).expect_err("should fail");
        let msg = err.message();
        assert!(
            msg.contains("unterminated PYTHON block") || msg.contains("missing END_PYTHON"),
            "unexpected error for {:?}: {}",
            config.name,
            msg
        );
    }
}

#[test]
fn unterminated_block_is_placed_at_its_first_line() {
    let at = SourcePosition { index: 0, line: 3, column: 1 };
    assert_eq!(
        preprocess_python_blocks("a\nb\nPYTHON\nx\n END_PYTHON\nEND_PYTHON \nEND_PYTHON2"),
        Err(TokenizerError::UnterminatedPythonBlock(at))
    );
    for config in parser_configs() {
        assert_eq!(
            parse_with_config("a\nb\nPYTHON\nx", &config),
            Err(ParseError::Tokenizing {
                inner: TokenizerError::UnterminatedPythonBlock(at),
                position: Some(at),
            })
        );
    }
}

#[test]
fn block_line_gets_a_quoted_here_document() {
    assert_eq!(
        preprocess_python_blocks("PYTHON -x | cat\nprint('|')\nEND_PYTHON\necho $x\n").unwrap(),
        "PYTHON -x  <<'END_PYTHON'| cat\nprint('|')\nEND_PYTHON\necho $x\n"
    );
    assert_eq!(
        preprocess_python_blocks("  PYTHON\nEND_PYTHON").unwrap(),
        "  PYTHON <<'END_PYTHON'\nEND_PYTHON"
    );
    assert_eq!(
        preprocess_python_blocks("PYTHON>o\nEND_PYTHON").unwrap(),
        "PYTHON>o <<'END_PYTHON'\nEND_PYTHON"
    );
}

#[test]
fn lines_inside_a_block_are_raw() {
    let input = "PYTHON\nPYTHON\necho $HOME | PYTHON\nEND_PYTHON\nPYTHON\nEND_PYTHON\n";
    assert_eq!(
        preprocess_python_blocks(input).unwrap(),
        "PYTHON <<'END_PYTHON'\nPYTHON\necho $HOME | PYTHON\nEND_PYTHON\n\
         PYTHON <<'END_PYTHON'\nEND_PYTHON\n"
    );
}

#[test]
fn scripts_without_blocks_stay_as_they_are() {
    for script in [
        "",
        "\n",
        "echo PYTHON\n",
        "# PYTHON\n",
        "PYTHONIC\n",
        "PYTHON|PYTHON\n",
        "echo '| PYTHON\n",
        "echo \\| PYTHON\n",
        "echo a |& PYTHON\n",
        "echo \"a | PYTHON\" é\r\nx",
        "END_PYTHON\n",
    ] {
        assert_eq!(preprocess_python_blocks(script).unwrap(), script);
    }
}

#[test]
fn line_count_is_kept() {
    let input = "a\nPYTHON\n\n\nEND_PYTHON\nb\nc | PYTHON\nEND_PYTHON";
    let output = preprocess_python_blocks(input).unwrap();
    assert_eq!(output.split('\n').count(), input.split('\n').count());
}

#[test]
fn pipe_positions_are_byte_offsets() {
    assert_eq!(unquoted_pipe_positions("a|b | c"), vec![1, 4]);
    assert_eq!(unquoted_pipe_positions("é|é||x"), vec![2, 5, 6]);
    assert_eq!(unquoted_pipe_positions("'|'\"|\"\\||"), vec![8]);
    assert_eq!(unquoted_pipe_positions("a |& b|&|"), vec![8]);
    assert_eq!(unquoted_pipe_positions("'a\\'|\"'\"|"), vec![4, 8]);
    assert_eq!(unquoted_pipe_positions(""), Vec::<usize>::new());
}

#[test]
fn python_segments_are_recognized() {
    assert!(segment_is_python_command("PYTHON"));
    assert!(segment_is_python_command(" \t\u{3000}PYTHON -x"));
    assert!(segment_is_python_command("PYTHON<in"));
    assert!(segment_is_python_command("PYTHON>out"));
    assert!(!segment_is_python_command("PYTHON;"));
    assert!(!segment_is_python_command("python"));
    assert!(!segment_is_python_command("#PYTHON"));
    assert!(!segment_is_python_command("PYTHO"));
    assert!(!segment_is_python_command(""));
}

#[test]
fn insert_position_is_a_byte_offset() {
    assert_eq!(find_python_block_insert("PYTHON\n"), Some(6));
    assert_eq!(find_python_block_insert("é | PYTHON | c\n"), Some(12));
    assert_eq!(find_python_block_insert("é | PYTHON é"), Some(14));
    assert_eq!(find_python_block_insert("PYTHON | PYTHON\n"), None);
    assert_eq!(find_python_block_insert("   \n"), None);
    assert_eq!(find_python_block_insert(""), None);
}

#[test]
fn reading_failure_is_reported() {
    for config in parser_configs() {
        let options = ParserOptions { parser_impl: config.parser_impl, ..ParserOptions::default() };
        let mut parser = Parser::new(Input::Failed("disk on fire".to_string()), &options);
        let err = parser.parse_program(tokenize, pipeline, text_pipeline).unwrap_err();
        assert_eq!(
            err,
            ParseError::Tokenizing {
                inner: TokenizerError::ReadError("disk on fire".to_string()),
                position: None,
            }
        );
        assert_eq!(err.message(), "disk on fire");
    }
}

#[test]
fn what_was_read_is_not_read_again() {
    let mut parser = Parser::builder().build(Input::Text("echo a".to_string()));
    assert!(parser.parse_program(tokenize, pipeline, text_pipeline).is_ok());
    assert_eq!(
        parser.parse_program(tokenize, pipeline, text_pipeline),
        Err(ParseError::ParsingAtEndOfInput)
    );
}

#[test]
fn grammar_failures_are_placed() {
    let config = &parser_configs()[0];
    assert_eq!(
        parse_with_config("| a", config),
        Err(ParseError::ParsingNearToken(Token::Operator("|".to_string(), here())))
    );
    assert_eq!(parse_with_config("a |", config), Err(ParseError::ParsingAtEndOfInput));
    let winnow = &parser_configs()[1];
    assert_eq!(parse_with_config("| a", winnow), Err(ParseError::ParsingAtEndOfInput));
    assert_eq!(
        ParseError::ParsingNearToken(Token::Operator("|".to_string(), here())).message(),
        "parsing error near: |"
    );
    assert_eq!(ParseError::ParsingAtEndOfInput.message(), "parsing error at end of input");
}

#[test]
fn tokenizer_failures_are_handed_on() {
    assert_eq!(
        parse_with_config("f(", &parser_configs()[0]),
        Err(ParseError::Tokenizing {
            inner: TokenizerError::Other("unexpected parenthesis".to_string()),
            position: None,
        })
    );
}

#[test]
fn tokens_are_collected_up_to_the_end_of_input() {
    let word = |w: &str| Token::Word(w.to_string(), here());
    let steps = vec![
        step(word("a"), TokenEndReason::NonNewLineBlank),
        Ok(TokenizeResult { reason: TokenEndReason::UnescapedNewLine, token: None }),
        step(word("b"), TokenEndReason::EndOfInput),
        failure("never seen"),
    ];
    assert_eq!(collect_tokens(&steps), Ok(vec![word("a"), word("b")]));
    let failing = vec![step(word("a"), TokenEndReason::Other), failure("seen")];
    assert_eq!(
        collect_tokens(&failing),
        Err(ParseError::Tokenizing {
            inner: TokenizerError::Other("seen".to_string()),
            position: None,
        })
    );
}

#[test]
fn tokens_are_parsed_with_the_grammar() {
    let options = ParserOptions::default();
    let tokens = tokenize_preprocessed_input("a b", &options, &tokenize).unwrap();
    assert_eq!(
        parse_tokens(&tokens, &options, pipeline),
        Ok(vec![(words(&["a", "b"]), vec![])])
    );
    assert_eq!(parse_result_to_error(Ok::<u8, usize>(3), &tokens), Ok(3));
    assert_eq!(
        parse_result_to_error(Err::<u8, usize>(1), &tokens),
        Err(ParseError::ParsingNearToken(tokens[1].clone()))
    );
    assert_eq!(
        parse_result_to_error(Err::<u8, usize>(2), &tokens),
        Err(ParseError::ParsingAtEndOfInput)
    );
}

#[test]
fn function_bodies_are_parsed_from_tokens_whatever_the_options() {
    let options = ParserOptions { parser_impl: ParserImpl::Winnow, ..ParserOptions::default() };
    let mut parser = Parser::new(Input::Text("PYTHON\nf(1)\nEND_PYTHON".to_string()), &options);
    let body = parser.parse_function_parens_and_body(tokenize, pipeline).unwrap();
    assert_eq!(body, vec![(words(&["PYTHON"]), words(&["f(1)\n"]))]);
    let mut unreadable = Parser::new(Input::Text("PYTHON\n".to_string()), &options);
    assert!(unreadable.parse_function_parens_and_body(tokenize, pipeline).is_err());
}

#[test]
fn builder_sets_options() {
    let seen = |parser: &mut Parser| {
        parser
            .parse_program(
                |_: &str, _: TokenizerOptions| Vec::new(),
                |_: &[Token], o: &ParserOptions| Ok(*o),
                |_: &str, o: &ParserOptions| Ok(*o),
            )
            .unwrap()
    };
    let empty = || Input::Text(String::new());
    assert_eq!(seen(&mut Parser::builder().build(empty())), ParserOptions::default());
    let all = Parser::builder()
        .enable_extended_globbing(false)
        .posix_mode(true)
        .sh_mode(true)
        .tilde_expansion_at_word_start(false)
        .tilde_expansion_after_colon(true)
        .parser_impl(ParserImpl::Winnow)
        .build(empty());
    let mut all = all;
    assert_eq!(
        seen(&mut all),
        ParserOptions {
            enable_extended_globbing: false,
            posix_mode: true,
            sh_mode: true,
            tilde_expansion_at_word_start: false,
            tilde_expansion_after_colon: true,
            parser_impl: ParserImpl::Winnow,
        }
    );
}

#[test]
fn default_options_match_the_documented_ones() {
    let options = ParserOptions::default();
    assert!(options.enable_extended_globbing);
    assert!(!options.posix_mode);
    assert!(!options.sh_mode);
    assert!(options.tilde_expansion_at_word_start);
    assert!(!options.tilde_expansion_after_colon);
    assert_eq!(options.parser_impl, ParserImpl::Peg);
    assert_eq!(ParserImpl::default(), ParserImpl::Peg);
    assert_eq!(SourceInfo::default().source, "");
    let sh = ParserOptions { sh_mode: true, posix_mode: true, ..options };
    assert_eq!(
        sh.tokenizer_options(),
        TokenizerOptions { enable_extended_globbing: true, posix_mode: true, sh_mode: true }
    );
}
