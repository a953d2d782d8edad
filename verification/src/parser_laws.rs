//! What becomes of a tokenizer's steps and a grammar's result, and how failures are reported.

use vstd::prelude::*;

use crate::blocks;
use crate::parser;
use crate::parser::{Input, ParseError, ParserImpl, ParserOptions, TokenizerOptions};
use crate::text;
use crate::tokenizer::{
    SourcePosition, SourceSpan, Token, TokenEndReason, TokenStep, TokenizeResult, TokenizerError,
};

verus! {

/// Tokens are collected in order up to the step that ends the input, whose token counts. A failure
/// before that is given as it is, and nothing behind either matters.
pub proof fn tokens_are_collected_in_order(
    step: TokenizeResult,
    e: (TokenizerError, Option<SourcePosition>),
    rest: Seq<TokenStep>,
)
    ensures
        parser::collected(seq![]) == Ok::<Seq<Token>, (TokenizerError, Option<SourcePosition>)>(
            seq![],
        ),
        parser::collected(seq![Err(e)] + rest) == Err::<
            Seq<Token>,
            (TokenizerError, Option<SourcePosition>),
        >(e),
        step.reason == TokenEndReason::EndOfInput ==> match step.token {
            Some(token) => parser::collected(seq![Ok(step)] + rest) == Ok::<
                Seq<Token>,
                (TokenizerError, Option<SourcePosition>),
            >(seq![token]),
            None => parser::collected(seq![Ok(step)] + rest) == Ok::<
                Seq<Token>,
                (TokenizerError, Option<SourcePosition>),
            >(seq![]),
        },
        step.reason != TokenEndReason::EndOfInput ==> match (step.token, parser::collected(rest)) {
            (_, Err(later)) => parser::collected(seq![Ok(step)] + rest) == Err::<
                Seq<Token>,
                (TokenizerError, Option<SourcePosition>),
            >(later),
            (Some(token), Ok(tokens)) => parser::collected(seq![Ok(step)] + rest) == Ok::<
                Seq<Token>,
                (TokenizerError, Option<SourcePosition>),
            >(seq![token] + tokens),
            (None, Ok(tokens)) => parser::collected(seq![Ok(step)] + rest) == Ok::<
                Seq<Token>,
                (TokenizerError, Option<SourcePosition>),
            >(tokens),
        },
{
    let a: Seq<TokenStep> = seq![Ok(step)] + rest;
    let b: Seq<TokenStep> = seq![Err(e)] + rest;
    assert(a[0] == Ok::<TokenizeResult, (TokenizerError, Option<SourcePosition>)>(step));
    assert(b[0] == Err::<TokenizeResult, (TokenizerError, Option<SourcePosition>)>(e));
    assert(a.drop_first() =~= rest);
    if let Ok(tokens) = parser::collected(rest) {
        assert(Seq::<Token>::empty() + tokens =~= tokens);
    }
}

/// A tokenizer's failure is reported with its reason and its place.
pub proof fn tokenizer_failure_is_reported(inner: TokenizerError, position: Option<SourcePosition>)
    ensures
        parser::tokenizing_error((inner, position)) == (ParseError::Tokenizing { inner, position }),
{
}

/// A program that the grammar gives is reported as it is. A failure at a token is reported near that
/// token, and one behind all of them at the end of the input.
pub proof fn grammar_result_is_reported<P>(p: P, location: usize, tokens: Seq<Token>)
    ensures
        parser::reported(Ok::<P, usize>(p), tokens) == Ok::<P, ParseError>(p),
        location < tokens.len() ==> parser::reported(Err::<P, usize>(location), tokens) == Err::<
            P,
            ParseError,
        >(ParseError::ParsingNearToken(tokens[location as int])),
        location >= tokens.len() ==> parser::reported(Err::<P, usize>(location), tokens) == Err::<
            P,
            ParseError,
        >(ParseError::ParsingAtEndOfInput),
{
}

/// The tokenizer gets the parser's options on globbing and on the modes.
pub proof fn tokenizer_gets_the_options_of_the_parser(o: ParserOptions)
    ensures
        o.for_tokenizer() == (TokenizerOptions {
            enable_extended_globbing: o.enable_extended_globbing,
            posix_mode: o.posix_mode,
            sh_mode: o.sh_mode,
        }),
{
}

/// The options of a parser that is given none.
pub proof fn parser_has_its_default_options()
    ensures
        parser::default_options() == (ParserOptions {
            enable_extended_globbing: true,
            posix_mode: false,
            sh_mode: false,
            tilde_expansion_at_word_start: true,
            tilde_expansion_after_colon: false,
            parser_impl: ParserImpl::Peg,
        }),
{
}

/// A script that was read is pending with its text, and one that was not with the reason.
pub proof fn input_is_pending_as_it_was_read(s: String)
    ensures
        parser::pending_of(Input::Text(s)) == Ok::<Seq<char>, Seq<char>>(s@),
        parser::pending_of(Input::Failed(s)) == Err::<Seq<char>, Seq<char>>(s@),
{
}

/// What is tokenized is the script with its blocks rewritten. A script that could not be read, or
/// has a block without an end, is not tokenized.
pub proof fn rewritten_script_is_tokenized(s: Seq<char>, reason: Seq<char>)
    ensures
        blocks::preprocessed(s) matches Ok(out) ==> parser::prepared_text(Ok(s)) == Some(out),
        blocks::preprocessed(s) is Err ==> parser::prepared_text(Ok(s)) is None,
        parser::prepared_text(Err(reason)) is None,
{
}

/// A script that could not be read is reported with the reason and no place. One with a block without
/// an end is reported at the first column of the line that starts the block.
pub proof fn preparation_errors_are_reported<P>(
    s: Seq<char>,
    reason: Seq<char>,
    r: Result<P, ParseError>,
)
    ensures
        parser::is_preparation_error(Err(reason), r) <==> (r matches Err(
            ParseError::Tokenizing { inner: TokenizerError::ReadError(m), position: None },
        ) && m@ == reason),
        blocks::preprocessed(s) is Ok ==> !parser::is_preparation_error(Ok(s), r),
        blocks::preprocessed(s) matches Err(line) ==> (parser::is_preparation_error(Ok(s), r)
            <==> (r matches Err(
            ParseError::Tokenizing {
                inner: TokenizerError::UnterminatedPythonBlock(at),
                position: Some(place),
            },
        ) && at == place && at.index == 0 && at.line == line && at.column == 1)),
{
}

/// Where the tokenizer gives one result only and the grammar too, a script is parsed to what the
/// grammar makes of the tokens, and a failure of either is reported.
pub proof fn program_is_parsed_from_its_tokens<
    P,
    T: Fn(&str, TokenizerOptions) -> Vec<TokenStep>,
    G: Fn(&[Token], &ParserOptions) -> Result<P, usize>,
>(
    input: &str,
    options: ParserOptions,
    tokenizer: T,
    grammar: G,
    steps: Vec<TokenStep>,
    r: Result<P, ParseError>,
)
    requires
        parser::parsed_by_tokens(input, options, tokenizer, grammar, r),
        forall|other: Vec<TokenStep>|
            call_ensures(
                tokenizer,
                (
                    input,
                    TokenizerOptions {
                        enable_extended_globbing: options.enable_extended_globbing,
                        posix_mode: options.posix_mode,
                        sh_mode: options.sh_mode,
                    },
                ),
                other,
            ) ==> other == steps,
    ensures
        parser::collected(steps@) matches Err((inner, position)) ==> r == Err::<P, ParseError>(
            ParseError::Tokenizing { inner, position },
        ),
        parser::collected(steps@) matches Ok(tokens) ==> exists|
            v: &[Token],
            result: Result<P, usize>,
        |
            #![trigger call_ensures(grammar, (v, &options), result)]
            v@ == tokens && call_ensures(grammar, (v, &options), result) && match result {
                Ok(p) => r == Ok::<P, ParseError>(p),
                Err(location) => if location < tokens.len() {
                    r == Err::<P, ParseError>(
                        ParseError::ParsingNearToken(tokens[location as int]),
                    )
                } else {
                    r == Err::<P, ParseError>(ParseError::ParsingAtEndOfInput)
                },
            },
{
}

/// A script is parsed to what a grammar over text makes of it; a failure is reported at the end of
/// the input.
pub proof fn program_is_parsed_from_its_text<P, W: Fn(&str, &ParserOptions) -> Result<P, ()>>(
    input: &str,
    options: ParserOptions,
    grammar: W,
    r: Result<P, ParseError>,
)
    requires
        parser::parsed_by_text(input, options, grammar, r),
    ensures
        match r {
            Ok(p) => call_ensures(grammar, (input, &options), Ok::<P, ()>(p)),
            Err(e) => e == ParseError::ParsingAtEndOfInput && call_ensures(
                grammar,
                (input, &options),
                Err::<P, ()>(()),
            ),
        },
{
    let result = choose|result: Result<P, ()>| #[trigger]
        call_ensures(grammar, (input, &options), result) && r == (match result {
            Ok(p) => Ok::<P, ParseError>(p),
            Err(_) => Err(ParseError::ParsingAtEndOfInput),
        });
    match result {
        Ok(p) => {
            assert(call_ensures(grammar, (input, &options), Ok::<P, ()>(p)));
        },
        Err(u) => {
            assert(u == ());
        },
    }
}

/// The texts that describe why a script cannot be parsed.
pub proof fn parse_errors_have_their_texts(
    s: String,
    span: SourceSpan,
    at: SourcePosition,
    inner: TokenizerError,
    position: Option<SourcePosition>,
)
    ensures
        ParseError::ParsingNearToken(Token::Operator(s, span)).text() == "parsing error near: "@
            + s@,
        ParseError::ParsingNearToken(Token::Word(s, span)).text() == "parsing error near: "@ + s@,
        ParseError::ParsingAtEndOfInput.text() == "parsing error at end of input"@,
        (ParseError::Tokenizing { inner, position }).text() == inner.text(),
        TokenizerError::ReadError(s).text() == s@,
        TokenizerError::Other(s).text() == s@,
        TokenizerError::UnterminatedPythonBlock(at).text() == "unterminated PYTHON block at line "@
            + text::decimal_text(at.line as nat) + ": missing END_PYTHON"@,
{
}

} // verus!
