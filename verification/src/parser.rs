//! From a shell script to a parsed program.
//!
//! A parser reads a script, rewrites its Python blocks, and hands the text to a tokenizer and a
//! grammar, which the caller supplies. It says which text they get, what becomes of the tokens, and
//! which error a failure is reported as.

use vstd::prelude::*;

use crate::blocks;
use crate::blocks::preprocess_python_blocks;
use crate::tokenizer::{
    SourcePosition, Token, TokenEndReason, TokenStep, TokenizeResult, TokenizerError,
};

verus! {

/// Which grammar parses a program.
#[derive(Clone, Copy, Debug, PartialEq, Eq, Hash, Structural)]
pub enum ParserImpl {
    /// A grammar over tokens.
    Peg,
    /// A grammar over the text itself.
    Winnow,
}

impl Default for ParserImpl {
    fn default() -> (r: Self)
        ensures
            r == ParserImpl::Peg,
    {
        ParserImpl::Peg
    }
}

/// Options of a parser.
#[derive(Clone, Copy, Debug, PartialEq, Eq, Hash, Structural)]
pub struct ParserOptions {
    /// Whether or not to enable extended globbing (a.k.a. `extglob`).
    pub enable_extended_globbing: bool,
    /// Whether or not to enable POSIX compliance mode.
    pub posix_mode: bool,
    /// Whether or not to enable maximal compatibility with the `sh` shell.
    pub sh_mode: bool,
    /// Whether or not to perform tilde expansion for tildes at the start of words.
    pub tilde_expansion_at_word_start: bool,
    /// Whether or not to perform tilde expansion for tildes after colons.
    pub tilde_expansion_after_colon: bool,
    /// Which grammar parses a program.
    pub parser_impl: ParserImpl,
}

/// The options of a parser that is given none.
pub open spec fn default_options() -> ParserOptions {
    ParserOptions {
        enable_extended_globbing: true,
        posix_mode: false,
        sh_mode: false,
        tilde_expansion_at_word_start: true,
        tilde_expansion_after_colon: false,
        parser_impl: ParserImpl::Peg,
    }
}

impl Default for ParserOptions {
    fn default() -> (r: Self)
        ensures
            r == default_options(),
    {
        ParserOptions {
            enable_extended_globbing: true,
            posix_mode: false,
            sh_mode: false,
            tilde_expansion_at_word_start: true,
            tilde_expansion_after_colon: false,
            parser_impl: ParserImpl::default(),
        }
    }
}

/// Options of a tokenizer.
#[derive(Clone, Copy, Debug, PartialEq, Eq, Hash, Structural)]
pub struct TokenizerOptions {
    /// Whether or not to enable extended globbing (a.k.a. `extglob`).
    pub enable_extended_globbing: bool,
    /// Whether or not to enable POSIX compliance mode.
    pub posix_mode: bool,
    /// Whether or not to enable maximal compatibility with the `sh` shell.
    pub sh_mode: bool,
}

impl ParserOptions {
    /// The tokenizer options implied by these parser options.
    pub open spec fn for_tokenizer(self) -> TokenizerOptions {
        TokenizerOptions {
            enable_extended_globbing: self.enable_extended_globbing,
            posix_mode: self.posix_mode,
            sh_mode: self.sh_mode,
        }
    }

    /// Returns the tokenizer options implied by these parser options.
    pub fn tokenizer_options(&self) -> (r: TokenizerOptions)
        ensures
            r == self.for_tokenizer(),
    {
        TokenizerOptions {
            enable_extended_globbing: self.enable_extended_globbing,
            posix_mode: self.posix_mode,
            sh_mode: self.sh_mode,
        }
    }
}

/// Information about the source of tokens.
#[derive(Debug, PartialEq, Eq)]
pub struct SourceInfo {
    /// The source of the tokens.
    pub source: String,
}

impl Default for SourceInfo {
    fn default() -> (r: Self)
        ensures
            r.source@ == Seq::<char>::empty(),
    {
        SourceInfo { source: String::new() }
    }
}

/// Why a script cannot be parsed.
#[derive(Debug, PartialEq, Eq)]
pub enum ParseError {
    /// The grammar failed at a token.
    ParsingNearToken(Token),
    /// The grammar failed at the end of the input.
    ParsingAtEndOfInput,
    /// The input could not be tokenized.
    Tokenizing {
        /// Why.
        inner: TokenizerError,
        /// Where, if that is known.
        position: Option<SourcePosition>,
    },
}

impl ParseError {
    /// The text that describes this error.
    pub open spec fn text(self) -> Seq<char> {
        match self {
            ParseError::ParsingNearToken(Token::Operator(s, _)) => "parsing error near: "@ + s@,
            ParseError::ParsingNearToken(Token::Word(s, _)) => "parsing error near: "@ + s@,
            ParseError::ParsingAtEndOfInput => "parsing error at end of input"@,
            ParseError::Tokenizing { inner, position } => inner.text(),
        }
    }

    /// The text that describes this error.
    pub fn message(&self) -> (r: String)
        ensures
            r@ == self.text(),
    {
        match self {
            ParseError::ParsingNearToken(token) => {
                let mut r = "parsing error near: ".to_owned();
                match token {
                    Token::Operator(s, _) => {
                        r.append(s.as_str());
                    },
                    Token::Word(s, _) => {
                        r.append(s.as_str());
                    },
                }
                r
            },
            ParseError::ParsingAtEndOfInput => "parsing error at end of input".to_owned(),
            ParseError::Tokenizing { inner, .. } => inner.message(),
        }
    }
}

/// What became of reading a script.
#[derive(Debug, PartialEq, Eq)]
pub enum Input {
    /// Its text.
    Text(String),
    /// It could not be read, with the reason.
    Failed(String),
}

/// The tokens that a step found: one or none.
pub open spec fn step_tokens(step: TokenizeResult) -> Seq<Token> {
    match step.token {
        Some(token) => seq![token],
        None => seq![],
    }
}

/// What a tokenizer's steps give: the tokens up to the first step that ends the input, or the first
/// failure before that.
pub open spec fn collected(steps: Seq<TokenStep>) -> Result<
    Seq<Token>,
    (TokenizerError, Option<SourcePosition>),
>
    decreases steps.len(),
{
    if steps.len() == 0 {
        Ok(seq![])
    } else {
        match steps[0] {
            Err(e) => Err(e),
            Ok(step) => {
                let first = step_tokens(step);
                if step.reason == TokenEndReason::EndOfInput {
                    Ok(first)
                } else {
                    match collected(steps.drop_first()) {
                        Ok(rest) => Ok(first + rest),
                        Err(e) => Err(e),
                    }
                }
            },
        }
    }
}

/// The error that a tokenizer's failure is reported as.
pub open spec fn tokenizing_error(e: (TokenizerError, Option<SourcePosition>)) -> ParseError {
    ParseError::Tokenizing { inner: e.0, position: e.1 }
}

/// Collects the tokens of a tokenizer's steps.
pub fn collect_tokens(steps: &Vec<TokenStep>) -> (r: Result<Vec<Token>, ParseError>)
    ensures
        match collected(steps@) {
            Ok(tokens) => r matches Ok(v) && v@ == tokens,
            Err(e) => r == Err::<Vec<Token>, ParseError>(tokenizing_error(e)),
        },
{
    let mut tokens: Vec<Token> = Vec::new();
    let mut i: usize = 0;
    proof {
        assert(steps@.skip(0) =~= steps@);
        if let Ok(v) = collected(steps@) {
            assert(tokens@ + v =~= v);
        }
    }
    while i < steps.len()
        invariant
            i <= steps@.len(),
            collected(steps@) == (match collected(steps@.skip(i as int)) {
                Ok(rest) => Ok::<Seq<Token>, (TokenizerError, Option<SourcePosition>)>(
                    tokens@ + rest,
                ),
                Err(e) => Err(e),
            }),
        decreases steps@.len() - i,
    {
        let ghost had = tokens@;
        proof {
            assert(steps@.skip(i as int)[0] == steps@[i as int]);
            assert(steps@.skip(i as int).drop_first() =~= steps@.skip(i + 1));
        }
        match &steps[i] {
            Err((inner, position)) => {
                return Err(ParseError::Tokenizing { inner: inner.clone(), position: *position });
            },
            Ok(step) => {
                if let Some(token) = &step.token {
                    tokens.push(token.clone());
                }
                proof {
                    let first = step_tokens(*step);
                    assert(tokens@ =~= had + first);
                    if let Ok(rest) = collected(steps@.skip(i + 1)) {
                        assert(had + (first + rest) =~= tokens@ + rest);
                    }
                }
                if step.reason == TokenEndReason::EndOfInput {
                    return Ok(tokens);
                }
            },
        }
        i += 1;
    }
    assert(tokens@ + Seq::<Token>::empty() =~= tokens@);
    Ok(tokens)
}

/// The error that a grammar's failure at token `location` is reported as.
pub open spec fn grammar_error(location: int, tokens: Seq<Token>) -> ParseError {
    if location < tokens.len() {
        ParseError::ParsingNearToken(tokens[location])
    } else {
        ParseError::ParsingAtEndOfInput
    }
}

/// What a grammar's result is reported as.
pub open spec fn reported<P>(result: Result<P, usize>, tokens: Seq<Token>) -> Result<
    P,
    ParseError,
> {
    match result {
        Ok(p) => Ok(p),
        Err(location) => Err(grammar_error(location as int, tokens)),
    }
}

/// Reports a grammar's result.
pub fn parse_result_to_error<P>(parse_result: Result<P, usize>, tokens: &[Token]) -> (r: Result<
    P,
    ParseError,
>)
    ensures
        r == reported(parse_result, tokens@),
{
    match parse_result {
        Ok(p) => Ok(p),
        Err(location) => if location < tokens.len() {
            Err(ParseError::ParsingNearToken(tokens[location].clone()))
        } else {
            Err(ParseError::ParsingAtEndOfInput)
        },
    }
}

/// Parses tokens with a grammar.
pub fn parse_tokens<P, G: Fn(&[Token], &ParserOptions) -> Result<P, usize>>(
    tokens: &[Token],
    options: &ParserOptions,
    grammar: G,
) -> (r: Result<P, ParseError>)
    requires
        call_requires(grammar, (tokens, options)),
    ensures
        exists|result: Result<P, usize>| #[trigger]
            call_ensures(grammar, (tokens, options), result) && r == reported(result, tokens@),
{
    let result = grammar(tokens, options);
    parse_result_to_error(result, tokens)
}

/// Tokenizes a script whose blocks have been rewritten.
pub fn tokenize_preprocessed_input<T: Fn(&str, TokenizerOptions) -> Vec<TokenStep>>(
    input: &str,
    options: &ParserOptions,
    tokenizer: &T,
) -> (r: Result<Vec<Token>, ParseError>)
    requires
        call_requires(tokenizer, (input, options.for_tokenizer())),
    ensures
        exists|steps: Vec<TokenStep>|
            #![trigger call_ensures(tokenizer, (input, options.for_tokenizer()), steps)]
            call_ensures(tokenizer, (input, options.for_tokenizer()), steps) && (match collected(
                steps@,
            ) {
                Ok(tokens) => r matches Ok(v) && v@ == tokens,
                Err(e) => r == Err::<Vec<Token>, ParseError>(tokenizing_error(e)),
            }),
{
    let steps = tokenizer(input, options.tokenizer_options());
    collect_tokens(&steps)
}

/// What a parser has yet to read: the text, or why it cannot be read.
pub open spec fn pending_of(input: Input) -> Result<Seq<char>, Seq<char>> {
    match input {
        Input::Text(s) => Ok(s@),
        Input::Failed(reason) => Err(reason@),
    }
}

/// The text that is tokenized, where there is one.
pub open spec fn prepared_text(pending: Result<Seq<char>, Seq<char>>) -> Option<Seq<char>> {
    match pending {
        Ok(s) => match blocks::preprocessed(s) {
            Ok(output) => Some(output),
            Err(line) => None,
        },
        Err(reason) => None,
    }
}

/// Whether `r` is the error that reading and rewriting the script gives.
pub open spec fn is_preparation_error<P>(
    pending: Result<Seq<char>, Seq<char>>,
    r: Result<P, ParseError>,
) -> bool {
    match pending {
        Err(reason) => r matches Err(ParseError::Tokenizing { inner, position }) && inner matches
            TokenizerError::ReadError(m) && m@ == reason && position is None,
        Ok(s) => blocks::preprocessed(s) matches Err(line) && r matches Err(
            ParseError::Tokenizing { inner, position },
        ) && inner matches TokenizerError::UnterminatedPythonBlock(at) && at.line == line
            && at.index == 0 && at.column == 1 && position == Some(at),
    }
}

/// Whether `r` is what a tokenizer and a grammar over tokens make of `input`.
pub open spec fn parsed_by_tokens<
    P,
    T: Fn(&str, TokenizerOptions) -> Vec<TokenStep>,
    G: Fn(&[Token], &ParserOptions) -> Result<P, usize>,
>(
    input: &str,
    options: ParserOptions,
    tokenizer: T,
    grammar: G,
    r: Result<P, ParseError>,
) -> bool {
    exists|steps: Vec<TokenStep>|
        #![trigger call_ensures(tokenizer, (input, options.for_tokenizer()), steps)]
        call_ensures(tokenizer, (input, options.for_tokenizer()), steps) && (match collected(
            steps@,
        ) {
            Err(e) => r == Err::<P, ParseError>(tokenizing_error(e)),
            Ok(tokens) => exists|v: &[Token], result: Result<P, usize>|
                #![trigger call_ensures(grammar, (v, &options), result)]
                v@ == tokens && call_ensures(grammar, (v, &options), result) && r == reported(
                    result,
                    tokens,
                ),
        })
}

/// Whether `r` is what a grammar over text makes of `input`. A failure is reported as one at the
/// end of the input.
pub open spec fn parsed_by_text<P, W: Fn(&str, &ParserOptions) -> Result<P, ()>>(
    input: &str,
    options: ParserOptions,
    grammar: W,
    r: Result<P, ParseError>,
) -> bool {
    exists|result: Result<P, ()>| #[trigger]
        call_ensures(grammar, (input, &options), result) && r == (match result {
            Ok(p) => Ok::<P, ParseError>(p),
            Err(_) => Err(ParseError::ParsingAtEndOfInput),
        })
}

/// Implements parsing for shell programs.
#[derive(Debug)]
pub struct Parser {
    input: Input,
    options: ParserOptions,
}

impl Parser {
    /// What the parser has yet to read.
    pub closed spec fn pending(self) -> Result<Seq<char>, Seq<char>> {
        pending_of(self.input)
    }

    /// The options of the parser.
    pub closed spec fn options(self) -> ParserOptions {
        self.options
    }

    /// A parser of the given input.
    pub fn new(input: Input, options: &ParserOptions) -> (r: Parser)
        ensures
            r.pending() == pending_of(input),
            r.options() == *options,
    {
        Parser { input, options: *options }
    }

    /// Starts a parser whose options are set one by one.
    pub fn builder() -> (r: ParserBuilder)
        ensures
            r.options() == default_options(),
    {
        ParserBuilder { options: ParserOptions::default() }
    }

    /// Reads the script and rewrites its Python blocks. What was read is not read again.
    fn read_and_preprocess_input(&mut self) -> (r: Result<String, ParseError>)
        ensures
            final(self).options() == old(self).options(),
            final(self).pending() == (match old(self).pending() {
                Ok(s) => Ok::<Seq<char>, Seq<char>>(seq![]),
                Err(reason) => Err(reason),
            }),
            match prepared_text(old(self).pending()) {
                Some(text) => r matches Ok(s) && s@ == text,
                None => is_preparation_error(old(self).pending(), r),
            },
    {
        let input = match &self.input {
            Input::Text(s) => s.clone(),
            Input::Failed(reason) => {
                return Err(
                    ParseError::Tokenizing {
                        inner: TokenizerError::ReadError(reason.clone()),
                        position: None,
                    },
                );
            },
        };
        self.input = Input::Text(String::new());
        match preprocess_python_blocks(input.as_str()) {
            Ok(output) => Ok(output),
            Err(inner) => {
                let position = match &inner {
                    TokenizerError::UnterminatedPythonBlock(at) => Some(*at),
                    _ => None,
                };
                Err(ParseError::Tokenizing { inner, position })
            },
        }
    }

    /// Parses the input into a shell program, with the grammar that the options ask for.
    pub fn parse_program<
        P,
        T: Fn(&str, TokenizerOptions) -> Vec<TokenStep>,
        G: Fn(&[Token], &ParserOptions) -> Result<P, usize>,
        W: Fn(&str, &ParserOptions) -> Result<P, ()>,
    >(&mut self, tokenizer: T, grammar: G, text_grammar: W) -> (r: Result<P, ParseError>)
        requires
            forall|input: &str, options: TokenizerOptions|
                call_requires(tokenizer, (input, options)),
            forall|tokens: &[Token], options: &ParserOptions|
                call_requires(grammar, (tokens, options)),
            forall|input: &str, options: &ParserOptions|
                call_requires(text_grammar, (input, options)),
        ensures
            final(self).options() == old(self).options(),
            final(self).pending() == (match old(self).pending() {
                Ok(s) => Ok::<Seq<char>, Seq<char>>(seq![]),
                Err(reason) => Err(reason),
            }),
            match prepared_text(old(self).pending()) {
                None => is_preparation_error(old(self).pending(), r),
                Some(text) => exists|input: &str|
                    #![trigger input@]
                    input@ == text && (match old(self).options().parser_impl {
                        ParserImpl::Peg => parsed_by_tokens(
                            input,
                            old(self).options(),
                            tokenizer,
                            grammar,
                            r,
                        ),
                        ParserImpl::Winnow => parsed_by_text(
                            input,
                            old(self).options(),
                            text_grammar,
                            r,
                        ),
                    }),
            },
    {
        let input = match self.read_and_preprocess_input() {
            Ok(input) => input,
            Err(e) => {
                return Err(e);
            },
        };
        let source = input.as_str();
        match self.options.parser_impl {
            ParserImpl::Peg => parse_source(source, &self.options, &tokenizer, &grammar),
            ParserImpl::Winnow => match text_grammar(source, &self.options) {
                Ok(p) => Ok(p),
                Err(()) => Err(ParseError::ParsingAtEndOfInput),
            },
        }
    }

    /// Parses a function definition body from the input, with a grammar that expects it to be
    /// preceded by "()", but no function name.
    pub fn parse_function_parens_and_body<
        P,
        T: Fn(&str, TokenizerOptions) -> Vec<TokenStep>,
        G: Fn(&[Token], &ParserOptions) -> Result<P, usize>,
    >(&mut self, tokenizer: T, grammar: G) -> (r: Result<P, ParseError>)
        requires
            forall|input: &str, options: TokenizerOptions|
                call_requires(tokenizer, (input, options)),
            forall|tokens: &[Token], options: &ParserOptions|
                call_requires(grammar, (tokens, options)),
        ensures
            final(self).options() == old(self).options(),
            final(self).pending() == (match old(self).pending() {
                Ok(s) => Ok::<Seq<char>, Seq<char>>(seq![]),
                Err(reason) => Err(reason),
            }),
            match prepared_text(old(self).pending()) {
                None => is_preparation_error(old(self).pending(), r),
                Some(text) => exists|input: &str|
                    #![trigger input@]
                    input@ == text && parsed_by_tokens(
                        input,
                        old(self).options(),
                        tokenizer,
                        grammar,
                        r,
                    ),
            },
    {
        let input = match self.read_and_preprocess_input() {
            Ok(input) => input,
            Err(e) => {
                return Err(e);
            },
        };
        parse_source(input.as_str(), &self.options, &tokenizer, &grammar)
    }
}

/// Tokenizes and parses a script whose blocks have been rewritten.
fn parse_source<
    P,
    T: Fn(&str, TokenizerOptions) -> Vec<TokenStep>,
    G: Fn(&[Token], &ParserOptions) -> Result<P, usize>,
>(input: &str, options: &ParserOptions, tokenizer: &T, grammar: &G) -> (r: Result<P, ParseError>)
    requires
        call_requires(*tokenizer, (input, options.for_tokenizer())),
        forall|tokens: &[Token]| call_requires(*grammar, (tokens, options)),
    ensures
        parsed_by_tokens(input, *options, *tokenizer, *grammar, r),
{
    match tokenize_preprocessed_input(input, options, tokenizer) {
        Ok(tokens) => parse_tokens(tokens.as_slice(), options, grammar),
        Err(e) => Err(e),
    }
}

/// A parser whose options are being set.
#[derive(Clone, Copy, Debug)]
pub struct ParserBuilder {
    options: ParserOptions,
}

impl ParserBuilder {
    /// The options set so far.
    pub closed spec fn options(self) -> ParserOptions {
        self.options
    }

    /// Whether or not to enable extended globbing (a.k.a. `extglob`).
    pub fn enable_extended_globbing(self, value: bool) -> (r: ParserBuilder)
        ensures
            r.options() == (ParserOptions { enable_extended_globbing: value, ..self.options() }),
    {
        ParserBuilder {
            options: ParserOptions { enable_extended_globbing: value, ..self.options },
        }
    }

    /// Whether or not to enable POSIX compliance mode.
    pub fn posix_mode(self, value: bool) -> (r: ParserBuilder)
        ensures
            r.options() == (ParserOptions { posix_mode: value, ..self.options() }),
    {
        ParserBuilder { options: ParserOptions { posix_mode: value, ..self.options } }
    }

    /// Whether or not to enable maximal compatibility with the `sh` shell.
    pub fn sh_mode(self, value: bool) -> (r: ParserBuilder)
        ensures
            r.options() == (ParserOptions { sh_mode: value, ..self.options() }),
    {
        ParserBuilder { options: ParserOptions { sh_mode: value, ..self.options } }
    }

    /// Whether or not to perform tilde expansion for tildes at the start of words.
    pub fn tilde_expansion_at_word_start(self, value: bool) -> (r: ParserBuilder)
        ensures
            r.options() == (ParserOptions {
                tilde_expansion_at_word_start: value,
                ..self.options()
            }),
    {
        ParserBuilder {
            options: ParserOptions { tilde_expansion_at_word_start: value, ..self.options },
        }
    }

    /// Whether or not to perform tilde expansion for tildes after colons.
    pub fn tilde_expansion_after_colon(self, value: bool) -> (r: ParserBuilder)
        ensures
            r.options() == (ParserOptions {
                tilde_expansion_after_colon: value,
                ..self.options()
            }),
    {
        ParserBuilder {
            options: ParserOptions { tilde_expansion_after_colon: value, ..self.options },
        }
    }

    /// Which grammar parses a program.
    pub fn parser_impl(self, value: ParserImpl) -> (r: ParserBuilder)
        ensures
            r.options() == (ParserOptions { parser_impl: value, ..self.options() }),
    {
        ParserBuilder { options: ParserOptions { parser_impl: value, ..self.options } }
    }

    /// Instantiates a parser of the given input.
    pub fn build(self, input: Input) -> (r: Parser)
        ensures
            r.pending() == pending_of(input),
            r.options() == self.options(),
    {
        Parser { input, options: self.options }
    }
}

} // verus!
