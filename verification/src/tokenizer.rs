//! Splitting a function definition into tokens.
//!
//! The source is trimmed and cut into lexemes by `TOKEN_PATTERN`; each lexeme
//! becomes a token: an operator, a parenthesis, a number, a known function or
//! an identifier. Every token is paired with its positional priority: the
//! maximum priority for each parenthesis that is open around it.

use std::rc::Rc;
use vstd::prelude::*;

use crate::ast::Piece;
use crate::functions::{Functions, function_name, function_named, function_text};
use crate::numerals::{
    is_float_literal, is_float_literal_exec, lemma_foreign_char, lemma_leading_letter,
};
use crate::patterns::{
    compile, find_matches, pattern_matches, regex_compiles, regex_is_match, regex_matches, Pattern,
};
use crate::text::{
    byte_length, bytes_of, leading_space_bytes, leading_space_bytes_exec, lemma_trimmed_in_source,
    same_text, trim, trimmed,
};

verus! {

/// The evaluation priority of a token: higher is evaluated first.
pub type Priority = i128;

/// The lexemes of a function definition: identifiers, numerals, operators and
/// parentheses, and any other single non-space character.
pub const TOKEN_PATTERN: &'static str = r#"(?m)[_a-zA-Z]\w*|-?\d+[.]\d*|-?[.]?\d+|[-+/*^()]|\S"#;

/// The names a variable may have.
pub const VARIABLE_PATTERN: &'static str = r#"^[_a-zA-Z]\w*\z"#;

/// A slice of the source text together with the column it starts at.
///
/// The column is one more than the byte offset of the slice in the trimmed
/// source.
#[derive(Clone, Copy, Debug)]
pub struct SourceToken<'a> {
    pub string: &'a str,
    pub column: usize,
}

/// The kind of a token. Numbers and identifiers keep their text.
#[derive(Clone, Copy, Debug)]
pub enum TokenValue<'a> {
    Plus,
    Minus,
    Mul,
    Div,
    Pow,
    ParenOpen,
    ParenClose,
    Identifier(&'a str),
    Number(&'a str),
    Function(Functions),
}

/// A token and the source text it was read from.
pub struct Token<'a> {
    pub value: TokenValue<'a>,
    pub source: Rc<SourceToken<'a>>,
}

/// The tokens of a function definition in source order, each with its
/// positional priority, ready to be parsed.
pub struct UnparsedTree<'a> {
    pub source: &'a str,
    pub tokens: Vec<(Token<'a>, Priority)>,
}

/// Why a function definition could not be tokenized.
#[derive(Clone, Copy, Debug)]
pub enum TokenizeError<'a> {
    /// A lexeme that is not a valid token.
    InvalidToken(SourceToken<'a>),
    /// The regex crate did not compile a pattern of this module.
    PatternRejected,
}

/// The priority that a token has by its kind.
pub open spec fn base_priority_of<'a>(v: TokenValue<'a>) -> int {
    match v {
        TokenValue::ParenClose => 0,
        TokenValue::Plus => 1,
        TokenValue::Minus => 1,
        TokenValue::Mul => 2,
        TokenValue::Div => 2,
        TokenValue::Pow => 3,
        TokenValue::Identifier(_) => 4,
        TokenValue::Number(_) => 4,
        TokenValue::Function(_) => 4,
        TokenValue::ParenOpen => 5,
    }
}

/// The piece of text a token displays as.
pub open spec fn token_piece<'a>(v: TokenValue<'a>) -> Piece<'a> {
    match v {
        TokenValue::Plus => Piece::Text("+"),
        TokenValue::Minus => Piece::Text("-"),
        TokenValue::Mul => Piece::Text("*"),
        TokenValue::Div => Piece::Text("/"),
        TokenValue::Pow => Piece::Text("^"),
        TokenValue::ParenOpen => Piece::Text("("),
        TokenValue::ParenClose => Piece::Text(")"),
        TokenValue::Identifier(name) => Piece::Text(name),
        TokenValue::Number(n) => Piece::Number(n),
        TokenValue::Function(f) => Piece::Text(function_text(f)),
    }
}

impl<'a> TokenValue<'a> {
    pub fn base_priority(&self) -> (res: Priority)
        ensures
            res == base_priority_of(*self),
    {
        match self {
            TokenValue::ParenClose => 0,  // Doesn't get evaluated
            TokenValue::Plus => 1,
            TokenValue::Minus => 1,
            TokenValue::Mul => 2,
            TokenValue::Div => 2,
            TokenValue::Pow => 3,
            TokenValue::Identifier(_) => 4,
            // Numbers are evaluated right away because they don't require operands
            TokenValue::Number(_) => 4,
            TokenValue::Function(_) => 4,
            TokenValue::ParenOpen => 5,
        }
    }

    /// The highest priority a token has by its kind.
    pub open spec fn spec_max_priority() -> int {
        5
    }

    /// The highest priority a token has by its kind: that of `(`.
    pub fn max_priority() -> (res: Priority)
        ensures
            res == Self::spec_max_priority(),
            res == base_priority_of(TokenValue::ParenOpen),
            forall|v: TokenValue| base_priority_of(v) <= res,
    {
        TokenValue::ParenOpen.base_priority()
    }

    /// The piece of text the token displays as.
    pub fn fmt(&self) -> (res: Piece<'a>)
        ensures
            res == token_piece(*self),
    {
        match self {
            TokenValue::Plus => Piece::Text("+"),
            TokenValue::Minus => Piece::Text("-"),
            TokenValue::Mul => Piece::Text("*"),
            TokenValue::Div => Piece::Text("/"),
            TokenValue::Pow => Piece::Text("^"),
            TokenValue::ParenOpen => Piece::Text("("),
            TokenValue::ParenClose => Piece::Text(")"),
            TokenValue::Identifier(name) => Piece::Text(name),
            TokenValue::Number(n) => Piece::Number(n),
            TokenValue::Function(func) => Piece::Text(func.name()),
        }
    }
}

impl<'a> UnparsedTree<'a> {
    /// No tokens yet, for the given source.
    pub fn new(source: &'a str) -> (res: Self)
        ensures
            res.source == source,
            res.tokens@.len() == 0,
    {
        UnparsedTree { source, tokens: Vec::new() }
    }

    /// Appends a token with its positional priority.
    pub fn push_token(&mut self, token: Token<'a>, positional_priority: Priority)
        ensures
            final(self).source == old(self).source,
            final(self).tokens@ == old(self).tokens@.push((token, positional_priority)),
    {
        self.tokens.push((token, positional_priority));
    }
}

/// The lexemes of `source`: the matches of `TOKEN_PATTERN` in the trimmed source.
/// `None` when the regex crate does not compile `TOKEN_PATTERN`.
pub open spec fn lexemes(source: Seq<char>) -> Option<Seq<(Seq<char>, nat)>> {
    if regex_compiles(TOKEN_PATTERN@) {
        Some(regex_matches(TOKEN_PATTERN@, trimmed(source)))
    } else {
        None
    }
}

/// The texts of the lexemes.
pub open spec fn texts(ms: Seq<(Seq<char>, nat)>) -> Seq<Seq<char>> {
    ms.map_values(|m: (Seq<char>, nat)| m.0)
}

/// The texts of source tokens.
pub open spec fn token_texts<'a>(v: Seq<SourceToken<'a>>) -> Seq<Seq<char>> {
    v.map_values(|t: SourceToken<'a>| t.string@)
}

/// Source tokens that are the given lexemes of a source whose leading white
/// space takes `offset` bytes: each column counts from the start of the
/// source, not of the trimmed source.
pub open spec fn source_tokens_are<'a>(
    v: Seq<SourceToken<'a>>,
    ms: Seq<(Seq<char>, nat)>,
    offset: nat,
) -> bool {
    &&& v.len() == ms.len()
    &&& forall|i: int|
        0 <= i < v.len() ==> (#[trigger] v[i]).string@ == ms[i].0 && v[i].column == offset + ms[i].1
            + 1
}

/// Each source token is the text of `text` at its column, and they follow one
/// another without overlapping.
pub open spec fn located_in<'a>(v: Seq<SourceToken<'a>>, text: Seq<char>) -> bool {
    &&& forall|i: int|
        0 <= i < v.len() ==> {
            let start = (#[trigger] v[i]).column - 1;
            let len = bytes_of(v[i].string@).len() as int;
            &&& v[i].column >= 1
            &&& start + len <= bytes_of(text).len()
            &&& bytes_of(text).subrange(start, start + len) == bytes_of(v[i].string@)
        }
    &&& forall|i: int, j: int|
        0 <= i < j < v.len() ==> (#[trigger] v[i]).column + bytes_of(v[i].string@).len()
            <= (#[trigger] v[j]).column
}

/// Cuts the trimmed source into lexemes, each with its column in the source.
/// `None` when the regex crate does not compile `TOKEN_PATTERN`.
pub fn lex<'a>(source: &'a str) -> (res: Option<Vec<SourceToken<'a>>>)
    ensures
        match lexemes(source@) {
            None => res is None,
            Some(ms) => res matches Some(v) && source_tokens_are(v@, ms, leading_space_bytes(source@)),
        },
        res matches Some(v) ==> located_in(v@, source@),
{
    match compile(TOKEN_PATTERN) {
        Some(pattern) => Some(lex_with(&pattern, source)),
        None => None,
    }
}

/// Cuts the trimmed source into lexemes with the compiled `TOKEN_PATTERN`.
fn lex_with<'a>(pattern: &Pattern, source: &'a str) -> (res: Vec<SourceToken<'a>>)
    requires
        pattern@ == TOKEN_PATTERN@,
    ensures
        source_tokens_are(
            res@,
            regex_matches(TOKEN_PATTERN@, trimmed(source@)),
            leading_space_bytes(source@),
        ),
        located_in(res@, source@),
{
    let offset = leading_space_bytes_exec(source);
    let total = byte_length(source);
    let trimmed_source = trim(source);
    let matches = find_matches(pattern, trimmed_source);
    let ghost t = trimmed(source@);
    proof {
        lemma_trimmed_in_source(source@);
    }
    let mut res: Vec<SourceToken<'a>> = Vec::new();
    let mut i: usize = 0;
    while i < matches.len()
        invariant
            i <= matches@.len(),
            offset == leading_space_bytes(source@),
            t == trimmed(source@),
            trimmed_source@ == t,
            total == bytes_of(source@).len(),
            total <= isize::MAX,
            offset + bytes_of(t).len() <= bytes_of(source@).len(),
            bytes_of(source@).subrange(offset as int, (offset + bytes_of(t).len()) as int)
                == bytes_of(t),
            res@.len() == i,
            forall|j: int|
                0 <= j < i ==> (#[trigger] res@[j]).string == matches@[j].0 && res@[j].column
                    == offset + matches@[j].1 + 1,
            forall|j: int|
                0 <= j < matches@.len() ==> {
                    let start = (#[trigger] matches@[j]).1 as int;
                    let len = bytes_of(matches@[j].0@).len() as int;
                    &&& start + len <= bytes_of(t).len()
                    &&& bytes_of(t).subrange(start, start + len) == bytes_of(matches@[j].0@)
                },
        decreases matches@.len() - i,
    {
        let (string, start) = matches[i];
        res.push(SourceToken { string, column: offset + start + 1 });
        i = i + 1;
    }
    proof {
        let b = bytes_of(source@);
        let bt = bytes_of(t);
        assert forall|j: int| 0 <= j < res@.len() implies {
            let start = (#[trigger] res@[j]).column - 1;
            let len = bytes_of(res@[j].string@).len() as int;
            &&& res@[j].column >= 1
            &&& start + len <= b.len()
            &&& b.subrange(start, start + len) == bytes_of(res@[j].string@)
        } by {
            let st = matches@[j].1 as int;
            let len = bytes_of(matches@[j].0@).len() as int;
            assert(b.subrange(offset + st, offset + st + len) =~= bt.subrange(st, st + len));
        }
    }
    res
}

/// The tokens that lexemes become, in order of precedence: an operator or a
/// parenthesis; a number (a string `str::parse::<f64>` accepts); a known
/// function; any other lexeme that `TOKEN_PATTERN` matches is an identifier.
pub open spec fn is_symbol_text(t: Seq<char>) -> bool {
    t == "+"@ || t == "-"@ || t == "*"@ || t == "/"@ || t == "^"@ || t == "("@ || t == ")"@
}

/// Whether a lexeme becomes a token.
pub open spec fn accepted(t: Seq<char>) -> bool {
    is_symbol_text(t) || is_float_literal(t) || function_named(t) is Some || regex_is_match(
        TOKEN_PATTERN@,
        t,
    )
}

/// The token value that the lexeme `t` becomes.
pub open spec fn classifies<'a>(v: TokenValue<'a>, t: Seq<char>) -> bool {
    if t == "+"@ {
        v is Plus
    } else if t == "-"@ {
        v is Minus
    } else if t == "*"@ {
        v is Mul
    } else if t == "/"@ {
        v is Div
    } else if t == "^"@ {
        v is Pow
    } else if t == "("@ {
        v is ParenOpen
    } else if t == ")"@ {
        v is ParenClose
    } else if is_float_literal(t) {
        v matches TokenValue::Number(n) && n@ == t
    } else if function_named(t) is Some {
        v == TokenValue::Function(function_named(t)->0)
    } else {
        v matches TokenValue::Identifier(name) && name@ == t
    }
}

/// How a lexeme changes the parenthesis level.
pub open spec fn paren_step(t: Seq<char>) -> int {
    if t == "("@ {
        TokenValue::spec_max_priority()
    } else if t == ")"@ {
        -TokenValue::spec_max_priority()
    } else {
        0
    }
}

/// The positional priority after the first `n` lexemes: the maximum priority
/// times the number of parentheses they leave open.
pub open spec fn paren_level(ts: Seq<Seq<char>>, n: int) -> int
    decreases n,
{
    if n <= 0 {
        0
    } else {
        paren_level(ts, n - 1) + paren_step(ts[n - 1])
    }
}

/// The positional priority of the `i`-th lexeme: the level before it, or for
/// a closing parenthesis the level after it.
pub open spec fn positional_priority_of(ts: Seq<Seq<char>>, i: int) -> int {
    if ts[i] == ")"@ {
        paren_level(ts, i + 1)
    } else {
        paren_level(ts, i)
    }
}

/// All lexemes before the `i`-th become tokens.
pub open spec fn accepted_before(ts: Seq<Seq<char>>, i: int) -> bool {
    forall|j: int| 0 <= j < i ==> accepted(#[trigger] ts[j])
}

/// The `i`-th lexeme is the first that does not become a token.
pub open spec fn first_unaccepted(ts: Seq<Seq<char>>, i: int) -> bool {
    0 <= i < ts.len() && accepted_before(ts, i) && !accepted(ts[i])
}

/// The tokens are the given source tokens in order, each classified by its
/// text and with its positional priority.
pub open spec fn tokens_are<'a>(tokens: Seq<(Token<'a>, Priority)>, v: Seq<SourceToken<'a>>) -> bool {
    &&& tokens.len() == v.len()
    &&& forall|i: int|
        0 <= i < tokens.len() ==> {
            let (token, priority) = #[trigger] tokens[i];
            &&& *token.source == v[i]
            &&& classifies(token.value, v[i].string@)
            &&& priority == positional_priority_of(token_texts(v), i)
        }
}

/// The source tokens that tokens stand for.
pub open spec fn sources_of<'a>(tokens: Seq<(Token<'a>, Priority)>) -> Seq<SourceToken<'a>> {
    tokens.map_values(|p: (Token<'a>, Priority)| *p.0.source)
}

/// Turns lexemes into tokens, each paired with its positional priority.
///
/// Fails with the first lexeme that is not a valid token, or when the regex
/// crate does not compile `TOKEN_PATTERN`.
pub fn tokens_of_lexemes<'a>(source: &'a str, lexemes: Vec<SourceToken<'a>>) -> (res: Result<
    UnparsedTree<'a>,
    TokenizeError<'a>,
>)
    ensures
        res matches Err(TokenizeError::PatternRejected) <==> !regex_compiles(TOKEN_PATTERN@),
        res matches Ok(tree) ==> {
            &&& tree.source == source
            &&& accepted_before(token_texts(lexemes@), lexemes@.len() as int)
            &&& tokens_are(tree.tokens@, lexemes@)
        },
        res matches Err(TokenizeError::InvalidToken(t)) ==> exists|i: int|
            #[trigger] first_unaccepted(token_texts(lexemes@), i) && t == lexemes@[i],
{
    match compile(TOKEN_PATTERN) {
        Some(pattern) => tokens_with(&pattern, source, lexemes),
        None => Err(TokenizeError::PatternRejected),
    }
}

/// Turns lexemes into tokens with the compiled `TOKEN_PATTERN`.
fn tokens_with<'a>(pattern: &Pattern, source: &'a str, lexemes: Vec<SourceToken<'a>>) -> (res: Result<
    UnparsedTree<'a>,
    TokenizeError<'a>,
>)
    requires
        pattern@ == TOKEN_PATTERN@,
    ensures
        !(res matches Err(TokenizeError::PatternRejected)),
        res matches Ok(tree) ==> {
            &&& tree.source == source
            &&& accepted_before(token_texts(lexemes@), lexemes@.len() as int)
            &&& tokens_are(tree.tokens@, lexemes@)
        },
        res matches Err(TokenizeError::InvalidToken(t)) ==> exists|i: int|
            #[trigger] first_unaccepted(token_texts(lexemes@), i) && t == lexemes@[i],
{
    let ghost ts = token_texts(lexemes@);
    let mut tokens = UnparsedTree::new(source);
    let mut positional_priority: Priority = 0;
    let mut i: usize = 0;
    while i < lexemes.len()
        invariant
            pattern@ == TOKEN_PATTERN@,
            ts == token_texts(lexemes@),
            i <= lexemes@.len(),
            tokens.source == source,
            tokens_are(tokens.tokens@, lexemes@.take(i as int)),
            accepted_before(ts, i as int),
            positional_priority == paren_level(ts, i as int),
            -5 * i <= positional_priority <= 5 * i,
        decreases lexemes@.len() - i,
    {
        let token = lexemes[i];
        assert(ts[i as int] == token.string@);
        let value = match classify(pattern, token) {
            Some(v) => v,
            None => {
                assert(first_unaccepted(ts, i as int));
                return Err(TokenizeError::InvalidToken(token));
            },
        };
        let ghost before = tokens.tokens@;
        proof {
            lemma_paren_kind(value, token.string@);
        }
        match value {
            TokenValue::ParenOpen => {
                tokens.push_token(Token { value, source: Rc::new(token) }, positional_priority);
                positional_priority = positional_priority + TokenValue::max_priority();
            },
            TokenValue::ParenClose => {
                positional_priority = positional_priority - TokenValue::max_priority();
                tokens.push_token(Token { value, source: Rc::new(token) }, positional_priority);
            },
            _ => {
                tokens.push_token(Token { value, source: Rc::new(token) }, positional_priority);
            },
        }
        proof {
            let pushed = tokens.tokens@.last();
            assert(tokens.tokens@ == before.push(pushed));
            lemma_tokens_push(lexemes@, i as int, before, pushed);
        }
        i = i + 1;
    }
    proof {
        assert(lexemes@.take(lexemes@.len() as int) =~= lexemes@);
    }
    Ok(tokens)
}

/// Turns a function definition into its tokens: its lexemes, each classified
/// and paired with its positional priority.
///
/// Fails with the first lexeme that is not a valid token, or when the regex
/// crate does not compile `TOKEN_PATTERN`.
pub fn tokenize<'a>(source: &'a str) -> (res: Result<UnparsedTree<'a>, TokenizeError<'a>>)
    ensures
        res matches Err(TokenizeError::PatternRejected) <==> lexemes(source@) is None,
        res matches Ok(tree) ==> {
            &&& lexemes(source@) matches Some(ms)
            &&& tree.source == source
            &&& source_tokens_are(sources_of(tree.tokens@), ms, leading_space_bytes(source@))
            &&& located_in(sources_of(tree.tokens@), source@)
            &&& accepted_before(texts(ms), ms.len() as int)
            &&& tokens_are(tree.tokens@, sources_of(tree.tokens@))
        },
        res matches Err(TokenizeError::InvalidToken(t)) ==> {
            &&& lexemes(source@) matches Some(ms)
            &&& exists|i: int|
                #[trigger] first_unaccepted(texts(ms), i) && t.string@ == ms[i].0 && t.column
                    == leading_space_bytes(source@) + ms[i].1 + 1
        },
{
    let pattern = match compile(TOKEN_PATTERN) {
        Some(p) => p,
        None => return Err(TokenizeError::PatternRejected),
    };
    let raw_tokens = lex_with(&pattern, source);
    let ghost ms = lexemes(source@)->0;
    let ghost v = raw_tokens@;
    proof {
        assert(token_texts(v) =~= texts(ms));
    }
    let res = tokens_with(&pattern, source, raw_tokens);
    let ghost outcome = res;
    proof {
        match outcome {
            Ok(tree) => {
                assert(sources_of(tree.tokens@) =~= v);
            },
            Err(TokenizeError::InvalidToken(t)) => {
                let i = choose|i: int| #[trigger] first_unaccepted(token_texts(v), i) && t == v[i];
                assert(first_unaccepted(texts(ms), i));
            },
            Err(TokenizeError::PatternRejected) => {},
        }
    }
    res
}

/// The token value a lexeme becomes, if it is a valid token.
fn classify<'a>(pattern: &Pattern, token: SourceToken<'a>) -> (res: Option<TokenValue<'a>>)
    requires
        pattern@ == TOKEN_PATTERN@,
    ensures
        res is Some <==> accepted(token.string@),
        res matches Some(v) ==> classifies(v, token.string@),
{
    let string = token.string;
    if same_text(string, "+") {
        Some(TokenValue::Plus)
    } else if same_text(string, "-") {
        Some(TokenValue::Minus)
    } else if same_text(string, "*") {
        Some(TokenValue::Mul)
    } else if same_text(string, "/") {
        Some(TokenValue::Div)
    } else if same_text(string, "^") {
        Some(TokenValue::Pow)
    } else if same_text(string, "(") {
        Some(TokenValue::ParenOpen)
    } else if same_text(string, ")") {
        Some(TokenValue::ParenClose)
    } else if is_float_literal_exec(string) {
        Some(TokenValue::Number(string))
    } else if let Some(function) = Functions::from_name(string) {
        Some(TokenValue::Function(function))
    } else {
        if pattern_matches(pattern, string) {
            Some(TokenValue::Identifier(string))
        } else {
            None
        }
    }
}

/// The token value of a lexeme is a parenthesis exactly when the lexeme is one.
proof fn lemma_paren_kind<'a>(v: TokenValue<'a>, t: Seq<char>)
    requires
        classifies(v, t),
    ensures
        v is ParenOpen <==> t == "("@,
        v is ParenClose <==> t == ")"@,
{
    lemma_symbol_texts();
    if t == "("@ || t == ")"@ {
        assert(t.len() == 1);
        assert(t[0] == '(' || t[0] == ')');
        assert(t != "+"@ && t != "-"@ && t != "*"@ && t != "/"@ && t != "^"@) by {
            assert("+"@[0] == '+' && "-"@[0] == '-' && "*"@[0] == '*');
            assert("/"@[0] == '/' && "^"@[0] == '^');
        }
        if t == ")"@ {
            assert(t != "("@) by {
                assert("("@[0] == '(');
            }
        }
    }
}

/// The texts of the operators and parentheses are distinct.
proof fn lemma_symbol_texts()
    ensures
        "+"@ == seq!['+'],
        "-"@ == seq!['-'],
        "*"@ == seq!['*'],
        "/"@ == seq!['/'],
        "^"@ == seq!['^'],
        "("@ == seq!['('],
        ")"@ == seq![')'],
{
    reveal_strlit("+");
    reveal_strlit("-");
    reveal_strlit("*");
    reveal_strlit("/");
    reveal_strlit("^");
    reveal_strlit("(");
    reveal_strlit(")");
    assert("+"@ =~= seq!['+']);
    assert("-"@ =~= seq!['-']);
    assert("*"@ =~= seq!['*']);
    assert("/"@ =~= seq!['/']);
    assert("^"@ =~= seq!['^']);
    assert("("@ =~= seq!['(']);
    assert(")"@ =~= seq![')']);
}

/// Appending the token of the `i`-th lexeme keeps the tokens those of the
/// lexemes so far.
proof fn lemma_tokens_push<'a>(
    v: Seq<SourceToken<'a>>,
    i: int,
    before: Seq<(Token<'a>, Priority)>,
    pushed: (Token<'a>, Priority),
)
    requires
        0 <= i < v.len(),
        tokens_are(before, v.take(i)),
        *pushed.0.source == v[i],
        classifies(pushed.0.value, v[i].string@),
        pushed.1 == positional_priority_of(token_texts(v), i),
    ensures
        tokens_are(before.push(pushed), v.take(i + 1)),
{
    let ts = token_texts(v);
    lemma_texts_prefix(v, i + 1);
    lemma_texts_prefix(v, i);
    let after = before.push(pushed);
    assert forall|j: int| 0 <= j < after.len() implies {
        let (token, priority) = #[trigger] after[j];
        &&& *token.source == v.take(i + 1)[j]
        &&& classifies(token.value, v.take(i + 1)[j].string@)
        &&& priority == positional_priority_of(token_texts(v.take(i + 1)), j)
    } by {
        if j < i {
            assert(after[j] == before[j]);
            assert(v.take(i + 1)[j] == v.take(i)[j]);
            assert(positional_priority_of(token_texts(v.take(i)), j) == positional_priority_of(ts, j));
        } else {
            assert(after[j] == pushed);
        }
        assert(positional_priority_of(token_texts(v.take(i + 1)), j) == positional_priority_of(ts, j));
    }
}

/// The positional priorities of the first `i` lexemes depend on them alone.
proof fn lemma_texts_prefix<'a>(v: Seq<SourceToken<'a>>, i: int)
    requires
        0 <= i <= v.len(),
    ensures
        token_texts(v.take(i)) == token_texts(v).take(i),
        forall|j: int|
            0 <= j < i ==> positional_priority_of(token_texts(v.take(i)), j) == positional_priority_of(
                token_texts(v),
                j,
            ),
{
    let ts = token_texts(v);
    assert(token_texts(v.take(i)) =~= ts.take(i));
    assert forall|j: int| 0 <= j < i implies positional_priority_of(token_texts(v.take(i)), j)
        == positional_priority_of(ts, j) by {
        lemma_paren_level_prefix(ts, i, j);
        lemma_paren_level_prefix(ts, i, j + 1);
    }
}

/// The level after the first `n` lexemes depends on those lexemes alone.
proof fn lemma_paren_level_prefix(ts: Seq<Seq<char>>, k: int, n: int)
    requires
        0 <= n <= k <= ts.len(),
    ensures
        paren_level(ts.take(k), n) == paren_level(ts, n),
    decreases n,
{
    if n > 0 {
        lemma_paren_level_prefix(ts, k, n - 1);
    }
}

/// Whether `var` is a valid variable name. `None` when the regex crate does
/// not compile `VARIABLE_PATTERN`.
pub fn is_variable<'a>(var: &'a str) -> (res: Option<bool>)
    ensures
        res is Some == regex_compiles(VARIABLE_PATTERN@),
        res matches Some(b) ==> b == regex_is_match(VARIABLE_PATTERN@, var@),
{
    match compile(VARIABLE_PATTERN) {
        Some(pattern) => Some(pattern_matches(&pattern, var)),
        None => None,
    }
}

/// Operands are evaluated before operators, powers before products and
/// quotients, those before sums and differences, and an opening parenthesis
/// has the highest priority.
pub proof fn lemma_priority_order()
    ensures
        forall|v: TokenValue| #[trigger] base_priority_of(v) <= base_priority_of(TokenValue::ParenOpen),
        forall|n: &str| #[trigger] base_priority_of(TokenValue::Number(n)) > base_priority_of(TokenValue::Pow),
        forall|n: &str| #[trigger] base_priority_of(TokenValue::Identifier(n)) > base_priority_of(TokenValue::Pow),
        forall|f: Functions| #[trigger] base_priority_of(TokenValue::Function(f)) > base_priority_of(TokenValue::Pow),
        base_priority_of(TokenValue::Pow) > base_priority_of(TokenValue::Mul),
        base_priority_of(TokenValue::Mul) == base_priority_of(TokenValue::Div),
        base_priority_of(TokenValue::Div) > base_priority_of(TokenValue::Plus),
        base_priority_of(TokenValue::Plus) == base_priority_of(TokenValue::Minus),
        base_priority_of(TokenValue::Minus) > base_priority_of(TokenValue::ParenClose),
{
}

/// The base priorities: `)` 0, `+` and `-` 1, `*` and `/` 2, `^` 3,
/// identifiers, numbers and functions 4, `(` 5, the maximum.
pub proof fn lemma_base_priorities()
    ensures
        base_priority_of(TokenValue::ParenClose) == 0,
        base_priority_of(TokenValue::Plus) == 1,
        base_priority_of(TokenValue::Minus) == 1,
        base_priority_of(TokenValue::Mul) == 2,
        base_priority_of(TokenValue::Div) == 2,
        base_priority_of(TokenValue::Pow) == 3,
        forall|n: &str| #[trigger] base_priority_of(TokenValue::Identifier(n)) == 4,
        forall|n: &str| #[trigger] base_priority_of(TokenValue::Number(n)) == 4,
        forall|f: Functions| #[trigger] base_priority_of(TokenValue::Function(f)) == 4,
        base_priority_of(TokenValue::ParenOpen) == 5,
        TokenValue::spec_max_priority() == 5,
{
}

/// Each token displays as its own text: the operator or parenthesis, the
/// identifier's name, the numeral, the function's name.
pub proof fn lemma_token_pieces<'a>(v: TokenValue<'a>)
    ensures
        v is Plus ==> token_piece(v) == Piece::Text("+"),
        v is Minus ==> token_piece(v) == Piece::Text("-"),
        v is Mul ==> token_piece(v) == Piece::Text("*"),
        v is Div ==> token_piece(v) == Piece::Text("/"),
        v is Pow ==> token_piece(v) == Piece::Text("^"),
        v is ParenOpen ==> token_piece(v) == Piece::Text("("),
        v is ParenClose ==> token_piece(v) == Piece::Text(")"),
        v matches TokenValue::Identifier(name) ==> token_piece(v) == Piece::Text(name),
        v matches TokenValue::Number(n) ==> token_piece(v) == Piece::Number(n),
        v matches TokenValue::Function(f) ==> token_piece(v) matches Piece::Text(t) && t@
            == function_name(f),
{
    crate::functions::lemma_name_table();
}

/// How lexemes become tokens: each operator and parenthesis its own token;
/// a string `f64` parsing accepts a number with that numeral; a function's
/// name that function; and anything else an identifier with that name.
pub proof fn lemma_classification<'a>(v: TokenValue<'a>, t: Seq<char>)
    ensures
        t == "+"@ ==> (classifies(v, t) <==> v is Plus),
        t == "-"@ ==> (classifies(v, t) <==> v is Minus),
        t == "*"@ ==> (classifies(v, t) <==> v is Mul),
        t == "/"@ ==> (classifies(v, t) <==> v is Div),
        t == "^"@ ==> (classifies(v, t) <==> v is Pow),
        t == "("@ ==> (classifies(v, t) <==> v is ParenOpen),
        t == ")"@ ==> (classifies(v, t) <==> v is ParenClose),
        is_float_literal(t) ==> (classifies(v, t) <==> (v matches TokenValue::Number(n) && n@ == t)),
        forall|f: Functions|
            t == #[trigger] function_name(f) ==> (classifies(v, t) <==> v == TokenValue::Function(f)),
        !is_symbol_text(t) && !is_float_literal(t) && function_named(t) is None ==> (classifies(v, t)
            <==> (v matches TokenValue::Identifier(name) && name@ == t)),
{
    lemma_symbol_texts();
    crate::numerals::lemma_float_words();
    assert(!is_float_literal(seq!['*'])) by {
        lemma_foreign_char(seq!['*'], 0);
    }
    assert(!is_float_literal(seq!['/'])) by {
        lemma_foreign_char(seq!['/'], 0);
    }
    assert(!is_float_literal(seq!['^'])) by {
        lemma_foreign_char(seq!['^'], 0);
    }
    assert(!is_float_literal(seq!['('])) by {
        lemma_foreign_char(seq!['('], 0);
    }
    assert(!is_float_literal(seq![')'])) by {
        lemma_foreign_char(seq![')'], 0);
    }
    assert forall|f: Functions| t == #[trigger] function_name(f) implies (classifies(v, t)
        <==> v == TokenValue::Function(f)) by {
        let name = function_name(f);
        assert(name[0] == 's' || name[0] == 'c' || name[0] == 't' || name[0] == 'a' || name[0]
            == 'l');
        lemma_leading_letter(name);
        assert(!is_symbol_text(name)) by {
            assert(name.len() >= 2);
        }
        crate::functions::lemma_name_round_trip(f);
    }
}

/// Whether a lexeme becomes a token: operators, parentheses, numbers and
/// function names always do.
pub proof fn lemma_accepted(t: Seq<char>)
    ensures
        is_symbol_text(t) ==> accepted(t),
        is_float_literal(t) ==> accepted(t),
        function_named(t) is Some ==> accepted(t),
{
}

/// The parenthesis level starts at 0, rises by 5 after `(`, falls by 5
/// after `)` and stays after any other lexeme; a lexeme's positional priority
/// is the level before it, or after it for `)`.
pub proof fn lemma_paren_levels(ts: Seq<Seq<char>>, n: int)
    requires
        0 <= n < ts.len(),
    ensures
        paren_level(ts, 0) == 0,
        ts[n] == "("@ ==> paren_level(ts, n + 1) == paren_level(ts, n) + 5,
        ts[n] == ")"@ ==> paren_level(ts, n + 1) == paren_level(ts, n) - 5,
        ts[n] != "("@ && ts[n] != ")"@ ==> paren_level(ts, n + 1) == paren_level(ts, n),
        ts[n] == ")"@ ==> positional_priority_of(ts, n) == paren_level(ts, n) - 5,
        ts[n] != ")"@ ==> positional_priority_of(ts, n) == paren_level(ts, n),
{
    lemma_symbol_texts();
    assert("("@ != ")"@) by {
        assert("("@[0] != ")"@[0]);
    }
}

/// The `i`-th and `k`-th lexemes are a pair of matching parentheses.
pub open spec fn matching_parens(ts: Seq<Seq<char>>, i: int, k: int) -> bool {
    &&& 0 <= i < k < ts.len()
    &&& ts[i] == "("@
    &&& ts[k] == ")"@
    &&& paren_level(ts, k + 1) == paren_level(ts, i)
    &&& forall|j: int| i < j < k ==> #[trigger] paren_level(ts, j + 1) > paren_level(ts, i)
}

/// Every parenthesis level is a multiple of the maximum priority.
proof fn lemma_paren_level_multiple(ts: Seq<Seq<char>>, n: int)
    ensures
        paren_level(ts, n) % 5 == 0,
    decreases n,
{
    if n > 0 {
        lemma_paren_level_multiple(ts, n - 1);
    }
}

/// Tokens found inside parentheses have a higher priority than the tokens
/// around them: at least the maximum priority more than the parentheses,
/// which both have the priority of the level around them.
pub proof fn lemma_parenthesized_priority(ts: Seq<Seq<char>>, i: int, j: int, k: int)
    requires
        matching_parens(ts, i, k),
        i < j < k,
    ensures
        positional_priority_of(ts, j) >= positional_priority_of(ts, i) + TokenValue::spec_max_priority(),
        positional_priority_of(ts, k) == positional_priority_of(ts, i),
{
    lemma_symbol_texts();
    assert(ts[i] != ")"@) by {
        assert(ts[i][0] == '(');
    }
    lemma_paren_level_multiple(ts, i);
    lemma_paren_level_multiple(ts, j);
    lemma_paren_level_multiple(ts, j + 1);
    if ts[j] != ")"@ {
        if j == i + 1 {
            assert(paren_level(ts, i + 1) == paren_level(ts, i) + 5);
        } else {
            assert(paren_level(ts, (j - 1) + 1) > paren_level(ts, i));
        }
    } else {
        assert(paren_level(ts, j + 1) > paren_level(ts, i));
    }
}

} // verus!
