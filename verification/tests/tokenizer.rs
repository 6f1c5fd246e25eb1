use dcalc::tokenizer::{
    is_variable, lex, tokenize, tokens_of_lexemes, SourceToken, TokenValue, TokenizeError,
    UnparsedTree,
};
use dcalc::numerals::is_float_literal_exec;
use dcalc::functions::Functions;
use dcalc::ast::Piece;

fn kinds(tree: &UnparsedTree) -> Vec<String> {
    tree.tokens.iter().map(|(t, _)| kinds_of(&t.value)).collect()
}

fn priorities(tree: &UnparsedTree) -> Vec<i128> {
    tree.tokens.iter().map(|(_, p)| *p).collect()
}

#[test]
fn test() {
    let foo = "1+1";
    let tokens = tokenize(foo);
    assert!(tokens.is_ok());
}

#[test]
fn one_plus_one_tokens() {
    let tree = tokenize("1+1").ok().unwrap();
    assert_eq!(kinds(&tree), vec!["num:1", "+", "num:1"]);
    assert_eq!(priorities(&tree), vec![0, 0, 0]);
    assert_eq!(tree.source, "1+1");
}

#[test]
fn lex_columns_count_from_the_start_of_the_source() {
    let tokens = lex("  x + 10 ").unwrap();
    let got: Vec<(&str, usize)> = tokens.iter().map(|t| (t.string, t.column)).collect();
    assert_eq!(got, vec![("x", 3), ("+", 5), ("10", 7)]);
    let tokens = lex("  x+1").unwrap();
    let got: Vec<(&str, usize)> = tokens.iter().map(|t| (t.string, t.column)).collect();
    assert_eq!(got, vec![("x", 3), ("+", 4), ("1", 5)]);
}

#[test]
fn columns_are_byte_offsets() {
    let tokens = lex("é+x").unwrap();
    let got: Vec<(&str, usize)> = tokens.iter().map(|t| (t.string, t.column)).collect();
    assert_eq!(got, vec![("é", 1), ("+", 3), ("x", 4)]);
}

#[test]
fn readme_example_tokens() {
    let tree = tokenize("2*x + 6^x - 31").ok().unwrap();
    assert_eq!(
        kinds(&tree),
        vec!["num:2", "*", "id:x", "+", "num:6", "^", "id:x", "-", "num:31"]
    );
}

#[test]
fn a_minus_sign_before_digits_belongs_to_the_number() {
    let tree = tokenize("3-5").ok().unwrap();
    assert_eq!(kinds(&tree), vec!["num:3", "num:-5"]);
    let tree = tokenize("x - 5").ok().unwrap();
    assert_eq!(kinds(&tree), vec!["id:x", "-", "num:5"]);
}

#[test]
fn decimals_and_functions() {
    let tree = tokenize("sin(.5) * ln(2.) / atan(y_1)").ok().unwrap();
    assert_eq!(
        kinds(&tree),
        vec![
            "fn:sin", "(", "num:.5", ")", "*", "fn:ln", "(", "num:2.", ")", "/", "fn:atan", "(",
            "id:y_1", ")"
        ]
    );
}

#[test]
fn float_words_are_numbers() {
    let tree = tokenize("inf * NaN").ok().unwrap();
    assert_eq!(kinds(&tree), vec!["num:inf", "*", "num:NaN"]);
}

#[test]
fn any_other_character_is_an_identifier() {
    let tree = tokenize("x ! .").ok().unwrap();
    assert_eq!(kinds(&tree), vec!["id:x", "id:!", "id:."]);
}

#[test]
fn parentheses_raise_the_positional_priority() {
    let tree = tokenize("a * (b + (c))").ok().unwrap();
    assert_eq!(kinds(&tree), vec!["id:a", "*", "(", "id:b", "+", "(", "id:c", ")", ")"]);
    assert_eq!(priorities(&tree), vec![0, 0, 0, 5, 5, 5, 10, 5, 0]);
}

#[test]
fn an_unmatched_closing_parenthesis_lowers_the_priority() {
    let tree = tokenize("1) + 2").ok().unwrap();
    assert_eq!(priorities(&tree), vec![0, -5, -5, -5]);
}

#[test]
fn empty_source_has_no_tokens() {
    let tree = tokenize("   ").ok().unwrap();
    assert!(tree.tokens.is_empty());
}

#[test]
fn token_sources_point_into_the_source() {
    let tree = tokenize("x^2").ok().unwrap();
    let got: Vec<(&str, usize)> =
        tree.tokens.iter().map(|(t, _)| (t.source.string, t.source.column)).collect();
    assert_eq!(got, vec![("x", 1), ("^", 2), ("2", 3)]);
}

#[test]
fn tokenize_error_is_not_produced_by_valid_lexemes() {
    match tokenize("x*y") {
        Ok(_) => {}
        Err(TokenizeError::InvalidToken(_)) => panic!("unexpected invalid token"),
        Err(TokenizeError::PatternRejected) => panic!("unexpected pattern failure"),
    }
}

#[test]
fn base_priorities() {
    assert_eq!(TokenValue::ParenClose.base_priority(), 0);
    assert_eq!(TokenValue::Plus.base_priority(), 1);
    assert_eq!(TokenValue::Minus.base_priority(), 1);
    assert_eq!(TokenValue::Mul.base_priority(), 2);
    assert_eq!(TokenValue::Div.base_priority(), 2);
    assert_eq!(TokenValue::Pow.base_priority(), 3);
    assert_eq!(TokenValue::Identifier("x").base_priority(), 4);
    assert_eq!(TokenValue::Number("1").base_priority(), 4);
    assert_eq!(TokenValue::Function(Functions::Sin).base_priority(), 4);
    assert_eq!(TokenValue::ParenOpen.base_priority(), 5);
    assert_eq!(TokenValue::max_priority(), 5);
}

#[test]
fn token_display() {
    assert_eq!(TokenValue::Plus.fmt(), Piece::Text("+"));
    assert_eq!(TokenValue::ParenClose.fmt(), Piece::Text(")"));
    assert_eq!(TokenValue::Identifier("y").fmt(), Piece::Text("y"));
    assert_eq!(TokenValue::Number("2.50").fmt(), Piece::Number("2.50"));
    assert_eq!(TokenValue::Function(Functions::Arccos).fmt(), Piece::Text("acos"));
}

#[test]
fn variable_names() {
    assert_eq!(is_variable("x"), Some(true));
    assert_eq!(is_variable("_a1"), Some(true));
    assert_eq!(is_variable("y2z"), Some(true));
    assert_eq!(is_variable("2x"), Some(false));
    assert_eq!(is_variable("x y"), Some(false));
    assert_eq!(is_variable(""), Some(false));
    assert_eq!(is_variable("é"), Some(false));
    assert_eq!(is_variable("x\n"), Some(false));
}

#[test]
fn numerals_agree_with_f64_parsing() {
    let cases = [
        "0", "1", "-1", "+1", "1.", ".5", "-.5", "1.5", "1e5", "1E-5", "1.5e+3", ".e1", ".", "-",
        "+", "", "e5", "1e", "1e+", "inf", "-inf", "+Infinity", "INFINITY", "nan", "NaN", "-nan",
        "infinit", "in", "1.2.3", "1..2", "--1", "1_0", " 1", "1 ", "٣", "0x10", "1e5.5",
        "00.00", "infx", "nanx",
    ];
    for s in cases.iter() {
        let expected = s.parse::<f64>().is_ok();
        assert_eq!(is_float_literal_exec(s), expected, "numeral check of {:?}", s);
    }
}

#[test]
fn unicode_white_space_is_trimmed() {
    let tokens = lex("\u{3000}\u{85}x\u{2028}").unwrap();
    let got: Vec<(&str, usize)> = tokens.iter().map(|t| (t.string, t.column)).collect();
    // three bytes for U+3000, two for U+0085
    assert_eq!(got, vec![("x", 6)]);
}

#[test]
fn tokens_of_given_lexemes() {
    let lexemes = vec![
        SourceToken { string: "(", column: 1 },
        SourceToken { string: "cos", column: 2 },
        SourceToken { string: "7", column: 5 },
        SourceToken { string: ")", column: 6 },
    ];
    let tree = tokens_of_lexemes("(cos 7)", lexemes).ok().unwrap();
    assert_eq!(kinds(&tree), vec!["(", "fn:cos", "num:7", ")"]);
    assert_eq!(priorities(&tree), vec![0, 5, 5, 0]);
    assert_eq!(tree.tokens[2].0.source.column, 5);
}

#[test]
fn displayed_tokens_tokenize_back() {
    let values = [
        TokenValue::Plus,
        TokenValue::Minus,
        TokenValue::Mul,
        TokenValue::Div,
        TokenValue::Pow,
        TokenValue::ParenOpen,
        TokenValue::Function(Functions::Arctan),
        TokenValue::Number("2.5"),
    ];
    for v in values.iter() {
        let text = match v.fmt() {
            Piece::Text(t) => t.to_string(),
            Piece::Number(n) => n.to_string(),
        };
        let tree = tokenize(&text).ok().unwrap();
        assert_eq!(tree.tokens.len(), 1, "tokens of {:?}", text);
        assert_eq!(tree.tokens[0].0.source.column, 1);
        assert_eq!(tree.tokens[0].1, 0);
        assert_eq!(kinds(&tree)[0], kinds_of(v), "value of {:?}", text);
    }
}

fn kinds_of(v: &TokenValue) -> String {
    match v {
        TokenValue::Plus => "+".to_string(),
        TokenValue::Minus => "-".to_string(),
        TokenValue::Mul => "*".to_string(),
        TokenValue::Div => "/".to_string(),
        TokenValue::Pow => "^".to_string(),
        TokenValue::ParenOpen => "(".to_string(),
        TokenValue::ParenClose => ")".to_string(),
        TokenValue::Identifier(n) => format!("id:{}", n),
        TokenValue::Number(n) => format!("num:{}", n),
        TokenValue::Function(f) => format!("fn:{}", f.name()),
    }
}

#[test]
fn a_variable_name_tokenizes_to_itself() {
    for name in ["x", "_a1", "velocity"].iter() {
        assert_eq!(is_variable(name), Some(true));
        let tree = tokenize(name).ok().unwrap();
        assert_eq!(kinds(&tree), vec![format!("id:{}", name)]);
        assert_eq!(tree.tokens[0].0.source.column, 1);
        assert_eq!(priorities(&tree), vec![0]);
    }
}
