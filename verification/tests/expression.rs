use flake_auto_follows::commands::InputRulesValidationResult;
use flake_auto_follows::config::FollowRule;
use flake_auto_follows::expression::{
    check_expression, count_descents, judge, prepare_fixes, ExpressionError,
};
use flake_auto_follows::metadata::InputName;

const FLAKE: &str = r#"{
  description = "A flake";

  inputs = {
    nixpkgs.url = "github:NixOS/nixpkgs/nixos-unstable";
    flake-utils.url = "github:numtide/flake-utils";
  };

  outputs = { self, nixpkgs, flake-utils }: { };
}
"#;

fn to_fix() -> Vec<InputRulesValidationResult> {
    let rule = FollowRule {
        input: "nixpkgs".to_string(),
        follows: "nixpkgs".to_string(),
        exclude: None,
    };
    vec![InputRulesValidationResult::new(InputName("flake-utils".to_string()), vec![rule])]
}

#[test]
fn flake_is_an_expression() {
    assert_eq!(check_expression(FLAKE), Ok(()));
    assert_eq!(check_expression("{ inputs.nixpkgs.follows = \"nixpkgs\"; }"), Ok(()));
    assert_eq!(check_expression("1 + 1"), Ok(()));
}

#[test]
fn text_that_does_not_parse_is_refused_with_the_complaint() {
    let error = check_expression("{ inputs = ").unwrap_err();
    assert!(matches!(error, ExpressionError::Syntax(_)));
    assert!(!error.message().is_empty());
    assert!(matches!(check_expression("{ a = 1; "), Err(ExpressionError::Syntax(_))));
    assert!(matches!(check_expression("}"), Err(ExpressionError::Syntax(_))));
}

#[test]
fn same_text_is_judged_alike() {
    assert_eq!(check_expression("{ a = ; }"), check_expression("{ a = ; }"));
    assert_ne!(check_expression("{ a = ; }"), check_expression("{ a = 1; }"));
}

#[test]
fn tree_without_an_expression_is_refused() {
    assert_eq!(judge(Ok(false)), Err(ExpressionError::NotAnExpression));
    assert_eq!(ExpressionError::NotAnExpression.message(), "not a valid expression");
}

#[test]
fn tree_with_an_expression_is_taken() {
    assert_eq!(judge(Ok(true)), Ok(()));
}

#[test]
fn complaint_of_the_parser_is_handed_on() {
    let complaint = "unexpected end of file".to_string();
    assert_eq!(judge(Err(complaint.clone())), Err(ExpressionError::Syntax(complaint.clone())));
    assert_eq!(ExpressionError::Syntax(complaint.clone()).message(), complaint);
}

#[test]
fn text_that_is_too_long_has_its_own_message() {
    assert_eq!(ExpressionError::TooLong.message(), "the text is too long to be parsed");
}

#[test]
fn fixes_are_prepared_for_a_flake_that_parses() {
    assert_eq!(prepare_fixes(FLAKE, &to_fix()), Ok(()));
    assert_eq!(prepare_fixes(FLAKE, &[]), Ok(()));
}

#[test]
fn fixes_are_refused_for_a_flake_that_does_not_parse() {
    let outcome = prepare_fixes("{ inputs = { nixpkgs.url = ; }; }", &to_fix());
    assert!(matches!(outcome, Err(ExpressionError::Syntax(_))));
    assert_eq!(outcome, check_expression("{ inputs = { nixpkgs.url = ; }; }"));
}

fn fill(mut text: String, with: &str, length: usize) -> String {
    while text.len() + with.len() <= length {
        text.push_str(with);
    }
    text
}

#[test]
fn text_of_the_greatest_length_is_parsed() {
    let text = fill(String::new(), "a ", 4096);
    assert_eq!(text.len(), 4096);
    assert_eq!(check_expression(&text), Ok(()));
}

#[test]
fn text_that_is_too_long_is_refused_unparsed() {
    let text = fill(String::new(), "a ", 4096) + "a";
    assert_eq!(text.len(), 4097);
    assert_eq!(check_expression(&text), Err(ExpressionError::TooLong));
    assert_eq!(prepare_fixes(&text, &to_fix()), Err(ExpressionError::TooLong));
    assert_eq!(check_expression(&"[".repeat(200_000)), Err(ExpressionError::TooLong));
}

#[test]
fn text_with_the_most_descents_is_parsed() {
    let lists = "[".repeat(512) + &"]".repeat(512);
    assert_eq!(count_descents(lists.as_bytes()), 512);
    assert_eq!(check_expression(&lists), Ok(()));
    let negated = "-".repeat(512) + "1";
    assert_eq!(check_expression(&negated), Ok(()));
    let inverted = "!".repeat(512) + "a";
    assert_eq!(check_expression(&inverted), Ok(()));
}

#[test]
fn text_with_too_many_descents_is_refused_unparsed() {
    let lists = "[".repeat(513) + &"]".repeat(513);
    assert_eq!(check_expression(&lists), Err(ExpressionError::TooDeep));
    assert_eq!(check_expression(&("-".repeat(513) + "1")), Err(ExpressionError::TooDeep));
    assert_eq!(check_expression(&("!".repeat(513) + "a")), Err(ExpressionError::TooDeep));
    assert_eq!(check_expression(&"[".repeat(4096)), Err(ExpressionError::TooDeep));
    assert_eq!(prepare_fixes(&lists, &to_fix()), Err(ExpressionError::TooDeep));
    assert_eq!(
        ExpressionError::TooDeep.message(),
        "the text is nested too deep to be parsed"
    );
}

#[test]
fn descents_are_counted_byte_by_byte() {
    assert_eq!(count_descents(b""), 0);
    assert_eq!(count_descents(b"a b c"), 0);
    assert_eq!(count_descents(b"["), 1);
    assert_eq!(count_descents(b"!"), 1);
    assert_eq!(count_descents(b"-"), 1);
    assert_eq!(count_descents(b"->"), 1);
    assert_eq!(count_descents(b"+"), 0);
    assert_eq!(count_descents(b"++"), 1);
    assert_eq!(count_descents(b"+++"), 2);
    assert_eq!(count_descents(b"/"), 0);
    assert_eq!(count_descents(b"//"), 1);
    assert_eq!(count_descents(b"<"), 0);
    assert_eq!(count_descents(b"<|"), 1);
    assert_eq!(count_descents(b"|<"), 0);
    assert_eq!(count_descents(b"or"), 1);
    assert_eq!(count_descents(b"ro"), 0);
    assert_eq!(count_descents(b"o"), 0);
    assert_eq!(count_descents(b"import"), 1);
    assert_eq!(count_descents(b"a.b or [ -1 !c ] ++ d // e -> f <| g"), 8);
    assert_eq!(count_descents(b"\"[\" # [-!"), 4);
    assert_eq!(count_descents(FLAKE.as_bytes()), 4);
}

#[test]
fn deepest_texts_within_the_limits_are_parsed() {
    let parens = "(".repeat(511);
    let texts = vec![
        fill(parens.clone() + &"[".repeat(512), "a ", 4096),
        fill(parens.clone() + &"-".repeat(512), "a ", 4096),
        fill(parens.clone() + &"!".repeat(512), "a ", 4096),
        fill("if ".repeat(511) + &"[".repeat(512), "a ", 4096),
        fill("a: ".repeat(511) + &"[".repeat(512), "a ", 4096),
        fill("a.b or ".repeat(512), "a ", 4096),
        fill("a ++ ".repeat(512), "a ", 4096),
        fill("a // ".repeat(512), "a ", 4096),
        fill("a -> ".repeat(512), "a ", 4096),
        fill("a <| ".repeat(512), "a ", 4096),
        fill(parens.clone() + &"a ++ ".repeat(512), "a ", 4096),
        fill(parens.clone() + "a", "+a", 4096),
        fill(parens.clone() + "a", "?a", 4096),
        fill(parens.clone() + "a", "{}", 4096),
        fill(parens.clone() + "a", "\"\"", 4096),
        fill(parens.clone() + "1", ".1", 4096),
        fill(parens.clone() + "a", "*a", 4096),
        fill("".to_string(), "\"${", 4096),
        fill("".to_string(), "a+", 4096),
        fill("".to_string(), "a:", 4096),
        fill("".to_string(), "{a=", 4096),
        fill("".to_string(), "(", 4096),
    ];
    for text in texts {
        assert!(text.len() <= 4096);
        assert!(count_descents(text.as_bytes()) <= 512);
        let outcome = check_expression(&text);
        assert_ne!(outcome, Err(ExpressionError::TooLong));
        assert_ne!(outcome, Err(ExpressionError::TooDeep));
    }
}
