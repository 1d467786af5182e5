use flake_auto_follows::commands::{check_input, InputRulesValidationResult};
use flake_auto_follows::config::FollowRule;
use flake_auto_follows::error::ModelError;
use flake_auto_follows::metadata::{InputMap, InputName, InputRef, Node, NodeName};

fn rule(input: &str, follows: &str) -> FollowRule {
    FollowRule { input: input.to_string(), follows: follows.to_string(), exclude: None }
}

fn node_ref(name: &str) -> InputRef {
    InputRef::NodeRef(NodeName(name.to_string()))
}

fn follows(chain: &[&str]) -> InputRef {
    InputRef::Follows(chain.iter().map(|name| NodeName(name.to_string())).collect())
}

fn node_with(inputs: Vec<(&str, InputRef)>) -> Node {
    let mut map = InputMap::new();
    for (name, reference) in inputs {
        map.insert(InputName(name.to_string()), reference);
    }
    Node { inputs: Some(map) }
}

fn check(node: Node, rules: &[FollowRule]) -> Result<InputRulesValidationResult, ModelError> {
    check_input(&(InputName("flake-utils".to_string()), node), rules)
}

#[test]
fn input_that_follows_the_rule_is_valid() {
    let node = node_with(vec![("nixpkgs", follows(&["nixpkgs"]))]);
    let result = check(node, &[rule("nixpkgs", "nixpkgs")]).unwrap();
    assert!(result.is_valid());
    assert!(result.broken_rules().is_empty());
    assert_eq!(result.input(), &InputName("flake-utils".to_string()));
}

#[test]
fn input_that_is_a_node_of_its_own_breaks_the_rule() {
    let node = node_with(vec![("nixpkgs", node_ref("nixpkgs_2"))]);
    let result = check(node, &[rule("nixpkgs", "nixpkgs")]).unwrap();
    assert!(!result.is_valid());
    assert_eq!(result.broken_rules(), &[rule("nixpkgs", "nixpkgs")]);
    assert_eq!(result.broken_rules()[0].to_string(), "(nixpkgs -> nixpkgs)");
}

#[test]
fn input_that_follows_another_name_breaks_the_rule() {
    let node = node_with(vec![("nixpkgs", follows(&["other"]))]);
    let result = check(node, &[rule("nixpkgs", "nixpkgs")]).unwrap();
    assert!(!result.is_valid());
    assert_eq!(result.broken_rules(), &[rule("nixpkgs", "nixpkgs")]);
}

#[test]
fn without_rules_every_shape_of_input_is_valid() {
    let shapes = vec![
        node_ref("nixpkgs_2"),
        follows(&["nixpkgs"]),
        follows(&["other"]),
        follows(&[]),
        follows(&["a", "b"]),
    ];
    for shape in shapes {
        let result = check(node_with(vec![("nixpkgs", shape)]), &[]).unwrap();
        assert!(result.is_valid());
    }
    let leaf = check(Node { inputs: None }, &[]).unwrap();
    assert!(leaf.is_valid());
}

#[test]
fn chain_of_two_names_is_refused_as_unsupported() {
    let node = node_with(vec![("nixpkgs", follows(&["utils", "nixpkgs"]))]);
    let error = check(node, &[rule("nixpkgs", "nixpkgs")]).unwrap_err();
    assert_eq!(error, ModelError::TransitiveFollows);
    assert!(error.is_unsupported());
    assert_eq!(error.message(), "follow chains of depth greater than 1 are not supported");
}

#[test]
fn chain_of_no_names_is_refused() {
    let node = node_with(vec![("nixpkgs", follows(&[]))]);
    let error = check(node, &[rule("nixpkgs", "nixpkgs")]).unwrap_err();
    assert_eq!(error, ModelError::EmptyFollows);
    assert!(!error.is_unsupported());
    assert_eq!(error.message(), "metadata has a follows attribute with 0 elements");
}

#[test]
fn chain_that_no_rule_speaks_of_is_not_looked_at() {
    let node = node_with(vec![("systems", follows(&["a", "b"])), ("empty", follows(&[]))]);
    let result = check(node, &[rule("nixpkgs", "nixpkgs")]).unwrap();
    assert!(result.is_valid());
}

#[test]
fn inputs_that_no_rule_names_pass() {
    let node = node_with(vec![
        ("systems", node_ref("systems_2")),
        ("utils", follows(&["elsewhere"])),
    ]);
    let rules = [rule("nixpkgs", "nixpkgs"), rule("flake-utils", "flake-utils")];
    let result = check(node, &rules).unwrap();
    assert!(result.is_valid());
    assert_eq!(result.broken_rules().len(), 0);
}

#[test]
fn leaf_node_passes() {
    let result = check(Node { inputs: None }, &[rule("nixpkgs", "nixpkgs")]).unwrap();
    assert!(result.is_valid());
    assert_eq!(result.input(), &InputName("flake-utils".to_string()));
}

#[test]
fn node_without_any_input_passes() {
    let result = check(node_with(vec![]), &[rule("nixpkgs", "nixpkgs")]).unwrap();
    assert!(result.is_valid());
}

#[test]
fn several_rules_can_be_broken_by_one_input() {
    let node = node_with(vec![("nixpkgs", follows(&["nixpkgs"]))]);
    let rules = [
        rule("nixpkgs", "stable"),
        rule("nixpkgs", "nixpkgs"),
        rule("nixpkgs", "unstable"),
    ];
    let result = check(node, &rules).unwrap();
    assert_eq!(result.broken_rules(), &[rule("nixpkgs", "stable"), rule("nixpkgs", "unstable")]);
}

#[test]
fn broken_rules_come_input_by_input_in_the_order_of_names() {
    let node = node_with(vec![
        ("utils", node_ref("utils_2")),
        ("nixpkgs", node_ref("nixpkgs_2")),
        ("systems", follows(&["systems"])),
    ]);
    let rules = [
        rule("utils", "utils"),
        rule("systems", "systems"),
        rule("nixpkgs", "nixpkgs"),
        rule("nixpkgs", "stable"),
    ];
    let result = check(node, &rules).unwrap();
    assert_eq!(
        result.broken_rules(),
        &[rule("nixpkgs", "nixpkgs"), rule("nixpkgs", "stable"), rule("utils", "utils")]
    );
}

#[test]
fn first_faulty_input_in_the_order_of_names_decides_the_error() {
    let node = node_with(vec![("b", follows(&[])), ("a", follows(&["x", "y"]))]);
    let rules = [rule("b", "b"), rule("a", "a")];
    assert_eq!(check(node, &rules).unwrap_err(), ModelError::TransitiveFollows);

    let node = node_with(vec![("a", follows(&[])), ("b", follows(&["x", "y"]))]);
    assert_eq!(check(node, &rules).unwrap_err(), ModelError::EmptyFollows);
}

#[test]
fn fault_wins_over_rules_broken_before_it() {
    let node = node_with(vec![("a", node_ref("a_2")), ("b", follows(&["x", "y"]))]);
    let rules = [rule("a", "a"), rule("b", "b")];
    assert_eq!(check(node, &rules).unwrap_err(), ModelError::TransitiveFollows);
}

#[test]
fn exclude_does_not_change_the_verdict() {
    let node = node_with(vec![("nixpkgs", node_ref("nixpkgs_2"))]);
    let excluding = FollowRule {
        input: "nixpkgs".to_string(),
        follows: "nixpkgs".to_string(),
        exclude: Some(vec!["flake-utils".to_string()]),
    };
    let result = check(node, &[excluding.clone()]).unwrap();
    assert_eq!(result.broken_rules(), &[excluding]);
}

#[test]
fn names_are_compared_letter_for_letter() {
    let node = node_with(vec![("Nixpkgs", node_ref("nixpkgs_2"))]);
    let result = check(node, &[rule("nixpkgs", "nixpkgs")]).unwrap();
    assert!(result.is_valid());

    let node = node_with(vec![("nixpkgs", follows(&["Nixpkgs"]))]);
    let result = check(node, &[rule("nixpkgs", "nixpkgs")]).unwrap();
    assert!(!result.is_valid());
}

#[test]
fn outcome_keeps_what_it_was_made_of() {
    let result = InputRulesValidationResult::new(
        InputName("home-manager".to_string()),
        vec![rule("nixpkgs", "nixpkgs")],
    );
    assert!(!result.is_valid());
    assert_eq!(result.input().0, "home-manager");
    assert_eq!(result.broken_rules(), &[rule("nixpkgs", "nixpkgs")]);
    assert_eq!(result.clone(), result);
}
