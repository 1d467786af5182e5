use flake_auto_follows::commands::{check, validate, InputRulesValidationResult};
use flake_auto_follows::config::{Config, FollowRule};
use flake_auto_follows::error::ModelError;
use flake_auto_follows::metadata::{
    InputMap, InputName, InputRef, Locks, Metadata, Node, NodeMap, NodeName,
};
use flake_auto_follows::nix::ResolvedUrl;
use flake_auto_follows::report::{decimal, summarize, ReportLine};

fn rule(input: &str, follows: &str) -> FollowRule {
    FollowRule { input: input.to_string(), follows: follows.to_string(), exclude: None }
}

fn valid(input: &str) -> InputRulesValidationResult {
    InputRulesValidationResult::new(InputName(input.to_string()), vec![])
}

fn invalid(input: &str) -> InputRulesValidationResult {
    InputRulesValidationResult::new(InputName(input.to_string()), vec![rule("nixpkgs", "nixpkgs")])
}

fn names(results: &[InputRulesValidationResult]) -> Vec<&str> {
    results.iter().map(|result| result.input().0.as_str()).collect()
}

fn node_with(inputs: Vec<(&str, InputRef)>) -> Node {
    let mut map = InputMap::new();
    for (name, reference) in inputs {
        map.insert(InputName(name.to_string()), reference);
    }
    Node { inputs: Some(map) }
}

fn follows(chain: &[&str]) -> InputRef {
    InputRef::Follows(chain.iter().map(|name| NodeName(name.to_string())).collect())
}

fn node_ref(name: &str) -> InputRef {
    InputRef::NodeRef(NodeName(name.to_string()))
}

fn metadata(nodes: Vec<(&str, Node)>) -> Metadata {
    let mut map = NodeMap::new();
    for (name, node) in nodes {
        map.insert(NodeName(name.to_string()), node);
    }
    Metadata {
        locks: Locks { nodes: map, root: NodeName("root".to_string()) },
        resolved_url: ResolvedUrl {
            scheme: "file".to_string(),
            path: "/work/flake".to_string(),
            query_pairs: vec![],
        },
    }
}

fn sample() -> Metadata {
    metadata(vec![
        (
            "root",
            node_with(vec![
                ("nixpkgs", node_ref("nixpkgs")),
                ("home-manager", node_ref("home-manager")),
                ("flake-utils", node_ref("flake-utils")),
                ("agenix", node_ref("agenix")),
            ]),
        ),
        ("nixpkgs", Node { inputs: None }),
        ("nixpkgs_2", Node { inputs: None }),
        ("systems", Node { inputs: None }),
        ("agenix", node_with(vec![("nixpkgs", node_ref("nixpkgs_2"))])),
        ("flake-utils", node_with(vec![("systems", node_ref("systems"))])),
        ("home-manager", node_with(vec![("nixpkgs", follows(&["nixpkgs"]))])),
    ])
}

#[test]
fn report_puts_valid_outcomes_first_and_keeps_their_order() {
    let results = vec![invalid("a"), valid("b"), invalid("c"), valid("d"), valid("e"), invalid("f")];
    let report = summarize(&results);
    assert_eq!(names(&report.ordered_results), vec!["b", "d", "e", "a", "c", "f"]);
    assert_eq!(report.valid_count, 3);
    assert_eq!(report.invalid_count, 3);
    assert!(!report.passed());
}

#[test]
fn report_keeps_every_outcome_as_it_is() {
    let results = vec![invalid("a"), valid("b")];
    let report = summarize(&results);
    assert_eq!(report.ordered_results, vec![valid("b"), invalid("a")]);
}

#[test]
fn report_on_valid_outcomes_passes() {
    let report = summarize(&[valid("a"), valid("b")]);
    assert_eq!(names(&report.ordered_results), vec!["a", "b"]);
    assert_eq!(report.valid_count, 2);
    assert_eq!(report.invalid_count, 0);
    assert!(report.passed());
}

#[test]
fn report_on_invalid_outcomes_fails() {
    let report = summarize(&[invalid("b"), invalid("a")]);
    assert_eq!(names(&report.ordered_results), vec!["b", "a"]);
    assert_eq!(report.valid_count, 0);
    assert_eq!(report.invalid_count, 2);
    assert!(!report.passed());
}

#[test]
fn report_on_nothing_passes() {
    let report = summarize(&[]);
    assert!(report.ordered_results.is_empty());
    assert_eq!(report.valid_count, 0);
    assert_eq!(report.invalid_count, 0);
    assert!(report.passed());
}

#[test]
fn every_input_of_the_root_is_checked() {
    let rules = [rule("nixpkgs", "nixpkgs")];
    let results = validate(&sample(), &rules).unwrap();
    assert_eq!(names(&results), vec!["agenix", "flake-utils", "home-manager", "nixpkgs"]);
    let verdicts: Vec<bool> = results.iter().map(|result| result.is_valid()).collect();
    assert_eq!(verdicts, vec![false, true, true, true]);
    assert_eq!(results[0].broken_rules(), &[rule("nixpkgs", "nixpkgs")]);
}

#[test]
fn check_reports_on_every_input() {
    let rules = [rule("nixpkgs", "nixpkgs")];
    let report = check(&sample(), &rules).unwrap();
    assert_eq!(
        names(&report.ordered_results),
        vec!["flake-utils", "home-manager", "nixpkgs", "agenix"]
    );
    assert_eq!(report.valid_count, 3);
    assert_eq!(report.invalid_count, 1);
    assert!(!report.passed());
}

#[test]
fn check_without_rules_passes() {
    let config = Config { rules: vec![] };
    let report = check(&sample(), &config.rules).unwrap();
    assert_eq!(report.valid_count, 4);
    assert_eq!(report.invalid_count, 0);
    assert!(report.passed());
}

#[test]
fn check_twice_gives_the_same() {
    let graph = sample();
    let rules = [rule("nixpkgs", "nixpkgs"), rule("systems", "systems")];
    let first = check(&graph, &rules).unwrap();
    let second = check(&graph, &rules).unwrap();
    assert_eq!(first, second);
    assert_eq!(first.passed(), second.passed());
    assert_eq!(validate(&graph, &rules), validate(&graph, &rules));
    assert_eq!(first.invalid_count, 2);
}

#[test]
fn check_fails_on_a_graph_at_fault() {
    let graph = metadata(vec![("nixpkgs", Node { inputs: None })]);
    assert_eq!(check(&graph, &[]), Err(ModelError::MissingRoot));

    let graph = metadata(vec![
        ("root", node_with(vec![("a", node_ref("a")), ("b", node_ref("b"))])),
        ("a", node_with(vec![("nixpkgs", node_ref("nixpkgs_2"))])),
        ("b", node_with(vec![("nixpkgs", follows(&["x", "nixpkgs"]))])),
    ]);
    assert_eq!(check(&graph, &[rule("nixpkgs", "nixpkgs")]), Err(ModelError::TransitiveFollows));
    assert_eq!(validate(&graph, &[rule("nixpkgs", "nixpkgs")]), Err(ModelError::TransitiveFollows));
    assert!(check(&graph, &[]).unwrap().passed());
}

#[test]
fn fault_of_the_root_comes_before_faults_behind_it() {
    let graph = metadata(vec![
        ("root", node_with(vec![("a", node_ref("a")), ("b", node_ref("missing"))])),
        ("a", node_with(vec![("nixpkgs", follows(&[]))])),
    ]);
    assert_eq!(check(&graph, &[rule("nixpkgs", "nixpkgs")]), Err(ModelError::DanglingReference));
}

#[test]
fn rule_is_written_with_an_arrow() {
    assert_eq!(rule("nixpkgs", "nixpkgs").to_string(), "(nixpkgs -> nixpkgs)");
    assert_eq!(rule("", "").to_string(), "( -> )");
}

#[test]
fn clone_of_a_rule_equals_the_rule() {
    let with_exclude = FollowRule {
        input: "nixpkgs".to_string(),
        follows: "stable".to_string(),
        exclude: Some(vec!["a".to_string(), "b".to_string()]),
    };
    assert_eq!(with_exclude.clone(), with_exclude);
    let config = Config { rules: vec![with_exclude, rule("a", "b")] };
    assert_eq!(config.clone(), config);
}

fn broken(input: &str, rules: Vec<FollowRule>) -> InputRulesValidationResult {
    InputRulesValidationResult::new(InputName(input.to_string()), rules)
}

fn okay_line(input: &str) -> ReportLine {
    ReportLine::Okay { input: input.to_string() }
}

fn fail_line(input: &str, rule: &str) -> ReportLine {
    ReportLine::Fail { input: input.to_string(), rule: rule.to_string() }
}

#[test]
fn report_has_a_line_for_each_valid_input_and_each_broken_rule() {
    let results = vec![
        broken("agenix", vec![rule("nixpkgs", "nixpkgs"), rule("systems", "systems")]),
        valid("flake-utils"),
        broken("home-manager", vec![rule("nixpkgs", "nixpkgs")]),
        valid("nixpkgs"),
    ];
    let lines = summarize(&results).lines();
    assert_eq!(
        lines,
        vec![
            okay_line("flake-utils"),
            okay_line("nixpkgs"),
            fail_line("agenix", "(nixpkgs -> nixpkgs)"),
            fail_line("agenix", "(systems -> systems)"),
            fail_line("home-manager", "(nixpkgs -> nixpkgs)"),
        ]
    );
}

#[test]
fn report_on_nothing_has_no_lines() {
    assert!(summarize(&[]).lines().is_empty());
}

#[test]
fn lines_are_written_as_text() {
    assert_eq!(okay_line("nixpkgs").to_string(), "okay nixpkgs");
    assert_eq!(
        fail_line("agenix", "(nixpkgs -> nixpkgs)").to_string(),
        "fail agenix does not follow (nixpkgs -> nixpkgs)"
    );
}

#[test]
fn numbers_are_written_in_decimal() {
    assert_eq!(decimal(0), "0");
    assert_eq!(decimal(7), "7");
    assert_eq!(decimal(9), "9");
    assert_eq!(decimal(10), "10");
    assert_eq!(decimal(54), "54");
    assert_eq!(decimal(100), "100");
    assert_eq!(decimal(1234567890), "1234567890");
    assert_eq!(decimal(usize::MAX), usize::MAX.to_string());
}

#[test]
fn failed_run_names_the_count_of_misconfigured_inputs() {
    let report = summarize(&[invalid("a"), valid("b"), invalid("c")]);
    assert_eq!(report.failure(), Some("Found 2 misconfigured inputs".to_string()));
    let many: Vec<InputRulesValidationResult> = (0..12).map(|_| invalid("x")).collect();
    assert_eq!(summarize(&many).failure(), Some("Found 12 misconfigured inputs".to_string()));
}

#[test]
fn passed_run_has_no_failure() {
    assert_eq!(summarize(&[valid("a"), valid("b")]).failure(), None);
    assert_eq!(summarize(&[]).failure(), None);
}
