//! Checking the inputs of a flake against the follow rules.

use vstd::prelude::*;
use crate::config::FollowRule;
use crate::config::FollowRuleView;
use crate::config::rules_view;
use crate::error::ModelError;
use crate::lists::lemma_flatten_holds_no_more;
use crate::lists::lemma_flatten_keeps;
use crate::lists::lemma_flatten_of_empty_lists;
use crate::metadata::InputName;
use crate::metadata::InputRef;
use crate::metadata::InputRefView;
use crate::metadata::inputs_view;
use crate::metadata::InputsView;
use crate::metadata::LocksView;
use crate::metadata::Metadata;
use crate::metadata::Node;
use crate::metadata::NodeView;
use crate::metadata::root_inputs_of;
use crate::metadata::root_inputs_view;
use crate::metadata::RootInputsView;
use crate::name_map::ascending;
use crate::name_map::named;
use crate::order::lemma_precedes_irreflexive;
use crate::order::precedes;
use crate::outcome::collected;
use crate::outcome::lemma_collected_error;
use crate::outcome::lemma_collected_is_ok;
use crate::outcome::lemma_collected_values;
use crate::outcome::values;
use crate::report::summarize;
use crate::report::summary_of;
use crate::report::ValidationReport;
use crate::report::ValidationReportView;
use crate::selection::fix_step;
use crate::selection::FixAction;
use crate::selection::FixEvent;
use crate::selection::FixState;
use crate::selection::select_from;
use crate::selection::validity;

verus! {

/// The rules that the inputs of one node break.
#[derive(Debug, PartialEq, Eq)]
pub struct InputRulesValidationResult {
    input: InputName,
    broken_rules: Vec<FollowRule>,
}

/// The outcome of checking one node, as plain values.
pub struct ValidationResultView {
    pub input: Seq<char>,
    pub broken_rules: Seq<FollowRuleView>,
}

impl View for InputRulesValidationResult {
    type V = ValidationResultView;

    closed spec fn view(&self) -> ValidationResultView {
        ValidationResultView { input: self.input@, broken_rules: rules_view(self.broken_rules@) }
    }
}

impl ValidationResultView {
    /// No rule is broken.
    pub open spec fn is_valid(self) -> bool {
        self.broken_rules.len() == 0
    }
}

impl InputRulesValidationResult {
    /// The outcome for the node behind `input` with the rules that it breaks.
    pub fn new(input: InputName, broken_rules: Vec<FollowRule>) -> (result: Self)
        ensures
            result@.input == input@,
            result@.broken_rules == rules_view(broken_rules@),
    {
        InputRulesValidationResult { input, broken_rules }
    }

    /// Whether the node breaks no rule.
    pub fn is_valid(&self) -> (valid: bool)
        ensures
            valid == self@.is_valid(),
    {
        self.broken_rules.is_empty()
    }

    /// The name of the input of the root that the node stands behind.
    pub fn input(&self) -> (input: &InputName)
        ensures
            input@ == self@.input,
    {
        &self.input
    }

    /// The rules that the node breaks, in the order in which they were found.
    pub fn broken_rules(&self) -> (rules: &[FollowRule])
        ensures
            rules_view(rules@) == self@.broken_rules,
    {
        self.broken_rules.as_slice()
    }
}

impl Clone for InputRulesValidationResult {
    fn clone(&self) -> (copy: Self)
        ensures
            copy@ == self@,
    {
        let broken_rules = self.broken_rules.clone();
        assert(rules_view(broken_rules@) =~= rules_view(self.broken_rules@));
        InputRulesValidationResult { input: self.input.clone(), broken_rules }
    }
}

/// Some rule speaks of inputs named `name`.
pub open spec fn names_input(rules: Seq<FollowRuleView>, name: Seq<char>) -> bool {
    exists|k: int| 0 <= k < rules.len() && (#[trigger] rules[k]).input == name
}

/// What makes a reference impossible to judge, if anything does: a chain of
/// no names, or a chain of more than one name.
pub open spec fn chain_fault(reference: InputRefView) -> Option<ModelError> {
    match reference {
        InputRefView::NodeRef(_) => None,
        InputRefView::Follows(chain) => if chain.len() == 0 {
            Some(ModelError::EmptyFollows)
        } else if chain.len() == 1 {
            None
        } else {
            Some(ModelError::TransitiveFollows)
        },
    }
}

/// Whether the input breaks the rule: the rule speaks of it, and the input is
/// a node of its own or follows another name than the rule asks for.
pub open spec fn breaks(input: (Seq<char>, InputRefView), rule: FollowRuleView) -> bool {
    &&& rule.input == input.0
    &&& match input.1 {
        InputRefView::NodeRef(_) => true,
        InputRefView::Follows(chain) => chain.len() == 1 && chain[0] != rule.follows,
    }
}

/// The rules that one input breaks, in the order of the rules.
pub open spec fn broken_by(input: (Seq<char>, InputRefView), rules: Seq<FollowRuleView>) -> Seq<
    FollowRuleView,
> {
    rules.filter(|rule: FollowRuleView| breaks(input, rule))
}

/// The rules that one input breaks, or why the input cannot be judged: a rule
/// speaks of it, and its chain is not of one name. An input that no rule
/// speaks of breaks none, whatever it refers to.
pub open spec fn judge_input(input: (Seq<char>, InputRefView), rules: Seq<FollowRuleView>) -> Result<
    Seq<FollowRuleView>,
    ModelError,
> {
    if names_input(rules, input.0) && chain_fault(input.1) is Some {
        Err(chain_fault(input.1).unwrap())
    } else {
        Ok(broken_by(input, rules))
    }
}

/// Each input with the rules that it breaks.
pub open spec fn judge_inputs(inputs: InputsView, rules: Seq<FollowRuleView>) -> Seq<
    Result<Seq<FollowRuleView>, ModelError>,
> {
    inputs.map_values(|input: (Seq<char>, InputRefView)| judge_input(input, rules))
}

/// The outcome of checking the node behind the input `input` of the root
/// against the rules: the rules that its inputs break, input by input in the
/// order of the input names, and for each input in the order of the rules; or
/// what is wrong with the first input that cannot be judged.
pub open spec fn checked_input(input: (Seq<char>, NodeView), rules: Seq<FollowRuleView>) -> Result<
    ValidationResultView,
    ModelError,
> {
    match input.1.inputs {
        None => Ok(ValidationResultView { input: input.0, broken_rules: Seq::empty() }),
        Some(inputs) => match collected(judge_inputs(inputs, rules)) {
            Ok(broken) => Ok(ValidationResultView { input: input.0, broken_rules: broken.flatten() }),
            Err(error) => Err(error),
        },
    }
}

/// Checks the node behind one input of the root against the rules.
///
/// Each input of the node that a rule speaks of must follow the name that
/// the rule gives: an input that is a node of its own breaks the rule, and so
/// does one that follows another name. The outcome lists the broken rules
/// input by input, in the order of the input names, and for each input in the
/// order of the rules.
///
/// Fails at the first input that a rule speaks of and that follows a chain
/// of no names or of more than one name.
pub fn check_input(input: &(InputName, Node), follow_rules: &[FollowRule]) -> (result: Result<
    InputRulesValidationResult,
    ModelError,
>)
    ensures
        match result {
            Ok(outcome) => checked_input((input.0@, input.1@), rules_view(follow_rules@)) == Ok::<
                ValidationResultView,
                ModelError,
            >(outcome@),
            Err(error) => checked_input((input.0@, input.1@), rules_view(follow_rules@)) == Err::<
                ValidationResultView,
                ModelError,
            >(error),
        },
{
    let ghost rules = rules_view(follow_rules@);
    let mut broken_rules: Vec<FollowRule> = Vec::new();
    if let Some(input_map) = &input.1.inputs {
        let entries = input_map.entries();
        let ghost inputs = inputs_view(input_map@);
        let ghost outcomes = judge_inputs(inputs, rules);
        let mut i: usize = 0;
        assert(values(outcomes.take(0)).flatten() =~= Seq::empty());
        assert(rules_view(broken_rules@) =~= Seq::empty());
        while i < entries.len()
            invariant
                i <= entries@.len(),
                named(entries@) == input_map@,
                inputs == inputs_view(input_map@),
                input.1@.inputs == Some(inputs),
                rules == rules_view(follow_rules@),
                outcomes == judge_inputs(inputs, rules),
                forall|j: int| 0 <= j < i ==> (#[trigger] outcomes[j]) is Ok,
                rules_view(broken_rules@) == values(outcomes.take(i as int)).flatten(),
            decreases entries@.len() - i,
        {
            let input_name = &entries[i].0;
            let input_ref = &entries[i].1;
            let ghost current = inputs[i as int];
            assert(current == (input_name@, input_ref@));
            let ghost before = rules_view(broken_rules@);
            let ghost each = |rule: FollowRuleView| breaks(current, rule);
            let mut k: usize = 0;
            assert(rules.take(0).filter(each) =~= Seq::empty()) by {
                reveal(Seq::filter);
            }
            while k < follow_rules.len()
                invariant
                    k <= follow_rules@.len(),
                    rules == rules_view(follow_rules@),
                    current == (input_name@, input_ref@),
                    input.1@.inputs == Some(inputs),
                    outcomes == judge_inputs(inputs, rules),
                    each == |rule: FollowRuleView| breaks(current, rule),
                    0 <= i < inputs.len(),
                    current == inputs[i as int],
                    forall|j: int| 0 <= j < i ==> (#[trigger] outcomes[j]) is Ok,
                    forall|j: int|
                        0 <= j < k ==> (#[trigger] rules[j]).input != current.0 || chain_fault(
                            current.1,
                        ) is None,
                    rules_view(broken_rules@) == before + rules.take(k as int).filter(each),
                decreases follow_rules@.len() - k,
            {
                let rule = &follow_rules[k];
                assert(rules[k as int] == rule@);
                proof {
                    assert(rules.take(k + 1) =~= rules.take(k as int).push(rule@));
                    rules.take(k as int).lemma_filter_push(rule@, each);
                }
                if rule.input == input_name.0 {
                    let broken = match input_ref {
                        InputRef::NodeRef(_) => true,
                        InputRef::Follows(node_names) => {
                            if node_names.len() == 0 {
                                proof {
                                    lemma_collected_error(outcomes, i as int);
                                }
                                return Err(ModelError::EmptyFollows);
                            } else if node_names.len() == 1 {
                                node_names[0].0 != rule.follows
                            } else {
                                proof {
                                    lemma_collected_error(outcomes, i as int);
                                }
                                return Err(ModelError::TransitiveFollows);
                            }
                        },
                    };
                    if broken {
                        let ghost found = rules_view(broken_rules@);
                        broken_rules.push(rule.clone());
                        assert(rules_view(broken_rules@) =~= found.push(rule@));
                    }
                }
                k += 1;
            }
            proof {
                assert(rules.take(k as int) =~= rules);
                assert(outcomes[i as int] == Ok::<Seq<FollowRuleView>, ModelError>(
                    broken_by(current, rules),
                ));
                let front = values(outcomes.take(i as int));
                assert(values(outcomes.take(i + 1)) =~= front.push(broken_by(current, rules)));
                front.lemma_flatten_push(broken_by(current, rules));
            }
            i += 1;
        }
        proof {
            assert(outcomes.take(i as int) =~= outcomes);
            lemma_collected_values(outcomes);
        }
    } else {
        assert(rules_view(broken_rules@) =~= Seq::empty());
    }
    Ok(InputRulesValidationResult { input: input.0.clone(), broken_rules })
}

/// A list of outcomes as plain values.
pub open spec fn results_view(results: Seq<InputRulesValidationResult>) -> Seq<ValidationResultView> {
    results.map_values(|result: InputRulesValidationResult| result@)
}

/// Each input of the root with the outcome of its check.
pub open spec fn check_inputs(inputs: RootInputsView, rules: Seq<FollowRuleView>) -> Seq<
    Result<ValidationResultView, ModelError>,
> {
    inputs.map_values(|input: (Seq<char>, NodeView)| checked_input(input, rules))
}

/// The outcomes for all the inputs of the root of a lock graph, in the order
/// of the input names; or what is wrong with the graph, the inputs of the
/// root coming before the inputs of the nodes behind them.
pub open spec fn validated(locks: LocksView, rules: Seq<FollowRuleView>) -> Result<
    Seq<ValidationResultView>,
    ModelError,
> {
    match root_inputs_of(locks) {
        Ok(inputs) => collected(check_inputs(inputs, rules)),
        Err(error) => Err(error),
    }
}

/// The report on a lock graph, or what is wrong with the graph.
pub open spec fn checked(locks: LocksView, rules: Seq<FollowRuleView>) -> Result<
    ValidationReportView,
    ModelError,
> {
    match validated(locks, rules) {
        Ok(results) => Ok(summary_of(results)),
        Err(error) => Err(error),
    }
}

/// Checks every input of the root against the rules.
///
/// Every input is checked, whether or not an earlier one broke a rule. Fails
/// only where the graph itself is at fault.
pub fn validate(metadata: &Metadata, rules: &[FollowRule]) -> (results: Result<
    Vec<InputRulesValidationResult>,
    ModelError,
>)
    ensures
        match results {
            Ok(outcomes) => validated(metadata@.locks, rules_view(rules@)) == Ok::<
                Seq<ValidationResultView>,
                ModelError,
            >(results_view(outcomes@)),
            Err(error) => validated(metadata@.locks, rules_view(rules@)) == Err::<
                Seq<ValidationResultView>,
                ModelError,
            >(error),
        },
{
    let root_inputs = match metadata.root_inputs() {
        Ok(root_inputs) => root_inputs,
        Err(error) => {
            return Err(error);
        },
    };
    let ghost inputs = root_inputs_view(root_inputs@);
    let ghost outcomes = check_inputs(inputs, rules_view(rules@));
    let mut results: Vec<InputRulesValidationResult> = Vec::new();
    let mut i: usize = 0;
    while i < root_inputs.len()
        invariant
            i <= root_inputs@.len(),
            inputs == root_inputs_view(root_inputs@),
            outcomes == check_inputs(inputs, rules_view(rules@)),
            validated(metadata@.locks, rules_view(rules@)) == collected(outcomes),
            results@.len() == i,
            forall|j: int|
                0 <= j < i ==> (#[trigger] outcomes[j]) == Ok::<ValidationResultView, ModelError>(
                    results@[j]@,
                ),
        decreases root_inputs@.len() - i,
    {
        assert(inputs[i as int] == (root_inputs@[i as int].0@, root_inputs@[i as int].1@));
        match check_input(&root_inputs[i], rules) {
            Ok(result) => {
                results.push(result);
            },
            Err(error) => {
                proof {
                    lemma_collected_error(outcomes, i as int);
                }
                return Err(error);
            },
        }
        i += 1;
    }
    proof {
        lemma_collected_values(outcomes);
        assert(results_view(results@) =~= values(outcomes));
    }
    Ok(results)
}

/// Checks every input of the root against the rules and reports on the
/// outcomes. The run passes if the report counts no invalid input.
pub fn check(metadata: &Metadata, rules: &[FollowRule]) -> (report: Result<
    ValidationReport,
    ModelError,
>)
    ensures
        match report {
            Ok(summary) => checked(metadata@.locks, rules_view(rules@)) == Ok::<
                ValidationReportView,
                ModelError,
            >(summary@),
            Err(error) => checked(metadata@.locks, rules_view(rules@)) == Err::<
                ValidationReportView,
                ModelError,
            >(error),
        },
{
    match validate(metadata, rules) {
        Ok(results) => Ok(summarize(results.as_slice())),
        Err(error) => Err(error),
    }
}

/// The inputs of a node as plain values; none where the node is a leaf.
pub open spec fn inputs_of(node: NodeView) -> InputsView {
    match node.inputs {
        Some(inputs) => inputs,
        None => Seq::empty(),
    }
}

/// A node none of whose inputs a rule speaks of passes: it breaks no rule,
/// whatever its inputs refer to.
pub proof fn lemma_unnamed_inputs_pass(input: (Seq<char>, NodeView), rules: Seq<FollowRuleView>)
    requires
        forall|i: int|
            0 <= i < inputs_of(input.1).len() ==> !names_input(
                rules,
                (#[trigger] inputs_of(input.1)[i]).0,
            ),
    ensures
        checked_input(input, rules) == Ok::<ValidationResultView, ModelError>(
            ValidationResultView { input: input.0, broken_rules: Seq::empty() },
        ),
{
    if input.1.inputs is Some {
        let inputs = inputs_of(input.1);
        let outcomes = judge_inputs(inputs, rules);
        assert forall|i: int| 0 <= i < outcomes.len() implies (#[trigger] outcomes[i]) is Ok && (
        outcomes[i]->Ok_0).len() == 0 by {
            let current = inputs[i];
            assert(!names_input(rules, current.0));
            let each = |rule: FollowRuleView| breaks(current, rule);
            assert forall|k: int| 0 <= k < rules.len() implies !each(#[trigger] rules[k]) by {
                if rules[k].input == current.0 {
                    assert(names_input(rules, current.0));
                }
            }
            rules.lemma_all_neg_filter_empty(each);
        }
        lemma_collected_values(outcomes);
        lemma_flatten_of_empty_lists(values(outcomes));
    }
}

/// Without rules every node passes.
pub proof fn lemma_no_rules_pass(input: (Seq<char>, NodeView))
    ensures
        checked_input(input, Seq::empty()) == Ok::<ValidationResultView, ModelError>(
            ValidationResultView { input: input.0, broken_rules: Seq::empty() },
        ),
{
    lemma_unnamed_inputs_pass(input, Seq::empty());
}

/// The rules that one input of a node breaks are among the rules that the
/// outcome for the node lists, and the outcome lists no others.
pub proof fn lemma_broken_rules_by_input(
    input: (Seq<char>, NodeView),
    rules: Seq<FollowRuleView>,
    outcome: ValidationResultView,
    rule: FollowRuleView,
)
    requires
        checked_input(input, rules) == Ok::<ValidationResultView, ModelError>(outcome),
    ensures
        outcome.broken_rules.contains(rule) <==> exists|i: int, k: int|
            0 <= i < inputs_of(input.1).len() && 0 <= k < rules.len() && rules[k] == rule
                && breaks(#[trigger] inputs_of(input.1)[i], #[trigger] rules[k]),
{
    let inputs = inputs_of(input.1);
    let outcomes = judge_inputs(inputs, rules);
    if input.1.inputs is Some {
        lemma_collected_is_ok(outcomes);
        let lists = values(outcomes);
        assert forall|i: int| 0 <= i < inputs.len() implies (#[trigger] lists[i]) == broken_by(
            inputs[i],
            rules,
        ) by {
            assert(outcomes[i] is Ok);
        }
        if outcome.broken_rules.contains(rule) {
            let i = lemma_flatten_holds_no_more(lists, rule);
            let each = |rule: FollowRuleView| breaks(inputs[i], rule);
            assert(lists[i] == rules.filter(each));
            rules.lemma_filter_contains_rev(each, rule);
            let k = choose|k: int| 0 <= k < rules.len() && rules[k] == rule;
            let at = choose|at: int| 0 <= at < lists[i].len() && lists[i][at] == rule;
            rules.lemma_filter_pred(each, at);
            assert(breaks(inputs[i], rules[k]));
        }
        if exists|i: int, k: int|
            0 <= i < inputs.len() && 0 <= k < rules.len() && rules[k] == rule && breaks(
                #[trigger] inputs[i],
                #[trigger] rules[k],
            ) {
            let (i, k) = choose|i: int, k: int|
                0 <= i < inputs.len() && 0 <= k < rules.len() && rules[k] == rule && breaks(
                    #[trigger] inputs[i],
                    #[trigger] rules[k],
                );
            let each = |rule: FollowRuleView| breaks(inputs[i], rule);
            rules.lemma_filter_contains(each, k);
            assert(lists[i].contains(rule));
            lemma_flatten_keeps(lists, i, rule);
        }
    } else {
        assert(!outcome.broken_rules.contains(rule));
    }
}

/// An input that is a node of its own breaks every rule that speaks of it:
/// the outcome for its node lists each such rule.
pub proof fn lemma_node_ref_breaks_rule(
    input: (Seq<char>, NodeView),
    rules: Seq<FollowRuleView>,
    outcome: ValidationResultView,
    i: int,
    k: int,
)
    requires
        checked_input(input, rules) == Ok::<ValidationResultView, ModelError>(outcome),
        0 <= i < inputs_of(input.1).len(),
        0 <= k < rules.len(),
        inputs_of(input.1)[i].1 is NodeRef,
        rules[k].input == inputs_of(input.1)[i].0,
    ensures
        outcome.broken_rules.contains(rules[k]),
        !outcome.is_valid(),
{
    assert(breaks(inputs_of(input.1)[i], rules[k]));
    lemma_broken_rules_by_input(input, rules, outcome, rules[k]);
}

/// An input that follows one name breaks a rule that speaks of it exactly if
/// the name is not the one that the rule asks for: the outcome for its node
/// lists the rule if the names differ, and does not list it if they agree.
pub proof fn lemma_follows_breaks_rule_iff(
    input: (Seq<char>, NodeView),
    rules: Seq<FollowRuleView>,
    outcome: ValidationResultView,
    i: int,
    k: int,
    target: Seq<char>,
)
    requires
        ascending(inputs_of(input.1)),
        checked_input(input, rules) == Ok::<ValidationResultView, ModelError>(outcome),
        0 <= i < inputs_of(input.1).len(),
        0 <= k < rules.len(),
        inputs_of(input.1)[i].1 == InputRefView::Follows(seq![target]),
        rules[k].input == inputs_of(input.1)[i].0,
    ensures
        outcome.broken_rules.contains(rules[k]) <==> target != rules[k].follows,
{
    let inputs = inputs_of(input.1);
    lemma_broken_rules_by_input(input, rules, outcome, rules[k]);
    assert(breaks(inputs[i], rules[k]) <==> target != rules[k].follows);
    if outcome.broken_rules.contains(rules[k]) {
        let (j, m) = choose|j: int, m: int|
            0 <= j < inputs.len() && 0 <= m < rules.len() && rules[m] == rules[k] && breaks(
                #[trigger] inputs[j],
                #[trigger] rules[m],
            );
        assert(inputs[j].0 == inputs[i].0);
        if j != i {
            lemma_precedes_irreflexive(inputs[i].0);
            if j < i {
                assert(precedes(inputs[j].0, inputs[i].0));
            } else {
                assert(precedes(inputs[i].0, inputs[j].0));
            }
        }
    }
}

/// Two runs of `check` on the same lock graph with the same rules give the
/// same outcomes in the same order, the same counts and the same verdict on
/// the run, or fail alike.
pub proof fn lemma_check_twice(
    metadata: Metadata,
    rules: &[FollowRule],
    first: Result<ValidationReport, ModelError>,
    second: Result<ValidationReport, ModelError>,
)
    requires
        call_ensures(check, (&metadata, rules), first),
        call_ensures(check, (&metadata, rules), second),
    ensures
        match (first, second) {
            (Ok(one), Ok(other)) => one@ == other@ && one@.passed() == other@.passed(),
            (Err(one), Err(other)) => one == other,
            _ => false,
        },
{
}

/// Two runs of `validate` on the same lock graph with the same rules give the
/// same outcomes in the same order, or fail alike.
pub proof fn lemma_validate_twice(
    metadata: Metadata,
    rules: &[FollowRule],
    first: Result<Vec<InputRulesValidationResult>, ModelError>,
    second: Result<Vec<InputRulesValidationResult>, ModelError>,
)
    requires
        call_ensures(validate, (&metadata, rules), first),
        call_ensures(validate, (&metadata, rules), second),
    ensures
        match (first, second) {
            (Ok(one), Ok(other)) => results_view(one@) == results_view(other@),
            (Err(one), Err(other)) => one == other,
            _ => false,
        },
{
}

/// Takes one step in fixing a flake whose outcomes are `results`.
///
/// Fixing starts in the state `Checked` with the event `Begin`. Each invalid
/// outcome is offered to the operator in turn, and those that the operator
/// accepts are collected. If any were collected, the operator is asked once
/// more, for all of them together, before they are applied. An unattended
/// run asks nothing and answers yes throughout. The caller does what the
/// action says and comes back with the operator's answer.
pub fn fix(
    results: &[InputRulesValidationResult],
    non_interactive: bool,
    state: FixState,
    event: FixEvent,
) -> (step: (FixState, FixAction))
    ensures
        (step.0@, step.1@) == fix_step(
            validity(results_view(results@)),
            non_interactive,
            state@,
            event,
        ),
{
    match state {
        FixState::Checked => match event {
            FixEvent::Begin => select_from(results, non_interactive, 0, Vec::new()),
            _ => (FixState::Checked, FixAction::Ignored),
        },
        FixState::Selecting { asking, to_fix } => {
            if asking < results.len() && !results[asking].is_valid() {
                match event {
                    FixEvent::Begin => (FixState::Selecting { asking, to_fix }, FixAction::Ignored),
                    FixEvent::Yes => {
                        let mut to_fix = to_fix;
                        to_fix.push(asking);
                        select_from(results, non_interactive, asking + 1, to_fix)
                    },
                    FixEvent::No => select_from(results, non_interactive, asking + 1, to_fix),
                }
            } else {
                (FixState::Selecting { asking, to_fix }, FixAction::Ignored)
            }
        },
        FixState::Confirmed { to_fix } => match event {
            FixEvent::Begin => (FixState::Confirmed { to_fix }, FixAction::Ignored),
            FixEvent::Yes => {
                let copy = to_fix.clone();
                (FixState::Applied { to_fix: copy }, FixAction::Apply(to_fix))
            },
            FixEvent::No => (FixState::Aborted, FixAction::Declined),
        },
        FixState::Applied { to_fix } => (FixState::Applied { to_fix }, FixAction::Ignored),
        FixState::Aborted => (FixState::Aborted, FixAction::Ignored),
    }
}

} // verus!
