//! The report on a run: its outcomes in the order in which they are shown.

use vstd::prelude::*;
use crate::commands::InputRulesValidationResult;
use crate::commands::results_view;
use crate::commands::ValidationResultView;
use crate::config::FollowRuleView;
use crate::config::rules_view;
use crate::lists::lemma_filter_none;
use crate::lists::lemma_filter_twice;

verus! {

/// The outcomes that break no rule, in their order.
pub open spec fn valid_ones(results: Seq<ValidationResultView>) -> Seq<ValidationResultView> {
    results.filter(|result: ValidationResultView| result.is_valid())
}

/// The outcomes that break a rule, in their order.
pub open spec fn invalid_ones(results: Seq<ValidationResultView>) -> Seq<ValidationResultView> {
    results.filter(|result: ValidationResultView| !result.is_valid())
}

/// The outcomes of a run in the order in which they are shown, and how many
/// of them are valid and invalid.
#[derive(Debug, PartialEq, Eq)]
pub struct ValidationReport {
    pub valid_count: usize,
    pub invalid_count: usize,
    pub ordered_results: Vec<InputRulesValidationResult>,
}

/// A report as plain values.
pub struct ValidationReportView {
    pub valid_count: nat,
    pub invalid_count: nat,
    pub ordered_results: Seq<ValidationResultView>,
}

impl View for ValidationReport {
    type V = ValidationReportView;

    open spec fn view(&self) -> ValidationReportView {
        ValidationReportView {
            valid_count: self.valid_count as nat,
            invalid_count: self.invalid_count as nat,
            ordered_results: results_view(self.ordered_results@),
        }
    }
}

impl ValidationReportView {
    /// The run passes: no input is misconfigured.
    pub open spec fn passed(self) -> bool {
        self.invalid_count == 0
    }
}

impl ValidationReport {
    /// Whether the run passes: no input is misconfigured.
    pub fn passed(&self) -> (passed: bool)
        ensures
            passed == self@.passed(),
    {
        self.invalid_count == 0
    }
}

/// The character that stands for a digit.
pub open spec fn digit_char(digit: nat) -> char {
    if digit == 0 {
        '0'
    } else if digit == 1 {
        '1'
    } else if digit == 2 {
        '2'
    } else if digit == 3 {
        '3'
    } else if digit == 4 {
        '4'
    } else if digit == 5 {
        '5'
    } else if digit == 6 {
        '6'
    } else if digit == 7 {
        '7'
    } else if digit == 8 {
        '8'
    } else {
        '9'
    }
}

/// A number written in decimal digits, without leading zeros.
pub open spec fn decimal_text(number: nat) -> Seq<char>
    decreases number,
{
    if number < 10 {
        seq![digit_char(number)]
    } else {
        decimal_text(number / 10).push(digit_char(number % 10))
    }
}

/// What a run that did not pass is told: how many inputs are misconfigured.
pub open spec fn failure_text(invalid_count: nat) -> Seq<char> {
    "Found "@ + decimal_text(invalid_count) + " misconfigured inputs"@
}

/// The text of one digit.
fn digit_text(digit: usize) -> (text: &'static str)
    requires
        digit < 10,
    ensures
        text@ == seq![digit_char(digit as nat)],
{
    proof {
        reveal_strlit("0");
        reveal_strlit("1");
        reveal_strlit("2");
        reveal_strlit("3");
        reveal_strlit("4");
        reveal_strlit("5");
        reveal_strlit("6");
        reveal_strlit("7");
        reveal_strlit("8");
        reveal_strlit("9");
    }
    let text = if digit == 0 {
        "0"
    } else if digit == 1 {
        "1"
    } else if digit == 2 {
        "2"
    } else if digit == 3 {
        "3"
    } else if digit == 4 {
        "4"
    } else if digit == 5 {
        "5"
    } else if digit == 6 {
        "6"
    } else if digit == 7 {
        "7"
    } else if digit == 8 {
        "8"
    } else {
        "9"
    };
    assert(text@ =~= seq![digit_char(digit as nat)]);
    text
}

/// Writes a number in decimal digits.
pub fn decimal(number: usize) -> (text: String)
    ensures
        text@ == decimal_text(number as nat),
    decreases number,
{
    if number < 10 {
        digit_text(number).to_owned()
    } else {
        let mut text = decimal(number / 10);
        text.append(digit_text(number % 10));
        assert(text@ =~= decimal_text(number as nat));
        text
    }
}

impl ValidationReport {
    /// What is wrong with the run, if it did not pass: the number of
    /// misconfigured inputs, in a sentence.
    pub fn failure(&self) -> (failure: Option<String>)
        ensures
            failure is None <==> self@.passed(),
            failure matches Some(text) ==> text@ == failure_text(self@.invalid_count),
    {
        if self.invalid_count == 0 {
            None
        } else {
            let mut text = "Found ".to_owned();
            let count = decimal(self.invalid_count);
            text.append(count.as_str());
            text.append(" misconfigured inputs");
            Some(text)
        }
    }
}

/// The report on a list of outcomes: the valid ones first, then the invalid
/// ones, each group in the order of the list.
pub open spec fn summary_of(results: Seq<ValidationResultView>) -> ValidationReportView {
    ValidationReportView {
        valid_count: valid_ones(results).len(),
        invalid_count: invalid_ones(results).len(),
        ordered_results: valid_ones(results) + invalid_ones(results),
    }
}

/// Puts the outcomes in the order in which they are shown, the valid ones
/// before the invalid ones and each group in the order in which it came, and
/// counts both groups.
pub fn summarize(results: &[InputRulesValidationResult]) -> (report: ValidationReport)
    ensures
        report@ == summary_of(results_view(results@)),
{
    let ghost all = results_view(results@);
    let ghost is_valid = |result: ValidationResultView| result.is_valid();
    let ghost is_invalid = |result: ValidationResultView| !result.is_valid();
    let mut valid: Vec<InputRulesValidationResult> = Vec::new();
    let mut invalid: Vec<InputRulesValidationResult> = Vec::new();
    let mut i: usize = 0;
    proof {
        reveal(Seq::filter);
        assert(all.take(0).filter(is_valid) =~= Seq::empty());
        assert(all.take(0).filter(is_invalid) =~= Seq::empty());
        assert(results_view(valid@) =~= Seq::empty());
        assert(results_view(invalid@) =~= Seq::empty());
    }
    while i < results.len()
        invariant
            i <= results@.len(),
            all == results_view(results@),
            is_valid == |result: ValidationResultView| result.is_valid(),
            is_invalid == |result: ValidationResultView| !result.is_valid(),
            results_view(valid@) == all.take(i as int).filter(is_valid),
            results_view(invalid@) == all.take(i as int).filter(is_invalid),
        decreases results@.len() - i,
    {
        let result = &results[i];
        proof {
            assert(all[i as int] == result@);
            assert(all.take(i + 1) =~= all.take(i as int).push(result@));
            all.take(i as int).lemma_filter_push(result@, is_valid);
            all.take(i as int).lemma_filter_push(result@, is_invalid);
        }
        if result.is_valid() {
            let ghost found = results_view(valid@);
            valid.push(result.clone());
            assert(results_view(valid@) =~= found.push(result@));
        } else {
            let ghost found = results_view(invalid@);
            invalid.push(result.clone());
            assert(results_view(invalid@) =~= found.push(result@));
        }
        i += 1;
    }
    let valid_count: usize = valid.len();
    let invalid_count: usize = invalid.len();
    proof {
        assert(all.take(i as int) =~= all);
    }
    let ghost first = results_view(valid@);
    let ghost second = results_view(invalid@);
    valid.append(&mut invalid);
    assert(results_view(valid@) =~= first + second);
    ValidationReport { valid_count, invalid_count, ordered_results: valid }
}

/// A report shows its outcomes as a stable partition of the list that it was
/// made from: every valid outcome stands before every invalid one, and each
/// of the two groups holds the outcomes of its kind in the order of the list.
pub proof fn lemma_report_is_stable_partition(results: Seq<ValidationResultView>)
    ensures
        ({
            let ordered = summary_of(results).ordered_results;
            &&& ordered.len() == results.len()
            &&& ordered.to_multiset() == results.to_multiset()
            &&& valid_ones(ordered) == valid_ones(results)
            &&& invalid_ones(ordered) == invalid_ones(results)
            &&& forall|i: int, j: int|
                0 <= i < j < ordered.len() && ordered[j].is_valid() ==> ordered[i].is_valid()
            &&& summary_of(results).valid_count + summary_of(results).invalid_count
                == results.len()
        }),
    decreases results.len(),
{
    let is_valid = |result: ValidationResultView| result.is_valid();
    let is_invalid = |result: ValidationResultView| !result.is_valid();
    let valid = results.filter(is_valid);
    let invalid = results.filter(is_invalid);
    let ordered = valid + invalid;
    lemma_partition_parts(results);
    assert forall|i: int| 0 <= i < valid.len() implies (#[trigger] valid[i]).is_valid() by {
        results.lemma_filter_pred(is_valid, i);
    }
    assert forall|i: int| 0 <= i < invalid.len() implies !(#[trigger] invalid[i]).is_valid() by {
        results.lemma_filter_pred(is_invalid, i);
    }
    assert forall|i: int, j: int|
        0 <= i < j < ordered.len() && ordered[j].is_valid() implies ordered[i].is_valid() by {
        if j >= valid.len() {
            assert(ordered[j] == invalid[j - valid.len()]);
        }
        assert(ordered[i] == valid[i]);
    }
    Seq::filter_distributes_over_add(valid, invalid, is_valid);
    Seq::filter_distributes_over_add(valid, invalid, is_invalid);
    lemma_filter_twice(results, is_valid);
    lemma_filter_twice(results, is_invalid);
    lemma_filter_none(valid, is_invalid);
    lemma_filter_none(invalid, is_valid);
    assert(valid_ones(ordered) =~= valid);
    assert(invalid_ones(ordered) =~= invalid);
}

/// The valid and the invalid outcomes of a list are together the outcomes of
/// the list, each as often as the list holds it.
pub proof fn lemma_partition_parts(results: Seq<ValidationResultView>)
    ensures
        valid_ones(results).len() + invalid_ones(results).len() == results.len(),
        (valid_ones(results) + invalid_ones(results)).to_multiset() == results.to_multiset(),
    decreases results.len(),
{
    broadcast use vstd::seq_lib::group_to_multiset_ensures;

    let is_valid = |result: ValidationResultView| result.is_valid();
    let is_invalid = |result: ValidationResultView| !result.is_valid();
    if results.len() == 0 {
        reveal(Seq::filter);
        assert(valid_ones(results) + invalid_ones(results) =~= results);
    } else {
        let front = results.drop_last();
        let last = results.last();
        assert(results =~= front.push(last));
        lemma_partition_parts(front);
        front.lemma_filter_push(last, is_valid);
        front.lemma_filter_push(last, is_invalid);
        let valid = valid_ones(front);
        let invalid = invalid_ones(front);
        vstd::seq_lib::lemma_multiset_commutative(valid, invalid);
        if last.is_valid() {
            vstd::seq_lib::lemma_multiset_commutative(valid.push(last), invalid);
            assert(valid.push(last).to_multiset() =~= valid.to_multiset().insert(last));
            assert((valid.push(last) + invalid).to_multiset() =~= (valid + invalid).to_multiset().insert(
                last,
            ));
        } else {
            assert(valid + invalid.push(last) =~= (valid + invalid).push(last));
        }
        assert(results.to_multiset() =~= front.to_multiset().insert(last));
    }
}

/// A line of the report on a run.
#[derive(Debug, PartialEq, Eq)]
pub enum ReportLine {
    /// The node behind the input breaks no rule.
    Okay { input: String },
    /// The node behind the input breaks the rule, written as
    /// `(input -> follows)`.
    Fail { input: String, rule: String },
}

/// A line of the report as plain values.
pub enum ReportLineView {
    Okay { input: Seq<char> },
    Fail { input: Seq<char>, rule: Seq<char> },
}

impl View for ReportLine {
    type V = ReportLineView;

    open spec fn view(&self) -> ReportLineView {
        match self {
            ReportLine::Okay { input } => ReportLineView::Okay { input: input@ },
            ReportLine::Fail { input, rule } => ReportLineView::Fail { input: input@, rule: rule@ },
        }
    }
}

impl ReportLineView {
    /// The line as text.
    pub open spec fn text(self) -> Seq<char> {
        match self {
            ReportLineView::Okay { input } => "okay "@ + input,
            ReportLineView::Fail { input, rule } => "fail "@ + input + " does not follow "@ + rule,
        }
    }
}

impl ReportLine {
    /// The line as text, without colours.
    pub fn to_string(&self) -> (text: String)
        ensures
            text@ == self@.text(),
    {
        match self {
            ReportLine::Okay { input } => {
                let mut text = "okay ".to_owned();
                text.append(input.as_str());
                text
            },
            ReportLine::Fail { input, rule } => {
                let mut text = "fail ".to_owned();
                text.append(input.as_str());
                text.append(" does not follow ");
                text.append(rule.as_str());
                text
            },
        }
    }
}

/// A list of lines as plain values.
pub open spec fn lines_view(lines: Seq<ReportLine>) -> Seq<ReportLineView> {
    lines.map_values(|line: ReportLine| line@)
}

/// The lines that the rules give for an input that breaks them: one for
/// each rule.
pub open spec fn fail_lines(input: Seq<char>, rules: Seq<FollowRuleView>) -> Seq<ReportLineView> {
    rules.map_values(|rule: FollowRuleView| ReportLineView::Fail { input, rule: rule.text() })
}

/// The lines for one outcome: one line for a valid outcome, and one line for
/// each broken rule of an invalid one.
pub open spec fn lines_of(result: ValidationResultView) -> Seq<ReportLineView> {
    if result.is_valid() {
        seq![ReportLineView::Okay { input: result.input }]
    } else {
        fail_lines(result.input, result.broken_rules)
    }
}

/// The lines for a list of outcomes, outcome by outcome.
pub open spec fn report_lines(results: Seq<ValidationResultView>) -> Seq<ReportLineView> {
    results.map_values(|result: ValidationResultView| lines_of(result)).flatten()
}

impl ValidationReport {
    /// The lines of the report, in the order in which the report holds its
    /// outcomes: one line for each valid outcome, and one line for each
    /// broken rule of each invalid one.
    pub fn lines(&self) -> (lines: Vec<ReportLine>)
        ensures
            lines_view(lines@) == report_lines(self@.ordered_results),
    {
        let ghost results = results_view(self.ordered_results@);
        let ghost each = |result: ValidationResultView| lines_of(result);
        let mut lines: Vec<ReportLine> = Vec::new();
        let mut i: usize = 0;
        proof {
            assert(results.take(0).map_values(each) =~= Seq::empty());
            assert(lines_view(lines@) =~= Seq::empty());
        }
        while i < self.ordered_results.len()
            invariant
                i <= self.ordered_results@.len(),
                results == results_view(self.ordered_results@),
                each == |result: ValidationResultView| lines_of(result),
                lines_view(lines@) == results.take(i as int).map_values(each).flatten(),
            decreases self.ordered_results@.len() - i,
        {
            let result = &self.ordered_results[i];
            let input = result.input();
            let ghost before = lines_view(lines@);
            assert(results[i as int] == result@);
            if result.is_valid() {
                lines.push(ReportLine::Okay { input: input.0.clone() });
                assert(lines_view(lines@) =~= before + lines_of(result@));
            } else {
                let rules = result.broken_rules();
                let ghost broken = rules_view(rules@);
                let mut k: usize = 0;
                assert(lines_view(lines@) =~= before + fail_lines(result@.input, broken.take(0)));
                while k < rules.len()
                    invariant
                        k <= rules@.len(),
                        broken == rules_view(rules@),
                        result@.input == input@,
                        lines_view(lines@) == before + fail_lines(
                            result@.input,
                            broken.take(k as int),
                        ),
                    decreases rules@.len() - k,
                {
                    let ghost found = lines_view(lines@);
                    let line = ReportLine::Fail {
                        input: input.0.clone(),
                        rule: rules[k].to_string(),
                    };
                    assert(broken[k as int] == rules@[k as int]@);
                    lines.push(line);
                    assert(lines_view(lines@) =~= found.push(line@));
                    assert(fail_lines(result@.input, broken.take(k + 1)) =~= fail_lines(
                        result@.input,
                        broken.take(k as int),
                    ).push(line@));
                    k += 1;
                }
                assert(broken.take(k as int) =~= broken);
            }
            proof {
                let front = results.take(i as int).map_values(each);
                assert(results.take(i + 1).map_values(each) =~= front.push(lines_of(result@)));
                front.lemma_flatten_push(lines_of(result@));
            }
            i += 1;
        }
        assert(results.take(i as int) =~= results);
        lines
    }
}

} // verus!
