//! The rules that say which inputs must follow which.

use vstd::prelude::*;

verus! {

/// A rule: an input named `input`, on any node, must follow the input named
/// `follows`.
#[derive(Debug, PartialEq, Eq)]
pub struct FollowRule {
    pub input: String,
    pub follows: String,
    pub exclude: Option<Vec<String>>,
}

/// The rules of a configuration, in the order in which they were written.
#[derive(Debug, PartialEq, Eq)]
pub struct Config {
    pub rules: Vec<FollowRule>,
}

/// A rule as plain values.
pub struct FollowRuleView {
    pub input: Seq<char>,
    pub follows: Seq<char>,
    pub exclude: Option<Seq<Seq<char>>>,
}

/// A list of strings as plain values.
pub open spec fn strings_view(strings: Seq<String>) -> Seq<Seq<char>> {
    strings.map_values(|string: String| string@)
}

/// A list of rules as plain values.
pub open spec fn rules_view(rules: Seq<FollowRule>) -> Seq<FollowRuleView> {
    rules.map_values(|rule: FollowRule| rule@)
}

impl View for FollowRule {
    type V = FollowRuleView;

    open spec fn view(&self) -> FollowRuleView {
        FollowRuleView {
            input: self.input@,
            follows: self.follows@,
            exclude: match self.exclude {
                Some(names) => Some(strings_view(names@)),
                None => None,
            },
        }
    }
}

impl View for Config {
    type V = Seq<FollowRuleView>;

    open spec fn view(&self) -> Seq<FollowRuleView> {
        rules_view(self.rules@)
    }
}

impl FollowRuleView {
    /// The rule written as `(input -> follows)`.
    pub open spec fn text(self) -> Seq<char> {
        "("@ + self.input + " -> "@ + self.follows + ")"@
    }
}

impl Clone for FollowRule {
    fn clone(&self) -> (copy: Self)
        ensures
            copy@ == self@,
    {
        let exclude = match &self.exclude {
            Some(names) => {
                let copy = names.clone();
                assert(strings_view(copy@) =~= strings_view(names@));
                Some(copy)
            },
            None => None,
        };
        FollowRule { input: self.input.clone(), follows: self.follows.clone(), exclude }
    }
}

impl FollowRule {
    /// The rule written as `(input -> follows)`.
    pub fn to_string(&self) -> (text: String)
        ensures
            text@ == self@.text(),
    {
        let mut text = "(".to_owned();
        text.append(self.input.as_str());
        text.append(" -> ");
        text.append(self.follows.as_str());
        text.append(")");
        text
    }
}

impl Clone for Config {
    fn clone(&self) -> (copy: Self)
        ensures
            copy@ == self@,
    {
        let rules = self.rules.clone();
        assert(rules_view(rules@) =~= rules_view(self.rules@));
        Config { rules }
    }
}

} // verus!
