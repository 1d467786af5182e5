//! Nix expressions: whether a text is one, before anything is fixed in it.
//!
//! The parser that decides this descends into the text as it reads it, and
//! the tree that it builds is as deep as the text is nested. Only in part
//! does the parser count how deep it is. So a text goes to the parser only
//! if it is short, and if few places in it can make the parser descend
//! without counting: every other text is refused here, unparsed.

use vstd::prelude::*;
use vstd::utf8::encode_utf8;
use crate::commands::InputRulesValidationResult;

verus! {

/// Why a text is of no use as a Nix expression.
#[derive(Debug, PartialEq, Eq)]
pub enum ExpressionError {
    /// The text is longer than is handed to the parser.
    TooLong,
    /// The text has more places at which the parser descends without
    /// counting than are handed to the parser.
    TooDeep,
    /// The text does not parse; with the first complaint of the parser.
    Syntax(String),
    /// The text parses, but holds no expression.
    NotAnExpression,
}

/// The reason as plain values.
pub enum ExpressionErrorView {
    TooLong,
    TooDeep,
    Syntax(Seq<char>),
    NotAnExpression,
}

impl View for ExpressionError {
    type V = ExpressionErrorView;

    open spec fn view(&self) -> ExpressionErrorView {
        match self {
            ExpressionError::TooLong => ExpressionErrorView::TooLong,
            ExpressionError::TooDeep => ExpressionErrorView::TooDeep,
            ExpressionError::Syntax(complaint) => ExpressionErrorView::Syntax(complaint@),
            ExpressionError::NotAnExpression => ExpressionErrorView::NotAnExpression,
        }
    }
}

impl ExpressionErrorView {
    /// The text that `message` gives for this reason.
    pub open spec fn message_text(self) -> Seq<char> {
        match self {
            ExpressionErrorView::TooLong => "the text is too long to be parsed"@,
            ExpressionErrorView::TooDeep => "the text is nested too deep to be parsed"@,
            ExpressionErrorView::Syntax(complaint) => complaint,
            ExpressionErrorView::NotAnExpression => "not a valid expression"@,
        }
    }
}

impl ExpressionError {
    /// A sentence that says why the text is of no use.
    pub fn message(&self) -> (text: String)
        ensures
            text@ == self@.message_text(),
    {
        match self {
            ExpressionError::TooLong => "the text is too long to be parsed".to_owned(),
            ExpressionError::TooDeep => "the text is nested too deep to be parsed".to_owned(),
            ExpressionError::Syntax(complaint) => complaint.clone(),
            ExpressionError::NotAnExpression => "not a valid expression".to_owned(),
        }
    }
}

/// The longest text, in bytes, that is handed to the parser.
pub const MAX_TEXT_LENGTH: usize = 4096;

/// The most places at which the parser descends without counting that a
/// text may have to be handed to the parser.
pub const MAX_DESCENTS: usize = 512;

/// The byte `[`, which opens a list.
pub const LEFT_BRACKET: u8 = 0x5b;

/// The byte `!`, which inverts what follows.
pub const BANG: u8 = 0x21;

/// The byte `-`, which negates what follows, and with which `->` begins.
pub const MINUS: u8 = 0x2d;

/// The byte `+`, two of which make `++`.
pub const PLUS: u8 = 0x2b;

/// The byte `/`, two of which make `//`.
pub const SLASH: u8 = 0x2f;

/// The byte `<`, with which `<|` begins.
pub const LESS: u8 = 0x3c;

/// The byte `|`, with which `<|` ends.
pub const BAR: u8 = 0x7c;

/// The byte `o`, with which `or` begins.
pub const SMALL_O: u8 = 0x6f;

/// The byte `r`, with which `or` ends.
pub const SMALL_R: u8 = 0x72;

/// Whether one of the tokens at which the parser descends without counting
/// may begin at the byte `at`: a `[`, a `!`, a `-` or `->`, a `++`, a `//`, a
/// `<|` or an `or`. Whether a token does begin there is not looked at, so
/// that bytes in strings and comments count too.
pub open spec fn descends_at(bytes: Seq<u8>, at: int) -> bool {
    let here = bytes[at];
    let next = bytes[at + 1];
    ||| here == LEFT_BRACKET
    ||| here == BANG
    ||| here == MINUS
    ||| at + 1 < bytes.len() && here == PLUS && next == PLUS
    ||| at + 1 < bytes.len() && here == SLASH && next == SLASH
    ||| at + 1 < bytes.len() && here == LESS && next == BAR
    ||| at + 1 < bytes.len() && here == SMALL_O && next == SMALL_R
}

/// The positions of a text of `length` bytes.
pub open spec fn byte_positions(length: nat) -> Seq<int> {
    Seq::new(length, |at: int| at)
}

/// The number of places in the text at which the parser may descend without
/// counting.
pub open spec fn descents(bytes: Seq<u8>) -> nat {
    byte_positions(bytes.len()).filter(|at: int| descends_at(bytes, at)).len()
}

/// Whether the text may be handed to the parser: it is short, and has few
/// places at which the parser may descend without counting.
pub open spec fn within_limits(bytes: Seq<u8>) -> bool {
    bytes.len() <= MAX_TEXT_LENGTH && descents(bytes) <= MAX_DESCENTS
}

/// The attribute that makes the input `nixpkgs` of a flake follow the input
/// of the same name.
pub open spec fn follow_attribute() -> Seq<char> {
    "{ inputs.nixpkgs.follows = \"nixpkgs\"; }"@
}

/// What the Nix parser makes of a text: whether the tree that it builds
/// holds an expression, or its first complaint about the text.
pub uninterp spec fn parsed_nix(text: Seq<char>) -> Result<bool, Seq<char>>;

/// Parses `text` with `rnix::Root::parse`, takes the tree or the first error
/// with `Parse::ok`, and asks the tree for its expression with `Root::expr`.
///
/// Taken on trust: that the call returns on every text within the limits,
/// and that its outcome depends on the text alone. The parser counts its
/// descent, and stops at a depth of 512, wherever it parses a whole
/// expression. It descends without counting once for each `[`, `!`, `-`,
/// `++`, `//`, `->`, `<|` and `or` that it reads, and the limit on the
/// descents keeps it from going deeper that way than it lets itself go where
/// it counts. Everywhere else it walks along the text in a loop, but each step
/// makes the tree one level deeper, and the tree is walked level by level when
/// it is let go. No level takes less than a byte of the text, so the limit on
/// the length keeps the tree shallow.
#[verifier::external_body]
fn parse_nix(text: &str) -> (outcome: Result<bool, String>)
    requires
        within_limits(encode_utf8(text@)),
    ensures
        match outcome {
            Ok(found) => parsed_nix(text@) == Ok::<bool, Seq<char>>(found),
            Err(complaint) => parsed_nix(text@) == Err::<bool, Seq<char>>(complaint@),
        },
{
    match rnix::Root::parse(text).ok() {
        Ok(root) => match root.expr() {
            Some(_) => Ok(true),
            None => Ok(false),
        },
        Err(error) => Err(error.to_string()),
    }
}

/// What is wrong with a text that the parser made `parsed` of, if anything.
pub open spec fn judged(parsed: Result<bool, Seq<char>>) -> Result<(), ExpressionErrorView> {
    match parsed {
        Ok(found) => if found {
            Ok(())
        } else {
            Err(ExpressionErrorView::NotAnExpression)
        },
        Err(complaint) => Err(ExpressionErrorView::Syntax(complaint)),
    }
}

/// Whether a text is a Nix expression, and why it is not.
pub open spec fn expression_outcome(text: Seq<char>) -> Result<(), ExpressionErrorView> {
    if encode_utf8(text).len() > MAX_TEXT_LENGTH {
        Err(ExpressionErrorView::TooLong)
    } else if descents(encode_utf8(text)) > MAX_DESCENTS {
        Err(ExpressionErrorView::TooDeep)
    } else {
        judged(parsed_nix(text))
    }
}

/// What `prepare_fixes` makes of the text of a flake: what is wrong with the
/// text, or else with the follow attribute.
pub open spec fn fixes_outcome(flake: Seq<char>) -> Result<(), ExpressionErrorView> {
    match expression_outcome(flake) {
        Ok(()) => expression_outcome(follow_attribute()),
        Err(error) => Err(error),
    }
}

/// Says what is wrong with a text of which the parser made `parsed`: a text
/// that does not parse is refused with the parser's complaint, and so is one
/// that parses but holds no expression.
pub fn judge(parsed: Result<bool, String>) -> (outcome: Result<(), ExpressionError>)
    ensures
        match outcome {
            Ok(()) => parsed == Ok::<bool, String>(true),
            Err(ExpressionError::NotAnExpression) => parsed == Ok::<bool, String>(false),
            Err(ExpressionError::Syntax(complaint)) => parsed == Err::<bool, String>(complaint),
            Err(ExpressionError::TooLong) => false,
            Err(ExpressionError::TooDeep) => false,
        },
{
    match parsed {
        Ok(true) => Ok(()),
        Ok(false) => Err(ExpressionError::NotAnExpression),
        Err(complaint) => Err(ExpressionError::Syntax(complaint)),
    }
}

/// Counts the places in the text at which the parser may descend without
/// counting.
pub fn count_descents(bytes: &[u8]) -> (count: usize)
    ensures
        count == descents(bytes@),
{
    let ghost all = byte_positions(bytes@.len());
    let ghost wanted = |at: int| descends_at(bytes@, at);
    let mut count: usize = 0;
    let mut i: usize = 0;
    proof {
        reveal(Seq::filter);
        assert(all.take(0).filter(wanted) =~= Seq::<int>::empty());
    }
    while i < bytes.len()
        invariant
            i <= bytes@.len(),
            count <= i,
            all == byte_positions(bytes@.len()),
            wanted == |at: int| descends_at(bytes@, at),
            count == all.take(i as int).filter(wanted).len(),
        decreases bytes@.len() - i,
    {
        let here: u8 = bytes[i];
        let paired = if i + 1 < bytes.len() {
            let next: u8 = bytes[i + 1];
            here == PLUS && next == PLUS || here == SLASH && next == SLASH || here == LESS && next
                == BAR || here == SMALL_O && next == SMALL_R
        } else {
            false
        };
        proof {
            assert(all.take(i + 1) =~= all.take(i as int).push(i as int));
            all.take(i as int).lemma_filter_push(i as int, wanted);
        }
        if here == LEFT_BRACKET || here == BANG || here == MINUS || paired {
            count += 1;
        }
        i += 1;
    }
    proof {
        assert(all.take(i as int) =~= all);
    }
    count
}

/// Makes sure that a text is a Nix expression. A text that is too long, or
/// that may take the parser too deep, is refused without being parsed.
pub fn check_expression(text: &str) -> (outcome: Result<(), ExpressionError>)
    ensures
        match outcome {
            Ok(()) => expression_outcome(text@) == Ok::<(), ExpressionErrorView>(()),
            Err(error) => expression_outcome(text@) == Err::<(), ExpressionErrorView>(error@),
        },
{
    let bytes = text.as_bytes();
    if bytes.len() > MAX_TEXT_LENGTH {
        return Err(ExpressionError::TooLong);
    }
    if count_descents(bytes) > MAX_DESCENTS {
        return Err(ExpressionError::TooDeep);
    }
    judge(parse_nix(text))
}

/// Makes ready to fix the inputs behind `_results_to_fix` in the text of a
/// flake: makes sure that the text is a Nix expression, and that the follow
/// attribute to put into it is one. The text itself is left as it is.
pub fn prepare_fixes(
    flake_content: &str,
    _results_to_fix: &[InputRulesValidationResult],
) -> (outcome: Result<(), ExpressionError>)
    ensures
        match outcome {
            Ok(()) => fixes_outcome(flake_content@) == Ok::<(), ExpressionErrorView>(()),
            Err(error) => fixes_outcome(flake_content@) == Err::<(), ExpressionErrorView>(error@),
        },
{
    match check_expression(flake_content) {
        Ok(()) => check_expression("{ inputs.nixpkgs.follows = \"nixpkgs\"; }"),
        Err(error) => Err(error),
    }
}

} // verus!
