//! The arithmetic source: a query that parses as an expression yields exactly
//! one synthetic entry showing the result, ranked above everything else.

use vstd::prelude::*;

use crate::entry::Entry;
use crate::entry::EntryAction;
use crate::text::contains_seq;
use crate::text::contains_str;

verus! {

/// What evaluating an expression produced: a printable value, the empty
/// value, or a parse/evaluation error with its message.
pub enum EvalOutcome {
    Value(String),
    Empty,
    Error(String),
}

/// The outcome at the specification level, over character sequences.
pub enum EvalOutcomeView {
    Value(Seq<char>),
    Empty,
    Error(Seq<char>),
}

impl View for EvalOutcome {
    type V = EvalOutcomeView;

    open spec fn view(&self) -> EvalOutcomeView {
        match self {
            EvalOutcome::Value(v) => EvalOutcomeView::Value(v@),
            EvalOutcome::Empty => EvalOutcomeView::Empty,
            EvalOutcome::Error(e) => EvalOutcomeView::Error(e@),
        }
    }
}

/// What evaluating the expression string returns; a function of the
/// expression text alone.
pub uninterp spec fn eval_outcome(expr: Seq<char>) -> EvalOutcomeView;

/// An expression this launcher hands to the evaluator. Four of the
/// evaluator's built-in functions can panic on crafted arguments —
/// `str::substring` slices a string at caller-chosen byte indices, and the
/// shift and integer-absolute-value builtins overflow — so expressions that
/// name them are kept away from the call and answered with a fixed error
/// text instead.
pub open spec fn is_supported_expr(q: Seq<char>) -> bool {
    &&& !contains_seq(q, "str::substring"@)
    &&& !contains_seq(q, "shl"@)
    &&& !contains_seq(q, "shr"@)
    &&& !contains_seq(q, "math::abs"@)
}

/// Whether the expression avoids the evaluator's panicking builtins.
fn supported_expr(q: &str) -> (r: bool)
    ensures
        r == is_supported_expr(q@),
{
    !contains_str(q, "str::substring") && !contains_str(q, "shl") && !contains_str(q, "shr")
        && !contains_str(q, "math::abs")
}

/// Relies on evalexpr::eval: evaluation in a fresh empty context is
/// deterministic (the crate's optional random-number extension is not
/// enabled), so the outcome is a function of the expression string alone.
/// A `Value` is rendered by the value's display form, an error by its
/// message. The `requires` keeps out the expressions on which the
/// evaluator's builtins can panic (see `is_supported_expr`); on every
/// admitted input the call returns normally.
#[verifier::external_body]
fn eval_expression(expr: &str) -> (r: EvalOutcome)
    requires
        is_supported_expr(expr@),
    ensures
        r@ == eval_outcome(expr@),
{
    match evalexpr::eval(expr) {
        Ok(evalexpr::Value::Empty) => EvalOutcome::Empty,
        Ok(v) => EvalOutcome::Value(format!("{}", v)),
        Err(e) => EvalOutcome::Error(format!("{}", e)),
    }
}

/// An explicit expression query: `=` followed by the expression.
pub open spec fn explicit_expr(q: Seq<char>) -> Option<Seq<char>> {
    if q.len() > 0 && q[0] == '=' {
        Some(q.skip(1))
    } else {
        None
    }
}

/// The single entry shown for a computed value: `= ` followed by the printed
/// value, which executing copies to the clipboard.
pub open spec fn is_math_value_entry(e: Entry, v: Seq<char>) -> bool {
    &&& e.text@ == "= "@ + v
    &&& e.id@ == e.text@
    &&& e.searchable@ == e.text@
    &&& e.description is None
    &&& e.icon is None
    &&& e.action matches EntryAction::CopyText { value } && value@ == v
}

/// The single entry shown for a failed explicit expression: the error message
/// itself, so the user gets feedback rather than silence.
pub open spec fn is_math_error_entry(e: Entry, msg: Seq<char>) -> bool {
    &&& e.text@ == msg
    &&& e.id@ == e.text@
    &&& e.searchable@ == e.text@
    &&& e.description is None
    &&& e.icon is None
    &&& e.action matches EntryAction::CopyText { value } && value@ == msg
}

/// How many entries the arithmetic source contributes for a query: always
/// one with an explicit `=` prefix, one for a supported implicit query that
/// evaluates to a non-empty value, none otherwise.
pub open spec fn spec_math_count(q: Seq<char>) -> int {
    match explicit_expr(q) {
        Some(_) => 1,
        None => if is_supported_expr(q) {
            match eval_outcome(q) {
                EvalOutcomeView::Value(_) => 1,
                _ => 0,
            }
        } else {
            0
        },
    }
}

/// The single entry the arithmetic source shows for this query, when it
/// contributes one: the printed value behind `= `, or — for an explicit
/// query that fails or that names a panicking builtin — the error text.
pub open spec fn is_math_entry_for(e: Entry, q: Seq<char>) -> bool {
    match explicit_expr(q) {
        Some(rest) => if is_supported_expr(rest) {
            match eval_outcome(rest) {
                EvalOutcomeView::Value(v) => is_math_value_entry(e, v),
                EvalOutcomeView::Empty => is_math_value_entry(e, "()"@),
                EvalOutcomeView::Error(msg) => is_math_error_entry(e, msg),
            }
        } else {
            is_math_error_entry(e, "unsupported expression"@)
        },
        None => is_supported_expr(q) && match eval_outcome(q) {
            EvalOutcomeView::Value(v) => is_math_value_entry(e, v),
            _ => false,
        },
    }
}

/// Arithmetic answers are never silent: an explicit `=` query contributes
/// exactly one entry, and when the expression fails — or names a builtin the
/// launcher keeps away from the evaluator — that entry shows the error text
/// rather than nothing.
pub proof fn lemma_explicit_query_always_answers(q: Seq<char>, rest: Seq<char>, e: Entry)
    requires
        explicit_expr(q) == Some(rest),
        is_math_entry_for(e, q),
    ensures
        spec_math_count(q) == 1,
        is_supported_expr(rest) ==> match eval_outcome(rest) {
            EvalOutcomeView::Value(v) => is_math_value_entry(e, v),
            EvalOutcomeView::Empty => is_math_value_entry(e, "()"@),
            EvalOutcomeView::Error(msg) => is_math_error_entry(e, msg),
        },
        !is_supported_expr(rest) ==> is_math_error_entry(e, "unsupported expression"@),
{
}

/// The arithmetic source. It holds no state: every query is evaluated fresh.
pub struct MathFinder {}

impl MathFinder {
    pub fn new() -> (r: Self) {
        MathFinder {  }
    }

    /// The arithmetic source contributes nothing to the default list.
    pub fn default_entries(&self) -> (r: Option<Vec<(Entry, u32)>>)
        ensures
            r is None,
    {
        None
    }

    /// The entries for a query.
    ///
    /// With an explicit `=` prefix the rest is evaluated and always yields one
    /// entry: the printed value (the empty value prints as `()`), the error
    /// message, or a fixed error text for an expression the launcher keeps
    /// away from the evaluator. Without the prefix the whole query is tried,
    /// and the source declines unless it evaluates to a non-empty value. A
    /// math entry always carries the maximum representable score.
    pub fn filtered_entries(&self, query: &str) -> (r: Option<Vec<(Entry, u32)>>)
        ensures
            spec_math_count(query@) == 1 ==> (r matches Some(list) && list@.len() == 1
                && list@[0].1 == u32::MAX && is_math_entry_for(list@[0].0, query@)),
            spec_math_count(query@) == 0 ==> r is None,
    {
        let n = query.unicode_len();
        if n > 0 && query.get_char(0) == '=' {
            let rest = query.substring_char(1, n);
            if !supported_expr(rest) {
                let msg = String::from_str("unsupported expression");
                return Some(vec![(math_error_entry(msg), u32::MAX)]);
            }
            match eval_expression(rest) {
                EvalOutcome::Value(v) => Some(vec![(math_value_entry(v), u32::MAX)]),
                EvalOutcome::Empty => {
                    let printed = String::from_str("()");
                    Some(vec![(math_value_entry(printed), u32::MAX)])
                },
                EvalOutcome::Error(msg) => Some(vec![(math_error_entry(msg), u32::MAX)]),
            }
        } else {
            if !supported_expr(query) {
                return None;
            }
            match eval_expression(query) {
                EvalOutcome::Value(v) => Some(vec![(math_value_entry(v), u32::MAX)]),
                EvalOutcome::Empty => None,
                EvalOutcome::Error(_) => None,
            }
        }
    }
}

/// Build the entry for a printed value.
fn math_value_entry(v: String) -> (e: Entry)
    ensures
        is_math_value_entry(e, v@),
{
    let text = String::from_str("= ").concat(v.as_str());
    let id = text.clone();
    let searchable = text.clone();
    Entry {
        id,
        text,
        description: None,
        icon: None,
        searchable,
        action: EntryAction::CopyText { value: v },
    }
}

/// Build the entry for an error message.
fn math_error_entry(msg: String) -> (e: Entry)
    ensures
        is_math_error_entry(e, msg@),
{
    let text = msg.clone();
    let id = text.clone();
    let searchable = text.clone();
    Entry {
        id,
        text,
        description: None,
        icon: None,
        searchable,
        action: EntryAction::CopyText { value: msg },
    }
}

} // verus!
