//! Integer arithmetic and comparison over terms.

use vstd::prelude::*;
use crate::terms::{Term, TermView};
use crate::text::same_text;

verus! {

/// The 64-bit integer that holds `v`, if `v` fits.
pub open spec fn fitting(v: int) -> Option<i64> {
    if i64::MIN <= v <= i64::MAX {
        Some(v as i64)
    } else {
        None
    }
}

/// The quotient of `x` by `d`, rounded towards zero.
pub open spec fn quotient(x: int, d: int) -> int
    recommends
        d != 0,
{
    if x >= 0 && d > 0 {
        x / d
    } else if x < 0 && d < 0 {
        (-x) / (-d)
    } else if x < 0 {
        -((-x) / d)
    } else {
        -(x / (-d))
    }
}

/// What the operator `op` makes of two integers: sum, difference, product or
/// quotient. `None` for division by zero, for a result that does not fit in
/// 64 bits, and for any other operator.
pub open spec fn combined(op: Seq<char>, left: i64, right: i64) -> Option<i64> {
    if op == "+"@ {
        fitting(left + right)
    } else if op == "-"@ {
        fitting(left - right)
    } else if op == "*"@ {
        fitting(left * right)
    } else if op == "/"@ {
        if right != 0 {
            fitting(quotient(left as int, right as int))
        } else {
            None
        }
    } else {
        None
    }
}

/// The value of an arithmetic expression: an integer is itself, a compound
/// of two arguments combines the values of its arguments by its operator,
/// and nothing else has a value.
pub open spec fn evaluated(t: TermView) -> Option<i64>
    decreases t,
{
    match t {
        TermView::Integer(n) => Some(n),
        TermView::Compound(op, args) => if args.len() == 2 {
            match evaluated(args[0]) {
                Some(left) => match evaluated(args[1]) {
                    Some(right) => combined(op, left, right),
                    None => None,
                },
                None => None,
            }
        } else {
            None
        },
        _ => None,
    }
}

/// Whether `op` is one of the six relational operators.
pub open spec fn is_relational(op: Seq<char>) -> bool {
    op == "<"@ || op == ">"@ || op == "=<"@ || op == ">="@ || op == "="@ || op == "\\="@
}

/// How two integers compare under the relational operator `op`; `None` for
/// any other operator.
pub open spec fn compared(op: Seq<char>, left: i64, right: i64) -> Option<bool> {
    if op == "<"@ {
        Some(left < right)
    } else if op == ">"@ {
        Some(left > right)
    } else if op == "=<"@ {
        Some(left <= right)
    } else if op == ">="@ {
        Some(left >= right)
    } else if op == "="@ {
        Some(left == right)
    } else if op == "\\="@ {
        Some(left != right)
    } else {
        None
    }
}

/// How the values of two arithmetic expressions compare under `op`; `None`
/// when either has no value or `op` is no relational operator.
pub open spec fn related(op: Seq<char>, left: TermView, right: TermView) -> Option<bool> {
    match evaluated(left) {
        Some(l) => match evaluated(right) {
            Some(r) => compared(op, l, r),
            None => None,
        },
        None => None,
    }
}

/// Combines two integers by an arithmetic operator.
pub fn combine(op: &str, left: i64, right: i64) -> (value: Option<i64>)
    ensures
        value == combined(op@, left, right),
{
    if same_text(op, "+") {
        left.checked_add(right)
    } else if same_text(op, "-") {
        left.checked_sub(right)
    } else if same_text(op, "*") {
        left.checked_mul(right)
    } else if same_text(op, "/") {
        if right != 0 {
            left.checked_div(right)
        } else {
            None
        }
    } else {
        None
    }
}

/// Evaluates an arithmetic expression over integers.
pub fn evaluate_arithmetic(expr: &Term) -> (value: Option<i64>)
    ensures
        value == evaluated(expr@),
    decreases expr,
{
    match expr {
        Term::Integer(n) => Some(*n),
        Term::Compound(op, args) => {
            if args.len() == 2 {
                proof {
                    vstd::std_specs::vec::axiom_vec_index_decreases(*args, 0);
                    vstd::std_specs::vec::axiom_vec_index_decreases(*args, 1);
                    let views = crate::terms::view_terms(args@);
                    assert(views[0] == args[0]@);
                    assert(views[1] == args[1]@);
                }
                let left = match evaluate_arithmetic(&args[0]) {
                    Some(v) => v,
                    None => {
                        return None;
                    },
                };
                let right = match evaluate_arithmetic(&args[1]) {
                    Some(v) => v,
                    None => {
                        return None;
                    },
                };
                combine(op.as_str(), left, right)
            } else {
                assert(crate::terms::view_terms(args@).len() == args.len());
                None
            }
        },
        _ => None,
    }
}

/// Whether `op` is one of the six relational operators.
pub fn is_relational_operator(op: &str) -> (r: bool)
    ensures
        r == is_relational(op@),
{
    same_text(op, "<") || same_text(op, ">") || same_text(op, "=<") || same_text(op, ">=") || same_text(
        op,
        "=",
    ) || same_text(op, "\\=")
}

/// Evaluates both sides and compares them by a relational operator.
pub fn evaluate_relation(op: &str, left: &Term, right: &Term) -> (holds: Option<bool>)
    ensures
        holds == related(op@, left@, right@),
{
    let left_value = match evaluate_arithmetic(left) {
        Some(v) => v,
        None => {
            return None;
        },
    };
    let right_value = match evaluate_arithmetic(right) {
        Some(v) => v,
        None => {
            return None;
        },
    };
    if same_text(op, "<") {
        Some(left_value < right_value)
    } else if same_text(op, ">") {
        Some(left_value > right_value)
    } else if same_text(op, "=<") {
        Some(left_value <= right_value)
    } else if same_text(op, ">=") {
        Some(left_value >= right_value)
    } else if same_text(op, "=") {
        Some(left_value == right_value)
    } else if same_text(op, "\\=") {
        Some(left_value != right_value)
    } else {
        None
    }
}

} // verus!
