//! The primitive operations of the runtime: their mathematical
//! specification, the executable dispatcher, and the name table under
//! which the evaluator finds them.

use vstd::prelude::*;
use crate::types::{
    ArgType, BuiltIn, EvaluationError, LispValue, SpecError, SpecVal, lemma_values_view,
    spec_type, value_view, values_view,
};

verus! {

/// What a primitive operation returns, as a function of its operands.
///
/// `list` is variadic and collects its operands in order. All other
/// primitives have a fixed arity; a wrong operand count is an
/// `ArgumentCountMismatch` and a wrong operand type an
/// `ArgumentTypeMismatch`, the count being checked first. The head of a
/// list sits at the end of its element sequence: `cons` appends the new
/// head there, `car` reads it, and `cdr` drops it. `add1` of the largest
/// representable integer saturates; `sub1` of zero is a `SubZero` error.
pub open spec fn spec_apply_builtin(b: BuiltIn, args: Seq<SpecVal>) -> Result<SpecVal, SpecError> {
    match b {
        BuiltIn::List => Ok(SpecVal::List(args)),
        BuiltIn::AddOne => if args.len() != 1 {
            Err(SpecError::ArgumentCountMismatch)
        } else {
            match args[0] {
                SpecVal::Int(i) => Ok(
                    SpecVal::Int(if i == u64::MAX { i } else { (i + 1) as u64 }),
                ),
                _ => Err(SpecError::ArgumentTypeMismatch),
            }
        },
        BuiltIn::SubOne => if args.len() != 1 {
            Err(SpecError::ArgumentCountMismatch)
        } else {
            match args[0] {
                SpecVal::Int(i) => if i == 0 {
                    Err(SpecError::SubZero)
                } else {
                    Ok(SpecVal::Int((i - 1) as u64))
                },
                _ => Err(SpecError::ArgumentTypeMismatch),
            }
        },
        BuiltIn::CheckZero => if args.len() != 1 {
            Err(SpecError::ArgumentCountMismatch)
        } else {
            match args[0] {
                SpecVal::Int(i) => Ok(SpecVal::Bool(i == 0)),
                _ => Err(SpecError::ArgumentTypeMismatch),
            }
        },
        BuiltIn::CheckNull => if args.len() != 1 {
            Err(SpecError::ArgumentCountMismatch)
        } else {
            match args[0] {
                SpecVal::List(l) => Ok(SpecVal::Bool(l.len() == 0)),
                _ => Err(SpecError::ArgumentTypeMismatch),
            }
        },
        BuiltIn::Cons => if args.len() != 2 {
            Err(SpecError::ArgumentCountMismatch)
        } else {
            match args[1] {
                SpecVal::List(l) => Ok(SpecVal::List(l.push(args[0]))),
                _ => Err(SpecError::ArgumentTypeMismatch),
            }
        },
        BuiltIn::Car => if args.len() != 1 {
            Err(SpecError::ArgumentCountMismatch)
        } else {
            match args[0] {
                SpecVal::List(l) => if l.len() == 0 {
                    Err(SpecError::EmptyList)
                } else {
                    Ok(l.last())
                },
                _ => Err(SpecError::ArgumentTypeMismatch),
            }
        },
        BuiltIn::Cdr => if args.len() != 1 {
            Err(SpecError::ArgumentCountMismatch)
        } else {
            match args[0] {
                SpecVal::List(l) => if l.len() == 0 {
                    Err(SpecError::EmptyList)
                } else {
                    Ok(SpecVal::List(l.drop_last()))
                },
                _ => Err(SpecError::ArgumentTypeMismatch),
            }
        },
        BuiltIn::CheckType(t) => if args.len() != 1 {
            Err(SpecError::ArgumentCountMismatch)
        } else {
            Ok(SpecVal::Bool(spec_type(args[0]) == t))
        },
    }
}

/// Applies a primitive operation to its operands, taken in call order.
pub fn apply_builtin(b: &BuiltIn, args: Vec<LispValue>) -> (r: Result<
    LispValue,
    EvaluationError,
>)
    ensures
        match spec_apply_builtin(*b, values_view(args@)) {
            Ok(res) => r matches Ok(v) && v@ == res,
            Err(k) => r matches Err(e) && e@ == k,
        },
{
    proof {
        lemma_values_view(args@);
    }
    let mut args = args;
    match *b {
        BuiltIn::List => Ok(LispValue::List(args)),
        BuiltIn::AddOne => {
            if args.len() != 1 {
                return Err(EvaluationError::ArgumentCountMismatch);
            }
            match args.pop() {
                Some(LispValue::Integer(i)) => Ok(
                    LispValue::Integer(if i == u64::MAX { i } else { i + 1 }),
                ),
                _ => Err(EvaluationError::ArgumentTypeMismatch),
            }
        },
        BuiltIn::SubOne => {
            if args.len() != 1 {
                return Err(EvaluationError::ArgumentCountMismatch);
            }
            match args.pop() {
                Some(LispValue::Integer(i)) => if i == 0 {
                    Err(EvaluationError::SubZero)
                } else {
                    Ok(LispValue::Integer(i - 1))
                },
                _ => Err(EvaluationError::ArgumentTypeMismatch),
            }
        },
        BuiltIn::CheckZero => {
            if args.len() != 1 {
                return Err(EvaluationError::ArgumentCountMismatch);
            }
            match args.pop() {
                Some(LispValue::Integer(i)) => Ok(LispValue::Boolean(i == 0)),
                _ => Err(EvaluationError::ArgumentTypeMismatch),
            }
        },
        BuiltIn::CheckNull => {
            if args.len() != 1 {
                return Err(EvaluationError::ArgumentCountMismatch);
            }
            match args.pop() {
                Some(LispValue::List(l)) => {
                    proof {
                        lemma_values_view(l@);
                    }
                    Ok(LispValue::Boolean(l.len() == 0))
                },
                _ => Err(EvaluationError::ArgumentTypeMismatch),
            }
        },
        BuiltIn::Cons => {
            if args.len() != 2 {
                return Err(EvaluationError::ArgumentCountMismatch);
            }
            let second = args.pop();
            let first = args.pop();
            match (first, second) {
                (Some(x), Some(LispValue::List(mut l))) => {
                    proof {
                        lemma_values_view(l@);
                    }
                    let ghost l0 = l@;
                    l.push(x);
                    proof {
                        lemma_values_view(l@);
                        assert(values_view(l@) =~= values_view(l0).push(value_view(x)));
                    }
                    Ok(LispValue::List(l))
                },
                _ => Err(EvaluationError::ArgumentTypeMismatch),
            }
        },
        BuiltIn::Car => {
            if args.len() != 1 {
                return Err(EvaluationError::ArgumentCountMismatch);
            }
            match args.pop() {
                Some(LispValue::List(mut l)) => {
                    proof {
                        lemma_values_view(l@);
                    }
                    match l.pop() {
                        Some(head) => Ok(head),
                        None => Err(EvaluationError::EmptyList),
                    }
                },
                _ => Err(EvaluationError::ArgumentTypeMismatch),
            }
        },
        BuiltIn::Cdr => {
            if args.len() != 1 {
                return Err(EvaluationError::ArgumentCountMismatch);
            }
            match args.pop() {
                Some(LispValue::List(mut l)) => {
                    proof {
                        lemma_values_view(l@);
                    }
                    let ghost l0 = l@;
                    match l.pop() {
                        Some(_) => {
                            proof {
                                lemma_values_view(l@);
                                assert(values_view(l@) =~= values_view(l0).drop_last());
                            }
                            Ok(LispValue::List(l))
                        },
                        None => Err(EvaluationError::EmptyList),
                    }
                },
                _ => Err(EvaluationError::ArgumentTypeMismatch),
            }
        },
        BuiltIn::CheckType(t) => {
            if args.len() != 1 {
                return Err(EvaluationError::ArgumentCountMismatch);
            }
            match args.pop() {
                Some(v) => Ok(LispValue::Boolean(v.get_type() == t)),
                None => Err(EvaluationError::ArgumentCountMismatch),
            }
        },
    }
}

impl BuiltIn {
    /// The primitive denoted by a name, if any.
    pub fn from_str(s: &str) -> (r: Option<BuiltIn>)
        ensures
            r == spec_builtin_of_name(s@),
    {
        let name = s.to_owned();
        if name == "add1".to_owned() {
            Some(BuiltIn::AddOne)
        } else if name == "sub1".to_owned() {
            Some(BuiltIn::SubOne)
        } else if name == "cons".to_owned() {
            Some(BuiltIn::Cons)
        } else if name == "cdr".to_owned() {
            Some(BuiltIn::Cdr)
        } else if name == "car".to_owned() {
            Some(BuiltIn::Car)
        } else if name == "list".to_owned() {
            Some(BuiltIn::List)
        } else if name == "zero?".to_owned() {
            Some(BuiltIn::CheckZero)
        } else if name == "null?".to_owned() {
            Some(BuiltIn::CheckNull)
        } else if name == "int?".to_owned() {
            Some(BuiltIn::CheckType(ArgType::Integer))
        } else if name == "bool?".to_owned() {
            Some(BuiltIn::CheckType(ArgType::Boolean))
        } else if name == "list?".to_owned() {
            Some(BuiltIn::CheckType(ArgType::List))
        } else if name == "fun?".to_owned() {
            Some(BuiltIn::CheckType(ArgType::Function))
        } else {
            None
        }
    }
}

/// The primitive denoted by a name, if any.
pub open spec fn spec_builtin_of_name(n: Seq<char>) -> Option<BuiltIn> {
    if n == "add1"@ {
        Some(BuiltIn::AddOne)
    } else if n == "sub1"@ {
        Some(BuiltIn::SubOne)
    } else if n == "cons"@ {
        Some(BuiltIn::Cons)
    } else if n == "cdr"@ {
        Some(BuiltIn::Cdr)
    } else if n == "car"@ {
        Some(BuiltIn::Car)
    } else if n == "list"@ {
        Some(BuiltIn::List)
    } else if n == "zero?"@ {
        Some(BuiltIn::CheckZero)
    } else if n == "null?"@ {
        Some(BuiltIn::CheckNull)
    } else if n == "int?"@ {
        Some(BuiltIn::CheckType(ArgType::Integer))
    } else if n == "bool?"@ {
        Some(BuiltIn::CheckType(ArgType::Boolean))
    } else if n == "list?"@ {
        Some(BuiltIn::CheckType(ArgType::List))
    } else if n == "fun?"@ {
        Some(BuiltIn::CheckType(ArgType::Function))
    } else {
        None
    }
}

/// The list a fold of `cons` applications rebuilds from the elements of
/// `xs`, innermost application first.
pub open spec fn spec_rebuild_list(xs: Seq<SpecVal>) -> Result<SpecVal, SpecError>
    decreases xs.len(),
{
    if xs.len() == 0 {
        spec_apply_builtin(BuiltIn::List, Seq::empty())
    } else {
        match spec_rebuild_list(xs.drop_last()) {
            Ok(rest) => spec_apply_builtin(BuiltIn::Cons, seq![xs.last(), rest]),
            Err(k) => Err(k),
        }
    }
}

/// The list round trip: rebuilding the list `(list x₁ … xₙ)` by folding
/// `cons` over its elements — the innermost application prepending the
/// tail-most element — yields the same list; `car` of a non-empty list is
/// its head and `cdr` the list without the head.
pub proof fn lemma_list_round_trip(xs: Seq<SpecVal>)
    ensures
        spec_rebuild_list(xs) == Ok::<SpecVal, SpecError>(SpecVal::List(xs)),
        xs.len() > 0 ==> spec_apply_builtin(BuiltIn::Car, seq![SpecVal::List(xs)])
            == Ok::<SpecVal, SpecError>(xs.last()),
        xs.len() > 0 ==> spec_apply_builtin(BuiltIn::Cdr, seq![SpecVal::List(xs)])
            == Ok::<SpecVal, SpecError>(SpecVal::List(xs.drop_last())),
    decreases xs.len(),
{
    if xs.len() == 0 {
        assert(SpecVal::List(Seq::<SpecVal>::empty()) == SpecVal::List(xs)) by {
            assert(Seq::<SpecVal>::empty() =~= xs);
        }
    } else {
        lemma_list_round_trip(xs.drop_last());
        assert(xs.drop_last().push(xs.last()) =~= xs);
    }
}

} // verus!
