//! The environment of top-level definitions and the stack machine that
//! executes finalized expressions against it.

use vstd::prelude::*;
use crate::types::{
    BuiltIn, EvaluationError, FinalizedExpr, LispExpr, LispFunc, LispValue, SpecError, SpecExpr,
    SpecFun, SpecVal, TopExpr, clone_expr, clone_value, lemma_values_view, lemma_values_view_add,
    lemma_values_view_push, lemma_values_view_subrange, spec_args_bounded,
    spec_continuation_body, spec_replace_args, value_view, values_view,
};
use crate::builtins::{apply_builtin, spec_builtin_of_name};
use crate::resolve::{ArgumentsMap, SpecTop, spec_classify, spec_empty_args, spec_finalize};

verus! {

broadcast use vstd::std_specs::vec::group_vec_axioms, vstd::seq::group_seq_axioms;

/// The map a sequence of bindings denotes; a later binding for a name
/// shadows an earlier one.
pub open spec fn spec_bindings(s: Seq<(String, LispValue)>) -> Map<Seq<char>, SpecVal>
    decreases s.len(),
{
    if s.len() == 0 {
        Map::empty()
    } else {
        spec_bindings(s.drop_last()).insert(s.last().0@, value_view(s.last().1))
    }
}

pub proof fn lemma_spec_bindings_get(s: Seq<(String, LispValue)>, i: int)
    requires
        0 <= i < s.len(),
        forall|j: int| i < j < s.len() ==> s[j].0@ != s[i].0@,
    ensures
        spec_bindings(s).contains_key(s[i].0@),
        spec_bindings(s)[s[i].0@] == value_view(s[i].1),
    decreases s.len(),
{
    if i < s.len() - 1 {
        lemma_spec_bindings_get(s.drop_last(), i);
    }
}

pub proof fn lemma_spec_bindings_absent(s: Seq<(String, LispValue)>, n: Seq<char>)
    requires
        forall|j: int| 0 <= j < s.len() ==> s[j].0@ != n,
    ensures
        !spec_bindings(s).contains_key(n),
    decreases s.len(),
{
    if s.len() > 0 {
        lemma_spec_bindings_absent(s.drop_last(), n);
    }
}

/// The process-wide environment: a mapping from symbol to value holding
/// the top-level definitions and the two boolean constants.
#[derive(Debug)]
pub struct State {
    bound: Vec<(String, LispValue)>,
}

impl View for State {
    type V = Map<Seq<char>, SpecVal>;

    closed spec fn view(&self) -> Map<Seq<char>, SpecVal> {
        spec_bindings(self.bound@)
    }
}

/// What a lookup in the environment yields: the bound value, or the
/// primitive of that name for a name that is not bound.
pub open spec fn spec_env_get(m: Map<Seq<char>, SpecVal>, n: Seq<char>) -> Option<SpecVal> {
    if m.contains_key(n) {
        Some(m[n])
    } else {
        match spec_builtin_of_name(n) {
            Some(b) => Some(SpecVal::Fun(SpecFun::BuiltIn(b))),
            None => None,
        }
    }
}

impl State {
    /// The initial environment: only the two boolean constants are bound.
    pub fn new() -> (r: State)
        ensures
            r@ == Map::empty().insert("#t"@, SpecVal::Bool(true)).insert(
                "#f"@,
                SpecVal::Bool(false),
            ),
    {
        let mut bound: Vec<(String, LispValue)> = Vec::new();
        bound.push(("#t".to_owned(), LispValue::Boolean(true)));
        bound.push(("#f".to_owned(), LispValue::Boolean(false)));
        proof {
            assert(spec_bindings(Seq::<(String, LispValue)>::empty())
                == Map::<Seq<char>, SpecVal>::empty());
            assert(seq![bound@[0]].drop_last() =~= Seq::<(String, LispValue)>::empty());
            assert(spec_bindings(seq![bound@[0]]) == Map::<Seq<char>, SpecVal>::empty().insert(
                "#t"@,
                SpecVal::Bool(true),
            ));
            assert(bound@.drop_last() =~= seq![bound@[0]]);
            assert(spec_bindings(bound@) == spec_bindings(seq![bound@[0]]).insert(
                "#f"@,
                SpecVal::Bool(false),
            ));
        }
        State { bound }
    }

    /// Whether a name is bound in the environment.
    pub fn is_bound(&self, var_name: &str) -> (r: bool)
        ensures
            r == self@.contains_key(var_name@),
    {
        let name = var_name.to_owned();
        let n = self.bound.len();
        let mut i: usize = n;
        #[verifier::loop_isolation(false)]
        while i > 0
            invariant
                i <= n,
                forall|j: int| i <= j < n ==> self.bound@[j].0@ != var_name@,
            decreases i,
        {
            i = i - 1;
            if self.bound[i].0 == name {
                proof {
                    lemma_spec_bindings_get(self.bound@, i as int);
                }
                return true;
            }
        }
        proof {
            lemma_spec_bindings_absent(self.bound@, var_name@);
        }
        false
    }

    /// Looks a symbol up: a bound name yields its value, an unbound name
    /// that denotes a primitive yields that primitive as a function
    /// value, and any other name yields nothing.
    pub fn get_variable_value(&self, var_name: &str) -> (r: Option<LispValue>)
        ensures
            match r {
                Some(v) => spec_env_get(self@, var_name@) == Some(v@),
                None => spec_env_get(self@, var_name@) is None,
            },
    {
        let name = var_name.to_owned();
        let n = self.bound.len();
        let mut i: usize = n;
        #[verifier::loop_isolation(false)]
        while i > 0
            invariant
                i <= n,
                forall|j: int| i <= j < n ==> self.bound@[j].0@ != var_name@,
            decreases i,
        {
            i = i - 1;
            if self.bound[i].0 == name {
                proof {
                    lemma_spec_bindings_get(self.bound@, i as int);
                }
                return Some(clone_value(&self.bound[i].1));
            }
        }
        proof {
            lemma_spec_bindings_absent(self.bound@, var_name@);
        }
        match BuiltIn::from_str(var_name) {
            Some(b) => Some(LispValue::Function(LispFunc::BuiltIn(b))),
            None => None,
        }
    }

    /// Binds a name to a value; an existing binding for the name is
    /// shadowed.
    pub fn set_variable(&mut self, var_name: &str, val: LispValue)
        ensures
            final(self)@ == old(self)@.insert(var_name@, val@),
    {
        let ghost vv = val@;
        self.bound.push((var_name.to_owned(), val));
        proof {
            assert(self.bound@.drop_last() =~= old(self).bound@);
        }
    }
}

impl Default for State {
    /// The initial environment, as `State::new` builds it.
    fn default() -> (r: State)
        ensures
            r@ == Map::empty().insert("#t"@, SpecVal::Bool(true)).insert(
                "#f"@,
                SpecVal::Bool(false),
            ),
    {
        State::new()
    }
}

/// The work list items of the stack machine.
enum Instr {
    /// Evaluate one finalized expression and leave its result on the
    /// value stack.
    EvalAndPush(FinalizedExpr),
    /// Pop the callee and apply it to the topmost argument values.
    EvalCall(usize),
    /// Pop the callee, move the just-evaluated arguments down over the
    /// current frame's argument region, and apply without a new frame.
    TailEvalCall(usize),
    /// Pop a boolean and queue one of the two branches.
    PopCondPush(FinalizedExpr, FinalizedExpr),
    /// Pop one saved frame, keeping the topmost value as its result.
    ReturnFrame,
}

/// The number of pending frame returns in the work list.
spec fn count_return_frames(s: Seq<Instr>) -> nat
    decreases s.len(),
{
    if s.len() == 0 {
        0
    } else {
        count_return_frames(s.drop_last()) + (if s.last() is ReturnFrame {
            1nat
        } else {
            0nat
        })
    }
}

proof fn lemma_count_push(s: Seq<Instr>, i: Instr)
    ensures
        count_return_frames(s.push(i)) == count_return_frames(s) + (if i is ReturnFrame {
            1nat
        } else {
            0nat
        }),
{
    assert(s.push(i).drop_last() =~= s);
}


/// The model of a work-list item.
#[verifier::ext_equal]
pub enum SpecInstr {
    EvalAndPush(SpecExpr),
    EvalCall(usize),
    TailEvalCall(usize),
    PopCondPush(SpecExpr, SpecExpr),
    ReturnFrame,
}

/// The model of a machine configuration: the pending work list, the
/// value stack, and the frame stack of argument-region base indices.
#[verifier::ext_equal]
pub struct SpecMachine {
    pub instrs: Seq<SpecInstr>,
    pub values: Seq<SpecVal>,
    pub frames: Seq<usize>,
}

/// The outcome of one machine step: the next configuration, or the
/// error that aborts the evaluation.
#[verifier::ext_equal]
pub enum SpecStep {
    Next(SpecMachine),
    Fail(SpecError),
}

/// What a primitive application leaves of the value stack: its operands
/// replaced by its result.
pub open spec fn spec_run_builtin(b: BuiltIn, n: usize, vals: Seq<SpecVal>) -> Result<
    Seq<SpecVal>,
    SpecError,
> {
    if n > vals.len() {
        Err(SpecError::Internal)
    } else {
        match crate::builtins::spec_apply_builtin(
            b,
            vals.subrange(vals.len() - n, vals.len() as int),
        ) {
            Ok(v) => Ok(vals.take(vals.len() - n).push(v)),
            Err(k) => Err(k),
        }
    }
}

/// What a partial application leaves of the value stack: the supplied
/// operands replaced by the continuation that expects the rest.
pub open spec fn spec_run_partial(f: SpecFun, n: usize, vals: Seq<SpecVal>) -> Result<
    Seq<SpecVal>,
    SpecError,
> {
    match f {
        SpecFun::Custom(arity, body) => if n > vals.len() {
            Err(SpecError::Internal)
        } else {
            Ok(
                vals.take(vals.len() - n).push(
                    SpecVal::Fun(
                        SpecFun::Custom(
                            (arity - n) as nat,
                            Box::new(
                                spec_continuation_body(
                                    f,
                                    vals.subrange(vals.len() - n, vals.len() as int),
                                    arity,
                                ),
                            ),
                        ),
                    ),
                ),
            )
        },
        _ => Err(SpecError::Internal),
    }
}

/// Applies a callee in ordinary (non-tail) position, after the callee
/// has been popped: a primitive runs at once; a user function of
/// matching arity gets a fresh frame at the start of its argument
/// region, a pending return, and its body queued; undersupplied
/// operands curry; zero or oversupplied operands are a count mismatch.
pub open spec fn spec_apply_function(callee: SpecVal, n: usize, m: SpecMachine) -> SpecStep {
    match callee {
        SpecVal::Fun(SpecFun::BuiltIn(b)) => match spec_run_builtin(b, n, m.values) {
            Ok(vals) => SpecStep::Next(
                SpecMachine { instrs: m.instrs, values: vals, frames: m.frames },
            ),
            Err(k) => SpecStep::Fail(k),
        },
        SpecVal::Fun(SpecFun::Custom(arity, body)) => if n as nat == arity {
            if n > m.values.len() {
                SpecStep::Fail(SpecError::Internal)
            } else {
                SpecStep::Next(
                    SpecMachine {
                        instrs: m.instrs.push(SpecInstr::ReturnFrame).push(
                            SpecInstr::EvalAndPush(*body),
                        ),
                        values: m.values,
                        frames: m.frames.push((m.values.len() - n) as usize),
                    },
                )
            }
        } else if 0 < n && (n as nat) < arity {
            match spec_run_partial(SpecFun::Custom(arity, body), n, m.values) {
                Ok(vals) => SpecStep::Next(
                    SpecMachine { instrs: m.instrs, values: vals, frames: m.frames },
                ),
                Err(k) => SpecStep::Fail(k),
            }
        } else {
            SpecStep::Fail(SpecError::ArgumentCountMismatch)
        },
        _ => SpecStep::Fail(SpecError::NonFunctionApplication),
    }
}

/// Applies a callee in tail position: as `spec_apply_function`, but a
/// user function of matching arity runs in the current frame — nothing
/// is pushed on the frame stack and no return is queued.
pub open spec fn spec_apply_tail_function(callee: SpecVal, n: usize, m: SpecMachine) -> SpecStep {
    match callee {
        SpecVal::Fun(SpecFun::BuiltIn(b)) => match spec_run_builtin(b, n, m.values) {
            Ok(vals) => SpecStep::Next(
                SpecMachine { instrs: m.instrs, values: vals, frames: m.frames },
            ),
            Err(k) => SpecStep::Fail(k),
        },
        SpecVal::Fun(SpecFun::Custom(arity, body)) => if n as nat == arity {
            SpecStep::Next(
                SpecMachine {
                    instrs: m.instrs.push(SpecInstr::EvalAndPush(*body)),
                    values: m.values,
                    frames: m.frames,
                },
            )
        } else if 0 < n && (n as nat) < arity {
            match spec_run_partial(SpecFun::Custom(arity, body), n, m.values) {
                Ok(vals) => SpecStep::Next(
                    SpecMachine { instrs: m.instrs, values: vals, frames: m.frames },
                ),
                Err(k) => SpecStep::Fail(k),
            }
        } else {
            SpecStep::Fail(SpecError::ArgumentCountMismatch)
        },
        _ => SpecStep::Fail(SpecError::NonFunctionApplication),
    }
}

/// Moves the freshly evaluated argument region of a tail call down over
/// the current frame's argument region, discarding what the frame held,
/// and applies the callee there without pushing a frame.
pub open spec fn spec_enter_tail_call(callee: SpecVal, n: usize, m: SpecMachine) -> SpecStep {
    if m.frames.len() == 0 || n > m.values.len() {
        SpecStep::Fail(SpecError::Internal)
    } else {
        let base = m.frames.last();
        if base > m.values.len() - n {
            SpecStep::Fail(SpecError::Internal)
        } else {
            spec_apply_tail_function(
                callee,
                n,
                SpecMachine {
                    instrs: m.instrs,
                    values: m.values.take(base as int) + m.values.subrange(
                        m.values.len() - n,
                        m.values.len() as int,
                    ),
                    frames: m.frames,
                },
            )
        }
    }
}

/// Queues the operands of a call for evaluation, the first operand
/// topmost so that operands run left to right.
pub open spec fn spec_queue_args(instrs: Seq<SpecInstr>, args: Seq<SpecExpr>) -> Seq<SpecInstr>
    decreases args.len(),
{
    if args.len() == 0 {
        instrs
    } else {
        spec_queue_args(instrs.push(SpecInstr::EvalAndPush(args.last())), args.drop_last())
    }
}

/// One step of the machine on a finalized expression whose evaluation
/// has been dequeued.
pub open spec fn spec_step_eval(e: SpecExpr, m: SpecMachine, env: Map<Seq<char>, SpecVal>)
    -> SpecStep {
    match e {
        SpecExpr::Value(v) => SpecStep::Next(
            SpecMachine { instrs: m.instrs, values: m.values.push(v), frames: m.frames },
        ),
        SpecExpr::Variable(n) => match spec_env_get(env, n) {
            Some(v) => SpecStep::Next(
                SpecMachine { instrs: m.instrs, values: m.values.push(v), frames: m.frames },
            ),
            None => SpecStep::Fail(SpecError::UnknownVariable(n)),
        },
        SpecExpr::Argument(offset, _scope, _moveable) => if m.frames.len() == 0 {
            SpecStep::Fail(SpecError::Internal)
        } else {
            let base = m.frames.last();
            if offset >= m.values.len() || (base as int) > m.values.len() - 1 - (offset as int) {
                SpecStep::Fail(SpecError::Internal)
            } else {
                SpecStep::Next(
                    SpecMachine {
                        instrs: m.instrs,
                        values: m.values.push(m.values[base + offset]),
                        frames: m.frames,
                    },
                )
            }
        },
        SpecExpr::Lambda(arity, scope_level, body) => if m.frames.len() == 0 {
            SpecStep::Fail(SpecError::Internal)
        } else {
            let base = m.frames.last();
            if base > m.values.len() {
                SpecStep::Fail(SpecError::Internal)
            } else {
                let frame = m.values.subrange(base as int, m.values.len() as int);
                if !spec_args_bounded(*body, scope_level, frame.len() as nat) {
                    SpecStep::Fail(SpecError::Internal)
                } else {
                    SpecStep::Next(
                        SpecMachine {
                            instrs: m.instrs,
                            values: m.values.push(
                                SpecVal::Fun(
                                    SpecFun::Custom(
                                        arity,
                                        Box::new(
                                            spec_replace_args(*body, scope_level, frame),
                                        ),
                                    ),
                                ),
                            ),
                            frames: m.frames,
                        },
                    )
                }
            }
        },
        SpecExpr::Cond(test, th, el) => SpecStep::Next(
            SpecMachine {
                instrs: m.instrs.push(SpecInstr::PopCondPush(*th, *el)).push(
                    SpecInstr::EvalAndPush(*test),
                ),
                values: m.values,
                frames: m.frames,
            },
        ),
        SpecExpr::FunctionCall(callee, args, is_tail, _is_self) => {
            let n = args.len() as usize;
            let i1 = if is_tail && m.frames.len() > 1 {
                m.instrs.push(SpecInstr::TailEvalCall(n))
            } else {
                m.instrs.push(SpecInstr::EvalCall(n))
            };
            let i2 = i1.push(SpecInstr::EvalAndPush(*callee));
            SpecStep::Next(
                SpecMachine { instrs: spec_queue_args(i2, args), values: m.values, frames: m.frames },
            )
        },
    }
}

/// One step of the machine: the topmost work-list item is dequeued and
/// performed.
pub open spec fn spec_step(m: SpecMachine, env: Map<Seq<char>, SpecVal>) -> SpecStep {
    if m.instrs.len() == 0 {
        SpecStep::Fail(SpecError::Internal)
    } else {
        let rest = SpecMachine {
            instrs: m.instrs.drop_last(),
            values: m.values,
            frames: m.frames,
        };
        match m.instrs.last() {
            SpecInstr::EvalAndPush(e) => spec_step_eval(e, rest, env),
            SpecInstr::EvalCall(n) => if rest.values.len() == 0 {
                SpecStep::Fail(SpecError::Internal)
            } else {
                spec_apply_function(
                    rest.values.last(),
                    n,
                    SpecMachine {
                        instrs: rest.instrs,
                        values: rest.values.drop_last(),
                        frames: rest.frames,
                    },
                )
            },
            SpecInstr::TailEvalCall(n) => if rest.values.len() == 0 {
                SpecStep::Fail(SpecError::Internal)
            } else {
                spec_enter_tail_call(
                    rest.values.last(),
                    n,
                    SpecMachine {
                        instrs: rest.instrs,
                        values: rest.values.drop_last(),
                        frames: rest.frames,
                    },
                )
            },
            SpecInstr::PopCondPush(th, el) => if rest.values.len() == 0 {
                SpecStep::Fail(SpecError::Internal)
            } else {
                match rest.values.last() {
                    SpecVal::Bool(b) => SpecStep::Next(
                        SpecMachine {
                            instrs: rest.instrs.push(
                                SpecInstr::EvalAndPush(if b { th } else { el }),
                            ),
                            values: rest.values.drop_last(),
                            frames: rest.frames,
                        },
                    ),
                    _ => SpecStep::Fail(SpecError::ArgumentTypeMismatch),
                }
            },
            SpecInstr::ReturnFrame => if rest.frames.len() == 0 || rest.values.len() == 0 {
                SpecStep::Fail(SpecError::Internal)
            } else {
                let base = rest.frames.last();
                let val = rest.values.last();
                let below = rest.values.drop_last();
                let cut = if base <= below.len() {
                    below.take(base as int)
                } else {
                    below
                };
                SpecStep::Next(
                    SpecMachine {
                        instrs: rest.instrs,
                        values: cut.push(val),
                        frames: rest.frames.drop_last(),
                    },
                )
            },
        }
    }
}

/// Runs the machine for at most `fuel` steps. An empty work list yields
/// the single stacked value; a machine that is out of steps, or whose
/// value stack does not hold exactly one value at the end, yields the
/// internal error.
pub open spec fn spec_run_machine(
    m: SpecMachine,
    env: Map<Seq<char>, SpecVal>,
    fuel: nat,
) -> Result<SpecVal, SpecError>
    decreases fuel,
{
    if m.instrs.len() == 0 {
        if m.values.len() == 1 {
            Ok(m.values[0])
        } else {
            Err(SpecError::Internal)
        }
    } else if fuel == 0 {
        Err(SpecError::Internal)
    } else {
        match spec_step(m, env) {
            SpecStep::Next(m2) => spec_run_machine(m2, env, (fuel - 1) as nat),
            SpecStep::Fail(e) => Err(e),
        }
    }
}

/// A run that does not exhaust its budget is the run: enlarging the
/// step budget of a machine run that ended in anything but the internal
/// error does not change its outcome, so the evaluator's fixed budget is
/// canonical for every evaluation that completes within it.
pub proof fn lemma_run_machine_stable(
    m: SpecMachine,
    env: Map<Seq<char>, SpecVal>,
    fuel: nat,
    more: nat,
)
    requires
        fuel <= more,
        spec_run_machine(m, env, fuel) != Err::<SpecVal, SpecError>(SpecError::Internal),
    ensures
        spec_run_machine(m, env, more) == spec_run_machine(m, env, fuel),
    decreases fuel,
{
    if m.instrs.len() > 0 {
        match spec_step(m, env) {
            SpecStep::Next(m2) => {
                lemma_run_machine_stable(m2, env, (fuel - 1) as nat, (more - 1) as nat);
            },
            SpecStep::Fail(_) => {},
        }
    }
}

/// The machine configuration that starts the evaluation of one
/// finalized expression.
pub open spec fn spec_init_machine(e: SpecExpr) -> SpecMachine {
    SpecMachine {
        instrs: seq![SpecInstr::EvalAndPush(e)],
        values: Seq::empty(),
        frames: seq![0usize],
    }
}

/// The model of an evaluation outcome.
pub open spec fn spec_result_view(r: Result<LispValue, EvaluationError>) -> Result<
    SpecVal,
    SpecError,
> {
    match r {
        Ok(v) => Ok(value_view(v)),
        Err(e) => Err(e@),
    }
}

/// What evaluating a finalized expression against an environment
/// yields: the machine run from the initial configuration, with the
/// step budget the evaluator actually has.
pub open spec fn spec_eval_finalized(e: SpecExpr, env: Map<Seq<char>, SpecVal>) -> Result<
    SpecVal,
    SpecError,
> {
    spec_run_machine(spec_init_machine(e), env, u64::MAX as nat)
}

/// The model of one work-list item.
spec fn instr_view(i: Instr) -> SpecInstr {
    match i {
        Instr::EvalAndPush(e) => SpecInstr::EvalAndPush(crate::types::expr_view(e)),
        Instr::EvalCall(n) => SpecInstr::EvalCall(n),
        Instr::TailEvalCall(n) => SpecInstr::TailEvalCall(n),
        Instr::PopCondPush(th, el) => SpecInstr::PopCondPush(
            crate::types::expr_view(th),
            crate::types::expr_view(el),
        ),
        Instr::ReturnFrame => SpecInstr::ReturnFrame,
    }
}

spec fn instrs_view(s: Seq<Instr>) -> Seq<SpecInstr> {
    Seq::new(s.len(), |i: int| instr_view(s[i]))
}

proof fn lemma_instrs_view_push(s: Seq<Instr>, i: Instr)
    ensures
        instrs_view(s.push(i)) == instrs_view(s).push(instr_view(i)),
{
    assert(instrs_view(s.push(i)) =~= instrs_view(s).push(instr_view(i)));
}

proof fn lemma_instrs_view_drop_last(s: Seq<Instr>)
    requires
        s.len() > 0,
    ensures
        instrs_view(s.drop_last()) == instrs_view(s).drop_last(),
        instrs_view(s).last() == instr_view(s.last()),
{
    assert(instrs_view(s.drop_last()) =~= instrs_view(s).drop_last());
}

/// The model of the machine state the evaluator holds.
spec fn machine_view(instrs: Seq<Instr>, values: Seq<LispValue>, frames: Seq<usize>)
    -> SpecMachine {
    SpecMachine { instrs: instrs_view(instrs), values: values_view(values), frames }
}

/// Runs a primitive on the topmost `n_args` values, replacing them by
/// its result.
fn run_builtin(
    b: BuiltIn,
    n_args: usize,
    values: &mut Vec<LispValue>,
) -> (r: Result<(), EvaluationError>)
    ensures
        match spec_run_builtin(b, n_args, values_view(old(values)@)) {
            Ok(vs) => r matches Ok(()) && values_view(final(values)@) == vs,
            Err(k) => r matches Err(e) && e@ == k,
        },
{
    proof {
        lemma_values_view(values@);
    }
    if n_args > values.len() {
        return Err(EvaluationError::Internal);
    }
    let ghost pre = values@;
    let at = values.len() - n_args;
    let args = values.split_off(at);
    proof {
        lemma_values_view_subrange(pre, at as int, pre.len() as int);
        lemma_values_view_subrange(pre, 0, at as int);
        assert(values_view(args@) == values_view(pre).subrange(at as int, pre.len() as int));
        assert(values_view(pre).take(at as int) =~= values_view(pre).subrange(0, at as int));
    }
    match apply_builtin(&b, args) {
        Ok(v) => {
            let ghost cur = values@;
            values.push(v);
            proof {
                lemma_values_view_push(cur, v);
            }
            Ok(())
        },
        Err(e) => Err(e),
    }
}

/// Builds the continuation of a partial application and leaves it in
/// place of the supplied arguments (currying).
fn run_partial_application(
    f: crate::types::CustomFunc,
    arity: usize,
    n_args: usize,
    values: &mut Vec<LispValue>,
) -> (r: Result<(), EvaluationError>)
    requires
        n_args < arity,
        f@ is Custom,
        f@->Custom_0 == arity as nat,
    ensures
        match spec_run_partial(f@, n_args, values_view(old(values)@)) {
            Ok(vs) => r matches Ok(()) && values_view(final(values)@) == vs,
            Err(k) => r matches Err(e) && e@ == k,
        },
{
    proof {
        lemma_values_view(values@);
    }
    if n_args > values.len() {
        return Err(EvaluationError::Internal);
    }
    let ghost pre = values@;
    let at = values.len() - n_args;
    let supplied = values.split_off(at);
    proof {
        lemma_values_view_subrange(pre, at as int, pre.len() as int);
        lemma_values_view_subrange(pre, 0, at as int);
        assert(values_view(supplied@) == values_view(pre).subrange(at as int, pre.len() as int));
        assert(values_view(pre).take(at as int) =~= values_view(pre).subrange(0, at as int));
    }
    let cont = LispFunc::create_continuation(f, arity, n_args, supplied.as_slice());
    proof {
        assert(values_view(supplied@).take(n_args as int) =~= values_view(supplied@));
    }
    let ghost cur = values@;
    let wrapped = LispValue::Function(cont);
    values.push(wrapped);
    proof {
        lemma_values_view_push(cur, wrapped);
    }
    Ok(())
}

/// Applies a callee value to the `n_args` topmost values of the stack:
/// a primitive runs at once; a user function of matching arity has its
/// body queued in a fresh frame whose base is the start of the argument
/// region; undersupplied arguments build a continuation (currying);
/// oversupplied arguments, or none at all for a function that expects
/// some, are a count mismatch.
fn apply_function(
    callee: LispValue,
    n_args: usize,
    values: &mut Vec<LispValue>,
    instructions: &mut Vec<Instr>,
    frames: &mut Vec<usize>,
) -> (r: Result<(), EvaluationError>)
    ensures
        final(frames)@.len() + count_return_frames(old(instructions)@) == old(frames)@.len()
            + count_return_frames(final(instructions)@),
        ({
            let pre = machine_view(old(instructions)@, old(values)@, old(frames)@);
            let post = machine_view(final(instructions)@, final(values)@, final(frames)@);
            match spec_apply_function(callee@, n_args, pre) {
                SpecStep::Next(m2) => r matches Ok(()) && post == m2,
                SpecStep::Fail(k) => r matches Err(e) && e@ == k,
            }
        }),
{
    let ghost cv = value_view(callee);
    let ghost pre = machine_view(instructions@, values@, frames@);
    proof {
        lemma_values_view(values@);
    }
    match callee {
        LispValue::Function(LispFunc::BuiltIn(b)) => {
            let r = run_builtin(b, n_args, values);
            proof {
                assert(cv == SpecVal::Fun(SpecFun::BuiltIn(b)));
                if r is Ok {
                    assert(machine_view(instructions@, values@, frames@) =~= (match
                        spec_apply_function(cv, n_args, pre) {
                        SpecStep::Next(m2) => m2,
                        SpecStep::Fail(_) => pre,
                    }));
                }
            }
            r
        },
        LispValue::Function(LispFunc::Custom(f)) => {
            proof {
                assert(cv == SpecVal::Fun(
                    SpecFun::Custom(
                        f.0.arg_count as nat,
                        Box::new(crate::types::expr_view(f.0.body)),
                    ),
                ));
            }
            let arity = f.0.arg_count;
            if n_args == arity {
                if n_args > values.len() {
                    return Err(EvaluationError::Internal);
                }
                frames.push(values.len() - n_args);
                proof {
                    lemma_count_push(instructions@, Instr::ReturnFrame);
                    lemma_instrs_view_push(instructions@, Instr::ReturnFrame);
                }
                instructions.push(Instr::ReturnFrame);
                let body = clone_expr(&f.0.body);
                proof {
                    lemma_count_push(instructions@, Instr::EvalAndPush(body));
                    lemma_instrs_view_push(instructions@, Instr::EvalAndPush(body));
                }
                instructions.push(Instr::EvalAndPush(body));
                proof {
                    assert(machine_view(instructions@, values@, frames@) =~= (match
                        spec_apply_function(cv, n_args, pre) {
                        SpecStep::Next(m2) => m2,
                        SpecStep::Fail(_) => pre,
                    }));
                }
                Ok(())
            } else if 0 < n_args && n_args < arity {
                let r = run_partial_application(f, arity, n_args, values);
                proof {
                    if r is Ok {
                        assert(machine_view(instructions@, values@, frames@) =~= (match
                            spec_apply_function(cv, n_args, pre) {
                            SpecStep::Next(m2) => m2,
                            SpecStep::Fail(_) => pre,
                        }));
                    }
                }
                r
            } else {
                Err(EvaluationError::ArgumentCountMismatch)
            }
        },
        _ => Err(EvaluationError::NonFunctionApplication),
    }
}

/// Applies a callee in tail position: as `apply_function`, but a user
/// function of matching arity runs in the current frame — no frame is
/// pushed and no return is queued, so self-recursion through tail
/// positions runs without frame-stack growth.
fn apply_tail_function(
    callee: LispValue,
    n_args: usize,
    values: &mut Vec<LispValue>,
    instructions: &mut Vec<Instr>,
    frames: &Vec<usize>,
) -> (r: Result<(), EvaluationError>)
    ensures
        count_return_frames(final(instructions)@) == count_return_frames(old(instructions)@),
        ({
            let pre = machine_view(old(instructions)@, old(values)@, frames@);
            let post = machine_view(final(instructions)@, final(values)@, frames@);
            match spec_apply_tail_function(callee@, n_args, pre) {
                SpecStep::Next(m2) => r matches Ok(()) && post == m2,
                SpecStep::Fail(k) => r matches Err(e) && e@ == k,
            }
        }),
{
    let ghost cv = value_view(callee);
    let ghost pre = machine_view(instructions@, values@, frames@);
    proof {
        lemma_values_view(values@);
    }
    match callee {
        LispValue::Function(LispFunc::BuiltIn(b)) => {
            let r = run_builtin(b, n_args, values);
            proof {
                assert(cv == SpecVal::Fun(SpecFun::BuiltIn(b)));
                if r is Ok {
                    assert(machine_view(instructions@, values@, frames@) =~= (match
                        spec_apply_tail_function(cv, n_args, pre) {
                        SpecStep::Next(m2) => m2,
                        SpecStep::Fail(_) => pre,
                    }));
                }
            }
            r
        },
        LispValue::Function(LispFunc::Custom(f)) => {
            proof {
                assert(cv == SpecVal::Fun(
                    SpecFun::Custom(
                        f.0.arg_count as nat,
                        Box::new(crate::types::expr_view(f.0.body)),
                    ),
                ));
            }
            let arity = f.0.arg_count;
            if n_args == arity {
                let body = clone_expr(&f.0.body);
                proof {
                    lemma_count_push(instructions@, Instr::EvalAndPush(body));
                    lemma_instrs_view_push(instructions@, Instr::EvalAndPush(body));
                }
                instructions.push(Instr::EvalAndPush(body));
                proof {
                    assert(machine_view(instructions@, values@, frames@) =~= (match
                        spec_apply_tail_function(cv, n_args, pre) {
                        SpecStep::Next(m2) => m2,
                        SpecStep::Fail(_) => pre,
                    }));
                }
                Ok(())
            } else if 0 < n_args && n_args < arity {
                let r = run_partial_application(f, arity, n_args, values);
                proof {
                    if r is Ok {
                        assert(machine_view(instructions@, values@, frames@) =~= (match
                            spec_apply_tail_function(cv, n_args, pre) {
                            SpecStep::Next(m2) => m2,
                            SpecStep::Fail(_) => pre,
                        }));
                    }
                }
                r
            } else {
                Err(EvaluationError::ArgumentCountMismatch)
            }
        },
        _ => Err(EvaluationError::NonFunctionApplication),
    }
}

/// Moves the freshly evaluated argument region of a tail call down over
/// the current frame's argument region and applies the callee there.
///
/// The frame stack is only read: a tail call reuses the current frame,
/// so self-recursion through tail positions runs without frame-stack
/// growth.
fn enter_tail_call(
    callee: LispValue,
    n_args: usize,
    frames: &Vec<usize>,
    values: &mut Vec<LispValue>,
    instructions: &mut Vec<Instr>,
) -> (r: Result<(), EvaluationError>)
    ensures
        count_return_frames(final(instructions)@) == count_return_frames(old(instructions)@),
        ({
            let pre = machine_view(old(instructions)@, old(values)@, frames@);
            let post = machine_view(final(instructions)@, final(values)@, frames@);
            match spec_enter_tail_call(callee@, n_args, pre) {
                SpecStep::Next(m2) => r matches Ok(()) && post == m2,
                SpecStep::Fail(k) => r matches Err(e) && e@ == k,
            }
        }),
{
    let ghost pre = machine_view(instructions@, values@, frames@);
    proof {
        lemma_values_view(values@);
    }
    if frames.len() == 0 || n_args > values.len() {
        return Err(EvaluationError::Internal);
    }
    let base = frames[frames.len() - 1];
    if base > values.len() - n_args {
        return Err(EvaluationError::Internal);
    }
    let ghost vals0 = values@;
    let at = values.len() - n_args;
    let mut moved_args = values.split_off(at);
    let ghost movedv = moved_args@;
    values.truncate(base);
    let ghost kept = values@;
    values.append(&mut moved_args);
    proof {
        assert(kept =~= vals0.subrange(0, base as int));
        assert(movedv == vals0.subrange(at as int, vals0.len() as int));
        assert(values@ == kept + movedv);
        lemma_values_view_subrange(vals0, 0, base as int);
        lemma_values_view_subrange(vals0, at as int, vals0.len() as int);
        lemma_values_view_add(kept, movedv);
        assert(values_view(vals0).take(base as int) =~= values_view(vals0).subrange(
            0,
            base as int,
        ));
        assert(machine_view(instructions@, values@, frames@) =~= SpecMachine {
            instrs: pre.instrs,
            values: pre.values.take(base as int) + pre.values.subrange(
                pre.values.len() - n_args,
                pre.values.len() as int,
            ),
            frames: pre.frames,
        });
    }
    apply_tail_function(callee, n_args, values, instructions, frames)
}

/// Runs a finalized expression against the environment on a fresh value
/// stack and returns the single resulting value — exactly the outcome
/// `spec_eval_finalized` gives it, proved by running the work-list loop
/// in lockstep with `spec_step`.
///
/// Argument reads always clone their slot; the moveable marks computed
/// by the resolver are a permission, not an obligation. Throughout the
/// run the frame stack holds exactly one frame above the top-level one
/// per pending return, an invariant of the work-list loop; a tail call
/// queues no return and pushes no frame, so self-recursion through tail
/// positions runs without frame-stack growth.
#[verifier::rlimit(80)]
fn run_finalized(expr: FinalizedExpr, state: &State) -> (r: Result<LispValue, EvaluationError>)
    ensures
        spec_result_view(r) == spec_eval_finalized(expr@, state@),
{
    let ghost eview = crate::types::expr_view(expr);
    let ghost envv = state@;
    let mut values: Vec<LispValue> = Vec::new();
    let mut instructions: Vec<Instr> = Vec::new();
    let mut frames: Vec<usize> = Vec::new();
    frames.push(0);
    proof {
        lemma_count_push(Seq::<Instr>::empty(), Instr::EvalAndPush(expr));
    }
    instructions.push(Instr::EvalAndPush(expr));
    proof {
        assert(machine_view(instructions@, values@, frames@) =~= spec_init_machine(eview));
    }
    let mut fuel: u64 = u64::MAX;
    #[verifier::loop_isolation(false)]
    while instructions.len() > 0
        invariant
            frames@.len() == 1 + count_return_frames(instructions@),
            spec_eval_finalized(eview, envv) == spec_run_machine(
                machine_view(instructions@, values@, frames@),
                envv,
                fuel as nat,
            ),
        decreases fuel,
    {
        if fuel == 0 {
            return Err(EvaluationError::Internal);
        }
        let ghost fuel0 = fuel as nat;
        let ghost m0 = machine_view(instructions@, values@, frames@);
        fuel = fuel - 1;
        let ghost pre_pop = instructions@;
        let instr = match instructions.pop() {
            Some(x) => x,
            None => {
                return Err(EvaluationError::Internal);
            },
        };
        proof {
            assert(count_return_frames(pre_pop) == count_return_frames(instructions@)
                + (if instr is ReturnFrame { 1nat } else { 0nat }));
            lemma_instrs_view_drop_last(pre_pop);
            lemma_values_view(values@);
        }
        match instr {
            Instr::EvalAndPush(e) => match e {
                FinalizedExpr::Value(v) => {
                    let ghost vals0 = values@;
                    values.push(v);
                    proof {
                        lemma_values_view_push(vals0, v);
                        let m1 = machine_view(instructions@, values@, frames@);
                        assert(spec_step(m0, envv)->Next_0 =~= m1);
                        assert(spec_run_machine(m0, envv, fuel0) == spec_run_machine(
                            m1,
                            envv,
                            fuel as nat,
                        ));
                    }
                },
                FinalizedExpr::Variable(n) => {
                    let ghost nv = n@;
                    match state.get_variable_value(n.as_str()) {
                        Some(v) => {
                            let ghost vals0 = values@;
                            values.push(v);
                            proof {
                                lemma_values_view_push(vals0, v);
                                let m1 = machine_view(instructions@, values@, frames@);
                                assert(spec_step(m0, envv)->Next_0 =~= m1);
                                assert(spec_run_machine(m0, envv, fuel0) == spec_run_machine(
                                    m1,
                                    envv,
                                    fuel as nat,
                                ));
                            }
                        },
                        None => {
                            proof {
                                assert(spec_step(m0, envv) == SpecStep::Fail(
                                    SpecError::UnknownVariable(nv),
                                ));
                            }
                            return Err(EvaluationError::UnknownVariable(n));
                        },
                    }
                },
                FinalizedExpr::Argument(offset, _scope, _moveable) => {
                    let base = frames[frames.len() - 1];
                    if offset >= values.len() || base > values.len() - 1 - offset {
                        proof {
                            assert(spec_step(m0, envv) == SpecStep::Fail(SpecError::Internal));
                        }
                        return Err(EvaluationError::Internal);
                    }
                    let v = clone_value(&values[base + offset]);
                    let ghost vals0 = values@;
                    values.push(v);
                    proof {
                        lemma_values_view_push(vals0, v);
                        let m1 = machine_view(instructions@, values@, frames@);
                        assert(spec_step(m0, envv)->Next_0 =~= m1);
                        assert(spec_run_machine(m0, envv, fuel0) == spec_run_machine(
                            m1,
                            envv,
                            fuel as nat,
                        ));
                    }
                },
                FinalizedExpr::Lambda(arity, scope_level, body) => {
                    let base = frames[frames.len() - 1];
                    if base > values.len() {
                        proof {
                            assert(spec_step(m0, envv) == SpecStep::Fail(SpecError::Internal));
                        }
                        return Err(EvaluationError::Internal);
                    }
                    let mut frame_args: Vec<LispValue> = Vec::new();
                    let mut j = base;
                    while j < values.len()
                        invariant
                            base <= j,
                            j <= values@.len(),
                            frame_args@.len() == j - base,
                            forall|k: int| 0 <= k < frame_args@.len() ==> value_view(
                                frame_args@[k],
                            ) == value_view(values@[base + k]),
                        decreases values@.len() - j,
                    {
                        frame_args.push(clone_value(&values[j]));
                        j += 1;
                    }
                    proof {
                        lemma_values_view(frame_args@);
                        lemma_values_view_subrange(values@, base as int, values@.len() as int);
                        assert(values_view(frame_args@) =~= values_view(values@).subrange(
                            base as int,
                            values@.len() as int,
                        ));
                    }
                    if !body.check_args_bounded(scope_level, frame_args.len()) {
                        proof {
                            assert(spec_step(m0, envv) == SpecStep::Fail(SpecError::Internal));
                        }
                        return Err(EvaluationError::Internal);
                    }
                    let closed_body = body.replace_args(scope_level, frame_args.as_slice());
                    let closure = LispValue::Function(LispFunc::new_custom(arity, closed_body));
                    let ghost vals0 = values@;
                    values.push(closure);
                    proof {
                        lemma_values_view_push(vals0, closure);
                        let m1 = machine_view(instructions@, values@, frames@);
                        assert(spec_step(m0, envv)->Next_0 =~= m1);
                        assert(spec_run_machine(m0, envv, fuel0) == spec_run_machine(
                            m1,
                            envv,
                            fuel as nat,
                        ));
                    }
                },
                FinalizedExpr::Cond(test, th, el) => {
                    proof {
                        lemma_count_push(instructions@, Instr::PopCondPush(*th, *el));
                        lemma_instrs_view_push(instructions@, Instr::PopCondPush(*th, *el));
                    }
                    instructions.push(Instr::PopCondPush(*th, *el));
                    proof {
                        lemma_count_push(instructions@, Instr::EvalAndPush(*test));
                        lemma_instrs_view_push(instructions@, Instr::EvalAndPush(*test));
                    }
                    instructions.push(Instr::EvalAndPush(*test));
                    proof {
                        let m1 = machine_view(instructions@, values@, frames@);
                        assert(spec_step(m0, envv)->Next_0 =~= m1);
                        assert(spec_run_machine(m0, envv, fuel0) == spec_run_machine(
                            m1,
                            envv,
                            fuel as nat,
                        ));
                    }
                },
                FinalizedExpr::FunctionCall(callee_expr, args, is_tail, _is_self) => {
                    let ghost args0v = crate::types::exprs_view_from(args@, 0);
                    proof {
                        crate::types::lemma_exprs_view_from(args@, 0);
                    }
                    let n_args = args.len();
                    if is_tail && frames.len() > 1 {
                        proof {
                            lemma_count_push(instructions@, Instr::TailEvalCall(n_args));
                            lemma_instrs_view_push(instructions@, Instr::TailEvalCall(n_args));
                        }
                        instructions.push(Instr::TailEvalCall(n_args));
                    } else {
                        proof {
                            lemma_count_push(instructions@, Instr::EvalCall(n_args));
                            lemma_instrs_view_push(instructions@, Instr::EvalCall(n_args));
                        }
                        instructions.push(Instr::EvalCall(n_args));
                    }
                    proof {
                        lemma_count_push(instructions@, Instr::EvalAndPush(*callee_expr));
                        lemma_instrs_view_push(instructions@, Instr::EvalAndPush(*callee_expr));
                    }
                    instructions.push(Instr::EvalAndPush(*callee_expr));
                    let ghost i2v = instrs_view(instructions@);
                    let mut args = args;
                    #[verifier::loop_isolation(false)]
                    while args.len() > 0
                        invariant
                            frames@.len() == 1 + count_return_frames(instructions@),
                            spec_queue_args(
                                instrs_view(instructions@),
                                crate::types::exprs_view_from(args@, 0),
                            ) == spec_queue_args(i2v, args0v),
                        decreases args@.len(),
                    {
                        let ghost argsv_pre = crate::types::exprs_view_from(args@, 0);
                        proof {
                            crate::types::lemma_exprs_view_from(args@, 0);
                        }
                        match args.pop() {
                            Some(a) => {
                                proof {
                                    lemma_count_push(instructions@, Instr::EvalAndPush(a));
                                    lemma_instrs_view_push(instructions@, Instr::EvalAndPush(a));
                                    crate::types::lemma_exprs_view_from(args@, 0);
                                    assert(crate::types::exprs_view_from(args@, 0)
                                        =~= argsv_pre.drop_last());
                                    assert(crate::types::expr_view(a) == argsv_pre.last());
                                }
                                instructions.push(Instr::EvalAndPush(a));
                            },
                            None => {},
                        }
                    }
                    proof {
                        assert(crate::types::exprs_view_from(args@, 0) =~= Seq::<
                            SpecExpr,
                        >::empty());
                        assert(instrs_view(instructions@) == spec_queue_args(i2v, args0v));
                        let m1 = machine_view(instructions@, values@, frames@);
                        assert(spec_step(m0, envv)->Next_0 =~= m1);
                        assert(spec_run_machine(m0, envv, fuel0) == spec_run_machine(
                            m1,
                            envv,
                            fuel as nat,
                        ));
                    }
                },
            },
            Instr::EvalCall(n_args) => {
                let ghost vals0 = values@;
                let callee = match values.pop() {
                    Some(v) => v,
                    None => {
                        proof {
                            assert(spec_step(m0, envv) == SpecStep::Fail(SpecError::Internal));
                        }
                        return Err(EvaluationError::Internal);
                    },
                };
                proof {
                    lemma_values_view_subrange(vals0, 0, vals0.len() - 1);
                    assert(values_view(values@) =~= values_view(vals0).drop_last());
                    assert(value_view(callee) == values_view(vals0).last());
                    assert(spec_step(m0, envv) == spec_apply_function(
                        value_view(callee),
                        n_args,
                        machine_view(instructions@, values@, frames@),
                    ));
                }
                match apply_function(
                    callee,
                    n_args,
                    &mut values,
                    &mut instructions,
                    &mut frames,
                ) {
                    Ok(()) => {
                        proof {
                            let m1 = machine_view(instructions@, values@, frames@);
                            assert(spec_step(m0, envv)->Next_0 == m1);
                            assert(spec_run_machine(m0, envv, fuel0) == spec_run_machine(
                                m1,
                                envv,
                                fuel as nat,
                            ));
                        }
                    },
                    Err(e) => {
                        return Err(e);
                    },
                }
            },
            Instr::TailEvalCall(n_args) => {
                let ghost vals0 = values@;
                let callee = match values.pop() {
                    Some(v) => v,
                    None => {
                        proof {
                            assert(spec_step(m0, envv) == SpecStep::Fail(SpecError::Internal));
                        }
                        return Err(EvaluationError::Internal);
                    },
                };
                proof {
                    lemma_values_view_subrange(vals0, 0, vals0.len() - 1);
                    assert(values_view(values@) =~= values_view(vals0).drop_last());
                    assert(value_view(callee) == values_view(vals0).last());
                    assert(spec_step(m0, envv) == spec_enter_tail_call(
                        value_view(callee),
                        n_args,
                        machine_view(instructions@, values@, frames@),
                    ));
                }
                match enter_tail_call(callee, n_args, &frames, &mut values, &mut instructions) {
                    Ok(()) => {
                        proof {
                            let m1 = machine_view(instructions@, values@, frames@);
                            assert(spec_step(m0, envv)->Next_0 == m1);
                            assert(spec_run_machine(m0, envv, fuel0) == spec_run_machine(
                                m1,
                                envv,
                                fuel as nat,
                            ));
                        }
                    },
                    Err(e) => {
                        return Err(e);
                    },
                }
            },
            Instr::PopCondPush(th, el) => {
                let ghost thv = crate::types::expr_view(th);
                let ghost elv = crate::types::expr_view(el);
                let ghost vals0 = values@;
                match values.pop() {
                    Some(LispValue::Boolean(b)) => {
                        proof {
                            lemma_values_view_subrange(vals0, 0, vals0.len() - 1);
                            assert(values_view(values@) =~= values_view(vals0).drop_last());
                            assert(values_view(vals0).last() == SpecVal::Bool(b));
                        }
                        let branch = if b { th } else { el };
                        proof {
                            lemma_count_push(instructions@, Instr::EvalAndPush(branch));
                            lemma_instrs_view_push(instructions@, Instr::EvalAndPush(branch));
                        }
                        instructions.push(Instr::EvalAndPush(branch));
                        proof {
                            let m1 = machine_view(instructions@, values@, frames@);
                            assert(spec_step(m0, envv)->Next_0 =~= m1);
                            assert(spec_run_machine(m0, envv, fuel0) == spec_run_machine(
                                m1,
                                envv,
                                fuel as nat,
                            ));
                        }
                    },
                    Some(other) => {
                        proof {
                            assert(values_view(vals0).last() == value_view(other));
                            assert(spec_step(m0, envv) == SpecStep::Fail(
                                SpecError::ArgumentTypeMismatch,
                            ));
                        }
                        return Err(EvaluationError::ArgumentTypeMismatch);
                    },
                    None => {
                        proof {
                            assert(spec_step(m0, envv) == SpecStep::Fail(SpecError::Internal));
                        }
                        return Err(EvaluationError::Internal);
                    },
                }
            },
            Instr::ReturnFrame => {
                let base = frames.pop().unwrap();
                let ghost vals0 = values@;
                let val = match values.pop() {
                    Some(v) => v,
                    None => {
                        proof {
                            assert(spec_step(m0, envv) == SpecStep::Fail(SpecError::Internal));
                        }
                        return Err(EvaluationError::Internal);
                    },
                };
                proof {
                    lemma_values_view_subrange(vals0, 0, vals0.len() - 1);
                    assert(values_view(values@) =~= values_view(vals0).drop_last());
                    assert(value_view(val) == values_view(vals0).last());
                }
                let ghost below = values@;
                values.truncate(base);
                proof {
                    if base <= below.len() {
                        lemma_values_view_subrange(below, 0, base as int);
                        assert(values@ =~= below.subrange(0, base as int));
                        assert(values_view(values@) =~= values_view(below).take(base as int));
                    }
                }
                let ghost cutv = values@;
                values.push(val);
                proof {
                    lemma_values_view_push(cutv, val);
                    let m1 = machine_view(instructions@, values@, frames@);
                    assert(spec_step(m0, envv)->Next_0 =~= m1);
                    assert(spec_run_machine(m0, envv, fuel0) == spec_run_machine(
                        m1,
                        envv,
                        fuel as nat,
                    ));
                }
            },
        }
    }
    proof {
        assert(count_return_frames(instructions@) == 0);
        assert(frames@.len() == 1);
        lemma_values_view(values@);
    }
    if values.len() != 1 {
        return Err(EvaluationError::Internal);
    }
    Ok(values.pop().unwrap())
}

/// Evaluates one top-level source expression against the environment.
///
/// The expression is classified, resolved to the finalized
/// representation, and run by the stack machine, whose outcome is the
/// one `spec_eval_finalized` gives the resolved expression. A
/// definition binds its name to exactly the value its body evaluates to
/// and yields the empty list; redefining a bound name is a `BadDefine`
/// and leaves the environment as it was. The environment changes only
/// through a successful definition.
pub fn eval(expr: LispExpr, init_state: &mut State) -> (r: Result<LispValue, EvaluationError>)
    ensures
        match spec_classify(expr@) {
            SpecTop::Malformed => r matches Err(e) && e@ == SpecError::BadDefine
                && final(init_state)@ == old(init_state)@,
            SpecTop::Define(name, def) => {
                if old(init_state)@.contains_key(name) {
                    r matches Err(e) && e@ == SpecError::BadDefine
                        && final(init_state)@ == old(init_state)@
                } else {
                    match spec_finalize(def, 0, spec_empty_args(), true, Some(name)) {
                        Err(k) => r matches Err(e) && e@ == k
                            && final(init_state)@ == old(init_state)@,
                        Ok(p) => match spec_eval_finalized(p.0, old(init_state)@) {
                            Ok(w) => r matches Ok(v) && v@ == SpecVal::List(Seq::empty())
                                && final(init_state)@ == old(init_state)@.insert(name, w),
                            Err(k) => r matches Err(e) && e@ == k
                                && final(init_state)@ == old(init_state)@,
                        },
                    }
                }
            },
            SpecTop::Regular => final(init_state)@ == old(init_state)@ && match spec_finalize(
                expr@,
                0,
                spec_empty_args(),
                true,
                None,
            ) {
                Err(k) => r matches Err(e) && e@ == k,
                Ok(p) => spec_result_view(r) == spec_eval_finalized(p.0, old(init_state)@),
            },
        },
{
    match expr.into_top_expr(init_state) {
        Err(e) => Err(e),
        Ok(TopExpr::Regular(fe)) => run_finalized(fe, init_state),
        Ok(TopExpr::Define(name, def)) => {
            if init_state.is_bound(name.as_str()) {
                return Err(EvaluationError::BadDefine);
            }
            let mut fresh_args = ArgumentsMap::new();
            let finalized = match def.finalize(
                0,
                &mut fresh_args,
                init_state,
                true,
                Some(name.as_str()),
            ) {
                Ok(fe) => fe,
                Err(e) => {
                    return Err(e);
                },
            };
            match run_finalized(finalized, init_state) {
                Ok(v) => {
                    init_state.set_variable(name.as_str(), v);
                    Ok(LispValue::List(Vec::new()))
                },
                Err(e) => Err(e),
            }
        },
    }
}

} // verus!
