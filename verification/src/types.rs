//! The value domain, source expressions, finalized intermediate
//! representation, and the error taxonomy, together with the mathematical
//! models that the contracts of the interpreter are stated over.

use vstd::prelude::*;
use std::rc::Rc;

verus! {

broadcast use vstd::std_specs::vec::group_vec_axioms, vstd::seq::group_seq_axioms;

/// The dynamic type of a runtime value, as reported by the type-testing
/// primitives.
#[derive(Debug, Clone, Copy, PartialEq, Eq, Structural)]
pub enum ArgType {
    Integer,
    Boolean,
    Function,
    List,
}

/// The primitive operations of the runtime, invoked by name.
#[derive(Debug, Clone, Copy, PartialEq, Eq, Structural)]
pub enum BuiltIn {
    AddOne,
    SubOne,
    Cons,
    Cdr,
    Car,
    List,
    CheckZero,
    CheckNull,
    CheckType(ArgType),
}

/// The three special forms recognized by the resolver.
#[derive(Debug, Clone, Copy, PartialEq, Eq, Structural)]
pub enum LispMacro {
    Define,
    Cond,
    Lambda,
}

/// The body and arity of a user-defined function, shared by reference.
#[derive(Debug)]
pub struct InnerCustomFunc {
    pub arg_count: usize,
    pub body: FinalizedExpr,
}

/// A user-defined function. Custom functions are immutable after
/// construction and shared by reference.
#[derive(Debug)]
pub struct CustomFunc(pub Rc<InnerCustomFunc>);

/// A function value: either a primitive operation or a user-defined
/// function.
#[derive(Debug)]
pub enum LispFunc {
    BuiltIn(BuiltIn),
    Custom(CustomFunc),
}

/// A runtime value.
#[derive(Debug)]
pub enum LispValue {
    Boolean(bool),
    Integer(u64),
    Function(LispFunc),
    List(Vec<LispValue>),
}

/// A source expression, as handed to the interpreter by a front-end reader.
#[derive(Debug)]
pub enum LispExpr {
    Macro(LispMacro),
    Value(LispValue),
    OpVar(String),
    Call(Vec<LispExpr>),
}

/// The finalized intermediate representation produced by the resolver.
///
/// `Argument(offset, scope_level, moveable)` refers to the `offset`-th
/// argument of the enclosing lambda at lexical depth `scope_level`;
/// `moveable` marks the last observable use of that slot.
/// `FunctionCall(callee, args, is_tail, is_self)` carries the two static
/// flags computed by the resolver.
#[derive(Debug)]
pub enum FinalizedExpr {
    Lambda(usize, usize, Box<FinalizedExpr>),
    Cond(Box<FinalizedExpr>, Box<FinalizedExpr>, Box<FinalizedExpr>),
    Variable(String),
    Value(LispValue),
    Argument(usize, usize, bool),
    FunctionCall(Box<FinalizedExpr>, Vec<FinalizedExpr>, bool, bool),
}

/// A classified top-level expression: either a definition intent or a
/// regular expression already lowered to the finalized representation.
#[derive(Debug)]
pub enum TopExpr {
    Define(String, LispExpr),
    Regular(FinalizedExpr),
}

/// The error taxonomy shared by the resolver and the evaluator.
///
/// `Internal` reports a broken machine invariant or an exhausted step
/// budget, mirrored as such by the machine's model.
#[derive(Debug, PartialEq, Eq)]
pub enum EvaluationError {
    UnexpectedOperator,
    ArgumentCountMismatch,
    ArgumentTypeMismatch,
    EmptyListEvaluation,
    NonFunctionApplication,
    SubZero,
    EmptyList,
    UnknownVariable(String),
    MalformedDefinition,
    BadDefine,
    Internal,
}

/// The mathematical model of a runtime value.
#[verifier::ext_equal]
pub enum SpecVal {
    Bool(bool),
    Int(u64),
    Fun(SpecFun),
    List(Seq<SpecVal>),
}

/// The mathematical model of a function value.
#[verifier::ext_equal]
pub enum SpecFun {
    BuiltIn(BuiltIn),
    Custom(nat, Box<SpecExpr>),
}

/// The mathematical model of a finalized expression.
#[verifier::ext_equal]
pub enum SpecExpr {
    Lambda(nat, nat, Box<SpecExpr>),
    Cond(Box<SpecExpr>, Box<SpecExpr>, Box<SpecExpr>),
    Variable(Seq<char>),
    Value(SpecVal),
    Argument(nat, nat, bool),
    FunctionCall(Box<SpecExpr>, Seq<SpecExpr>, bool, bool),
}

/// The mathematical model of a source expression.
#[verifier::ext_equal]
pub enum SpecSrc {
    Macro(LispMacro),
    Value(SpecVal),
    OpVar(Seq<char>),
    Call(Seq<SpecSrc>),
}

/// The mathematical model of an evaluation error.
pub enum SpecError {
    UnexpectedOperator,
    ArgumentCountMismatch,
    ArgumentTypeMismatch,
    EmptyListEvaluation,
    NonFunctionApplication,
    SubZero,
    EmptyList,
    UnknownVariable(Seq<char>),
    MalformedDefinition,
    BadDefine,
    Internal,
}

pub open spec fn value_view(v: LispValue) -> SpecVal
    decreases v, 1int, 0int,
{
    match v {
        LispValue::Boolean(b) => SpecVal::Bool(b),
        LispValue::Integer(i) => SpecVal::Int(i),
        LispValue::Function(f) => SpecVal::Fun(func_view(f)),
        LispValue::List(vs) => SpecVal::List(values_view_from(vs@, 0)),
    }
}

pub open spec fn values_view_from(s: Seq<LispValue>, i: int) -> Seq<SpecVal>
    decreases s, 0int, s.len() - i,
{
    if i < 0 || i >= s.len() {
        Seq::empty()
    } else {
        seq![value_view(s[i])] + values_view_from(s, i + 1)
    }
}

pub open spec fn func_view(f: LispFunc) -> SpecFun
    decreases f, 1int, 0int,
{
    match f {
        LispFunc::BuiltIn(b) => SpecFun::BuiltIn(b),
        LispFunc::Custom(c) => SpecFun::Custom(
            (*c.0).arg_count as nat,
            Box::new(expr_view((*c.0).body)),
        ),
    }
}

pub open spec fn expr_view(e: FinalizedExpr) -> SpecExpr
    decreases e, 1int, 0int,
{
    match e {
        FinalizedExpr::Lambda(arg_c, scope, body) => SpecExpr::Lambda(
            arg_c as nat,
            scope as nat,
            Box::new(expr_view(*body)),
        ),
        FinalizedExpr::Cond(test, th, el) => SpecExpr::Cond(
            Box::new(expr_view(*test)),
            Box::new(expr_view(*th)),
            Box::new(expr_view(*el)),
        ),
        FinalizedExpr::Variable(n) => SpecExpr::Variable(n@),
        FinalizedExpr::Value(v) => SpecExpr::Value(value_view(v)),
        FinalizedExpr::Argument(offset, scope, moveable) => SpecExpr::Argument(
            offset as nat,
            scope as nat,
            moveable,
        ),
        FinalizedExpr::FunctionCall(callee, args, is_tail, is_self) => SpecExpr::FunctionCall(
            Box::new(expr_view(*callee)),
            exprs_view_from(args@, 0),
            is_tail,
            is_self,
        ),
    }
}

pub open spec fn exprs_view_from(s: Seq<FinalizedExpr>, i: int) -> Seq<SpecExpr>
    decreases s, 0int, s.len() - i,
{
    if i < 0 || i >= s.len() {
        Seq::empty()
    } else {
        seq![expr_view(s[i])] + exprs_view_from(s, i + 1)
    }
}

pub open spec fn src_view(e: LispExpr) -> SpecSrc
    decreases e, 1int, 0int,
{
    match e {
        LispExpr::Macro(m) => SpecSrc::Macro(m),
        LispExpr::Value(v) => SpecSrc::Value(value_view(v)),
        LispExpr::OpVar(n) => SpecSrc::OpVar(n@),
        LispExpr::Call(items) => SpecSrc::Call(srcs_view_from(items@, 0)),
    }
}

pub open spec fn srcs_view_from(s: Seq<LispExpr>, i: int) -> Seq<SpecSrc>
    decreases s, 0int, s.len() - i,
{
    if i < 0 || i >= s.len() {
        Seq::empty()
    } else {
        seq![src_view(s[i])] + srcs_view_from(s, i + 1)
    }
}

impl View for LispValue {
    type V = SpecVal;

    open spec fn view(&self) -> SpecVal {
        value_view(*self)
    }
}

impl View for LispFunc {
    type V = SpecFun;

    open spec fn view(&self) -> SpecFun {
        func_view(*self)
    }
}

impl View for CustomFunc {
    type V = SpecFun;

    open spec fn view(&self) -> SpecFun {
        SpecFun::Custom((*self.0).arg_count as nat, Box::new(expr_view((*self.0).body)))
    }
}

impl View for FinalizedExpr {
    type V = SpecExpr;

    open spec fn view(&self) -> SpecExpr {
        expr_view(*self)
    }
}

impl View for LispExpr {
    type V = SpecSrc;

    open spec fn view(&self) -> SpecSrc {
        src_view(*self)
    }
}

impl View for EvaluationError {
    type V = SpecError;

    open spec fn view(&self) -> SpecError {
        match *self {
            EvaluationError::UnexpectedOperator => SpecError::UnexpectedOperator,
            EvaluationError::ArgumentCountMismatch => SpecError::ArgumentCountMismatch,
            EvaluationError::ArgumentTypeMismatch => SpecError::ArgumentTypeMismatch,
            EvaluationError::EmptyListEvaluation => SpecError::EmptyListEvaluation,
            EvaluationError::NonFunctionApplication => SpecError::NonFunctionApplication,
            EvaluationError::SubZero => SpecError::SubZero,
            EvaluationError::EmptyList => SpecError::EmptyList,
            EvaluationError::UnknownVariable(ref n) => SpecError::UnknownVariable(n@),
            EvaluationError::MalformedDefinition => SpecError::MalformedDefinition,
            EvaluationError::BadDefine => SpecError::BadDefine,
            EvaluationError::Internal => SpecError::Internal,
        }
    }
}

/// The models of a sequence of runtime values, element by element.
pub open spec fn values_view(s: Seq<LispValue>) -> Seq<SpecVal> {
    values_view_from(s, 0)
}

pub proof fn lemma_values_view(s: Seq<LispValue>)
    ensures
        values_view(s).len() == s.len(),
        forall|j: int| 0 <= j < s.len() ==> values_view(s)[j] == value_view(s[j]),
{
    lemma_values_view_from(s, 0);
}

/// The model of a pushed sequence is the model with the new element's
/// model pushed.
pub proof fn lemma_values_view_push(s: Seq<LispValue>, v: LispValue)
    ensures
        values_view(s.push(v)) == values_view(s).push(value_view(v)),
{
    lemma_values_view(s);
    lemma_values_view(s.push(v));
    assert(values_view(s.push(v)) =~= values_view(s).push(value_view(v)));
}

/// Taking a subrange commutes with taking the model.
pub proof fn lemma_values_view_subrange(s: Seq<LispValue>, a: int, b: int)
    requires
        0 <= a <= b <= s.len(),
    ensures
        values_view(s.subrange(a, b)) == values_view(s).subrange(a, b),
{
    lemma_values_view(s);
    lemma_values_view(s.subrange(a, b));
    assert(values_view(s.subrange(a, b)) =~= values_view(s).subrange(a, b));
}

/// Concatenation commutes with taking the model.
pub proof fn lemma_values_view_add(a: Seq<LispValue>, b: Seq<LispValue>)
    ensures
        values_view(a + b) == values_view(a) + values_view(b),
{
    lemma_values_view(a);
    lemma_values_view(b);
    lemma_values_view(a + b);
    assert(values_view(a + b) =~= values_view(a) + values_view(b));
}

pub proof fn lemma_values_view_from(s: Seq<LispValue>, i: int)
    requires
        0 <= i <= s.len(),
    ensures
        values_view_from(s, i).len() == s.len() - i,
        forall|j: int| 0 <= j < s.len() - i ==> values_view_from(s, i)[j] == value_view(s[i + j]),
    decreases s.len() - i,
{
    if i < s.len() {
        lemma_values_view_from(s, i + 1);
    }
}

pub proof fn lemma_exprs_view_from(s: Seq<FinalizedExpr>, i: int)
    requires
        0 <= i <= s.len(),
    ensures
        exprs_view_from(s, i).len() == s.len() - i,
        forall|j: int| 0 <= j < s.len() - i ==> exprs_view_from(s, i)[j] == expr_view(s[i + j]),
    decreases s.len() - i,
{
    if i < s.len() {
        lemma_exprs_view_from(s, i + 1);
    }
}

pub proof fn lemma_srcs_view_from(s: Seq<LispExpr>, i: int)
    requires
        0 <= i <= s.len(),
    ensures
        srcs_view_from(s, i).len() == s.len() - i,
        forall|j: int| 0 <= j < s.len() - i ==> srcs_view_from(s, i)[j] == src_view(s[i + j]),
    decreases s.len() - i,
{
    if i < s.len() {
        lemma_srcs_view_from(s, i + 1);
    }
}

/// Clones a runtime value; the clone has the same mathematical model.
pub fn clone_value(v: &LispValue) -> (r: LispValue)
    ensures
        r@ == v@,
    decreases v,
{
    match v {
        LispValue::Boolean(b) => LispValue::Boolean(*b),
        LispValue::Integer(i) => LispValue::Integer(*i),
        LispValue::Function(f) => LispValue::Function(clone_func(f)),
        LispValue::List(vs) => {
            let n = vs.len();
            let mut out: Vec<LispValue> = Vec::new();
            let mut i: usize = 0;
            #[verifier::loop_isolation(false)]
            while i < n
                invariant
                    i <= n,
                    out@.len() == i,
                    forall|j: int| 0 <= j < i ==> value_view(out@[j]) == value_view(vs@[j]),
                decreases n - i,
            {
                out.push(clone_value(&vs[i]));
                i += 1;
            }
            proof {
                lemma_values_view_from(vs@, 0);
                lemma_values_view_from(out@, 0);
                assert(values_view_from(out@, 0) =~= values_view_from(vs@, 0));
            }
            LispValue::List(out)
        },
    }
}

/// Clones a function value; the clone has the same mathematical model.
/// A user-defined function is shared by reference, so its body is not
/// copied.
pub fn clone_func(f: &LispFunc) -> (r: LispFunc)
    ensures
        r@ == f@,
    decreases f,
{
    match f {
        LispFunc::BuiltIn(b) => LispFunc::BuiltIn(*b),
        LispFunc::Custom(c) => LispFunc::Custom(CustomFunc(c.0.clone())),
    }
}

/// Clones a finalized expression; the clone has the same mathematical
/// model.
pub fn clone_expr(e: &FinalizedExpr) -> (r: FinalizedExpr)
    ensures
        r@ == e@,
    decreases e,
{
    match e {
        FinalizedExpr::Lambda(arg_c, scope, body) => FinalizedExpr::Lambda(
            *arg_c,
            *scope,
            Box::new(clone_expr(body)),
        ),
        FinalizedExpr::Cond(test, th, el) => FinalizedExpr::Cond(
            Box::new(clone_expr(test)),
            Box::new(clone_expr(th)),
            Box::new(clone_expr(el)),
        ),
        FinalizedExpr::Variable(n) => FinalizedExpr::Variable(n.clone()),
        FinalizedExpr::Value(v) => FinalizedExpr::Value(clone_value(v)),
        FinalizedExpr::Argument(offset, scope, moveable) => FinalizedExpr::Argument(
            *offset,
            *scope,
            *moveable,
        ),
        FinalizedExpr::FunctionCall(callee, args, is_tail, is_self) => {
            let n = args.len();
            let mut out: Vec<FinalizedExpr> = Vec::new();
            let mut i: usize = 0;
            #[verifier::loop_isolation(false)]
            while i < n
                invariant
                    i <= n,
                    out@.len() == i,
                    forall|j: int| 0 <= j < i ==> expr_view(out@[j]) == expr_view(args@[j]),
                decreases n - i,
            {
                out.push(clone_expr(&args[i]));
                i += 1;
            }
            proof {
                lemma_exprs_view_from(args@, 0);
                lemma_exprs_view_from(out@, 0);
                assert(exprs_view_from(out@, 0) =~= exprs_view_from(args@, 0));
            }
            FinalizedExpr::FunctionCall(
                Box::new(clone_expr(callee)),
                out,
                *is_tail,
                *is_self,
            )
        },
    }
}

impl Clone for LispValue {
    fn clone(&self) -> (r: Self)
        ensures
            r@ == self@,
    {
        clone_value(self)
    }
}

impl Clone for LispFunc {
    fn clone(&self) -> (r: Self)
        ensures
            r@ == self@,
    {
        clone_func(self)
    }
}

impl Clone for CustomFunc {
    fn clone(&self) -> (r: Self)
        ensures
            r@ == self@,
    {
        CustomFunc(self.0.clone())
    }
}

impl Clone for FinalizedExpr {
    fn clone(&self) -> (r: Self)
        ensures
            r@ == self@,
    {
        clone_expr(self)
    }
}

impl LispFunc {
    /// Wraps an arity and a finalized body as a fresh user-defined
    /// function value.
    pub fn new_custom(arg_count: usize, body: FinalizedExpr) -> (r: LispFunc)
        ensures
            r@ == SpecFun::Custom(arg_count as nat, Box::new(body@)),
    {
        LispFunc::Custom(CustomFunc(Rc::new(InnerCustomFunc { arg_count, body })))
    }
}

/// Whether every argument reference below `scope` that the replace-args
/// pass would snapshot lies within a frame of `limit` slots.
pub open spec fn spec_args_bounded(e: SpecExpr, scope: nat, limit: nat) -> bool
    decreases e, 1int, 0int,
{
    match e {
        SpecExpr::Argument(offset, s, _moveable) => s < scope ==> offset < limit,
        SpecExpr::Lambda(_arg_c, _scope, body) => spec_args_bounded(*body, scope, limit),
        SpecExpr::Cond(test, th, el) => spec_args_bounded(*test, scope, limit)
            && spec_args_bounded(*th, scope, limit) && spec_args_bounded(*el, scope, limit),
        SpecExpr::FunctionCall(callee, args, _is_tail, _is_self) => spec_args_bounded(
            *callee,
            scope,
            limit,
        ) && spec_args_bounded_seq(args, 0, scope, limit),
        _ => true,
    }
}

pub open spec fn spec_args_bounded_seq(s: Seq<SpecExpr>, i: int, scope: nat, limit: nat) -> bool
    decreases s, 0int, s.len() - i,
{
    if i < 0 || i >= s.len() {
        true
    } else {
        spec_args_bounded(s[i], scope, limit) && spec_args_bounded_seq(s, i + 1, scope, limit)
    }
}

/// The body of a closure: `e` with every argument reference below `scope`
/// replaced by a snapshot of the corresponding slot of the enclosing
/// frame.
pub open spec fn spec_replace_args(e: SpecExpr, scope: nat, stack: Seq<SpecVal>) -> SpecExpr
    decreases e, 1int, 0int,
{
    match e {
        SpecExpr::Argument(offset, s, _moveable) => if s < scope {
            SpecExpr::Value(stack[offset as int])
        } else {
            e
        },
        SpecExpr::Lambda(arg_c, lscope, body) => SpecExpr::Lambda(
            arg_c,
            lscope,
            Box::new(spec_replace_args(*body, scope, stack)),
        ),
        SpecExpr::Cond(test, th, el) => SpecExpr::Cond(
            Box::new(spec_replace_args(*test, scope, stack)),
            Box::new(spec_replace_args(*th, scope, stack)),
            Box::new(spec_replace_args(*el, scope, stack)),
        ),
        SpecExpr::FunctionCall(callee, args, is_tail, is_self) => SpecExpr::FunctionCall(
            Box::new(spec_replace_args(*callee, scope, stack)),
            spec_replace_args_seq(args, 0, scope, stack),
            is_tail,
            is_self,
        ),
        _ => e,
    }
}

pub open spec fn spec_replace_args_seq(
    s: Seq<SpecExpr>,
    i: int,
    scope: nat,
    stack: Seq<SpecVal>,
) -> Seq<SpecExpr>
    decreases s, 0int, s.len() - i,
{
    if i < 0 || i >= s.len() {
        Seq::empty()
    } else {
        seq![spec_replace_args(s[i], scope, stack)] + spec_replace_args_seq(s, i + 1, scope, stack)
    }
}

pub proof fn lemma_spec_replace_args_seq(s: Seq<SpecExpr>, i: int, scope: nat, stack: Seq<SpecVal>)
    requires
        0 <= i <= s.len(),
    ensures
        spec_replace_args_seq(s, i, scope, stack).len() == s.len() - i,
        forall|j: int| 0 <= j < s.len() - i ==> spec_replace_args_seq(s, i, scope, stack)[j]
            == spec_replace_args(s[i + j], scope, stack),
    decreases s.len() - i,
{
    if i < s.len() {
        lemma_spec_replace_args_seq(s, i + 1, scope, stack);
    }
}

pub proof fn lemma_spec_args_bounded_seq(s: Seq<SpecExpr>, i: int, scope: nat, limit: nat)
    requires
        0 <= i <= s.len(),
    ensures
        spec_args_bounded_seq(s, i, scope, limit) == (forall|j: int|
            i <= j < s.len() ==> spec_args_bounded(s[j], scope, limit)),
    decreases s.len() - i,
{
    if i < s.len() {
        lemma_spec_args_bounded_seq(s, i + 1, scope, limit);
    }
}

impl FinalizedExpr {
    /// Whether every argument reference below `scope_level` reads a slot
    /// under `limit`, so that a frame of `limit` slots satisfies the
    /// no-dangling-references invariant of the representation.
    pub fn check_args_bounded(&self, scope_level: usize, limit: usize) -> (r: bool)
        ensures
            r == spec_args_bounded(self@, scope_level as nat, limit as nat),
        decreases self,
    {
        match self {
            FinalizedExpr::Argument(offset, s, _moveable) => *s >= scope_level || *offset < limit,
            FinalizedExpr::Lambda(_arg_c, _scope, body) => body.check_args_bounded(
                scope_level,
                limit,
            ),
            FinalizedExpr::Cond(test, th, el) => test.check_args_bounded(scope_level, limit)
                && th.check_args_bounded(scope_level, limit)
                && el.check_args_bounded(scope_level, limit),
            FinalizedExpr::FunctionCall(callee, args, _is_tail, _is_self) => {
                if !callee.check_args_bounded(scope_level, limit) {
                    return false;
                }
                let n = args.len();
                let mut i: usize = 0;
                proof {
                    lemma_exprs_view_from(args@, 0);
                    lemma_spec_args_bounded_seq(
                        exprs_view_from(args@, 0),
                        0,
                        scope_level as nat,
                        limit as nat,
                    );
                }
                #[verifier::loop_isolation(false)]
                while i < n
                    invariant
                        i <= n,
                        forall|j: int| 0 <= j < i ==> spec_args_bounded(
                            expr_view(args@[j]),
                            scope_level as nat,
                            limit as nat,
                        ),
                    decreases n - i,
                {
                    if !args[i].check_args_bounded(scope_level, limit) {
                        proof {
                            assert(exprs_view_from(args@, 0)[i as int] == expr_view(
                                args@[i as int],
                            ));
                        }
                        return false;
                    }
                    i += 1;
                }
                true
            },
            _ => true,
        }
    }

    /// Resolves references to enclosing-frame arguments to value
    /// snapshots. Used when creating closures.
    pub fn replace_args(&self, scope_level: usize, stack: &[LispValue]) -> (r: FinalizedExpr)
        requires
            spec_args_bounded(self@, scope_level as nat, stack@.len() as nat),
        ensures
            r@ == spec_replace_args(self@, scope_level as nat, values_view(stack@)),
        decreases self,
    {
        proof {
            lemma_values_view(stack@);
        }
        match self {
            FinalizedExpr::Argument(offset, s, moveable) => if *s < scope_level {
                FinalizedExpr::Value(clone_value(&stack[*offset]))
            } else {
                FinalizedExpr::Argument(*offset, *s, *moveable)
            },
            FinalizedExpr::Lambda(arg_c, lscope, body) => FinalizedExpr::Lambda(
                *arg_c,
                *lscope,
                Box::new(body.replace_args(scope_level, stack)),
            ),
            FinalizedExpr::Cond(test, th, el) => FinalizedExpr::Cond(
                Box::new(test.replace_args(scope_level, stack)),
                Box::new(th.replace_args(scope_level, stack)),
                Box::new(el.replace_args(scope_level, stack)),
            ),
            FinalizedExpr::FunctionCall(callee, args, is_tail, is_self) => {
                let n = args.len();
                let mut out: Vec<FinalizedExpr> = Vec::new();
                let mut i: usize = 0;
                proof {
                    lemma_exprs_view_from(args@, 0);
                    lemma_spec_args_bounded_seq(
                        exprs_view_from(args@, 0),
                        0,
                        scope_level as nat,
                        stack@.len() as nat,
                    );
                    lemma_spec_replace_args_seq(
                        exprs_view_from(args@, 0),
                        0,
                        scope_level as nat,
                        values_view(stack@),
                    );
                }
                #[verifier::loop_isolation(false)]
                while i < n
                    invariant
                        i <= n,
                        out@.len() == i,
                        forall|j: int| 0 <= j < i ==> expr_view(out@[j]) == spec_replace_args(
                            expr_view(args@[j]),
                            scope_level as nat,
                            values_view(stack@),
                        ),
                    decreases n - i,
                {
                    proof {
                        assert(exprs_view_from(args@, 0)[i as int] == expr_view(args@[i as int]));
                    }
                    out.push(args[i].replace_args(scope_level, stack));
                    i += 1;
                }
                proof {
                    lemma_exprs_view_from(out@, 0);
                    assert(exprs_view_from(out@, 0) =~= spec_replace_args_seq(
                        exprs_view_from(args@, 0),
                        0,
                        scope_level as nat,
                        values_view(stack@),
                    ));
                }
                FinalizedExpr::FunctionCall(
                    Box::new(callee.replace_args(scope_level, stack)),
                    out,
                    *is_tail,
                    *is_self,
                )
            },
            FinalizedExpr::Variable(name) => FinalizedExpr::Variable(name.clone()),
            FinalizedExpr::Value(v) => FinalizedExpr::Value(clone_value(v)),
        }
    }
}

/// The body of the continuation built by a partial application: a tail
/// call of the original function on the supplied argument snapshots
/// followed by the continuation's own fresh arguments.
pub open spec fn spec_continuation_args(supplied: Seq<SpecVal>, total: nat) -> Seq<SpecExpr> {
    Seq::new(
        total,
        |i: int| if i < supplied.len() {
            SpecExpr::Value(supplied[i])
        } else {
            SpecExpr::Argument((i - supplied.len()) as nat, 0, true)
        },
    )
}

pub open spec fn spec_continuation_body(f: SpecFun, supplied: Seq<SpecVal>, total: nat) -> SpecExpr {
    SpecExpr::FunctionCall(
        Box::new(SpecExpr::Value(SpecVal::Fun(f))),
        spec_continuation_args(supplied, total),
        true,
        false,
    )
}

impl LispFunc {
    /// Builds the continuation for a partial application: the result
    /// expects the missing arguments and tail-calls the original
    /// function on the supplied snapshots followed by the fresh ones.
    pub fn create_continuation(
        f: CustomFunc,
        total_args: usize,
        supplied_args: usize,
        stack: &[LispValue],
    ) -> (r: LispFunc)
        requires
            supplied_args <= total_args,
            stack@.len() >= supplied_args,
        ensures
            r@ == SpecFun::Custom(
                (total_args - supplied_args) as nat,
                Box::new(
                    spec_continuation_body(
                        f@,
                        values_view(stack@).take(supplied_args as int),
                        total_args as nat,
                    ),
                ),
            ),
    {
        proof {
            lemma_values_view(stack@);
        }
        let arg_count = total_args - supplied_args;
        let ghost fv = f@;
        let ghost inner = LispValue::Function(LispFunc::Custom(f));
        let funk = Box::new(FinalizedExpr::Value(LispValue::Function(LispFunc::Custom(f))));
        proof {
            assert(func_view(LispFunc::Custom(f)) == fv);
            assert(value_view(inner) == SpecVal::Fun(fv));
            assert(funk@ == SpecExpr::Value(SpecVal::Fun(fv)));
        }
        let mut arg_vec: Vec<FinalizedExpr> = Vec::new();
        let mut i: usize = 0;
        #[verifier::loop_isolation(false)]
        while i < supplied_args
            invariant
                i <= supplied_args,
                arg_vec@.len() == i,
                forall|j: int| 0 <= j < i ==> expr_view(arg_vec@[j]) == SpecExpr::Value(
                    value_view(stack@[j]),
                ),
            decreases supplied_args - i,
        {
            arg_vec.push(FinalizedExpr::Value(clone_value(&stack[i])));
            i += 1;
        }
        let mut o: usize = 0;
        #[verifier::loop_isolation(false)]
        while o < arg_count
            invariant
                o <= arg_count,
                arg_vec@.len() == supplied_args + o,
                forall|j: int| 0 <= j < supplied_args ==> expr_view(arg_vec@[j]) == SpecExpr::Value(
                    value_view(stack@[j]),
                ),
                forall|j: int| supplied_args <= j < supplied_args + o ==> expr_view(arg_vec@[j])
                    == SpecExpr::Argument((j - supplied_args) as nat, 0, true),
            decreases arg_count - o,
        {
            arg_vec.push(FinalizedExpr::Argument(o, 0, true));
            o += 1;
        }
        let ghost argseq = arg_vec@;
        let body = FinalizedExpr::FunctionCall(funk, arg_vec, true, false);
        proof {
            lemma_exprs_view_from(argseq, 0);
            assert(exprs_view_from(argseq, 0) =~= spec_continuation_args(
                values_view(stack@).take(supplied_args as int),
                total_args as nat,
            ));
            assert(body@ == spec_continuation_body(
                f@,
                values_view(stack@).take(supplied_args as int),
                total_args as nat,
            ));
        }
        LispFunc::new_custom(arg_count, body)
    }
}

/// The dynamic type of a modelled value, as the type-testing primitives
/// report it.
pub open spec fn spec_type(v: SpecVal) -> ArgType {
    match v {
        SpecVal::Bool(_) => ArgType::Boolean,
        SpecVal::Int(_) => ArgType::Integer,
        SpecVal::Fun(_) => ArgType::Function,
        SpecVal::List(_) => ArgType::List,
    }
}

impl LispValue {
    /// The type discriminator used by the `int?`, `bool?`, `list?` and
    /// `fun?` primitives.
    pub fn get_type(&self) -> (t: ArgType)
        ensures
            t == spec_type(self@),
    {
        match *self {
            LispValue::Boolean(..) => ArgType::Boolean,
            LispValue::Integer(..) => ArgType::Integer,
            LispValue::Function(..) => ArgType::Function,
            LispValue::List(..) => ArgType::List,
        }
    }
}

} // verus!
