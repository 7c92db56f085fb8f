//! The resolver: top-level classification and the pass that lowers
//! source expressions into the finalized representation, binding names
//! to argument slots and computing the tail-call, self-call and
//! last-use marks.

use vstd::prelude::*;
use crate::types::{
    EvaluationError, FinalizedExpr, LispExpr, LispMacro, SpecError, SpecExpr, SpecSrc, TopExpr,
    expr_view, lemma_exprs_view_from, exprs_view_from, lemma_srcs_view_from, src_view,
    srcs_view_from,
};
use crate::evaluator::State;

verus! {

broadcast use vstd::std_specs::vec::group_vec_axioms, vstd::seq::group_seq_axioms;

/// One argument binding: lexical scope level, slot offset, and whether
/// the next textual use may consume the slot.
pub type ArgEntry = (usize, usize, bool);

/// The model of an argument binding.
pub type SpecArgEntry = (nat, nat, bool);

pub open spec fn arg_entry_view(e: ArgEntry) -> SpecArgEntry {
    (e.0 as nat, e.1 as nat, e.2)
}

/// The map a sequence of argument bindings denotes; a later binding for
/// a name shadows an earlier one.
pub open spec fn spec_arg_bindings(s: Seq<(String, ArgEntry)>) -> Map<Seq<char>, SpecArgEntry>
    decreases s.len(),
{
    if s.len() == 0 {
        Map::empty()
    } else {
        spec_arg_bindings(s.drop_last()).insert(s.last().0@, arg_entry_view(s.last().1))
    }
}

proof fn lemma_arg_bindings_get(s: Seq<(String, ArgEntry)>, i: int)
    requires
        0 <= i < s.len(),
        forall|j: int| i < j < s.len() ==> s[j].0@ != s[i].0@,
    ensures
        spec_arg_bindings(s).contains_key(s[i].0@),
        spec_arg_bindings(s)[s[i].0@] == arg_entry_view(s[i].1),
    decreases s.len(),
{
    if i < s.len() - 1 {
        lemma_arg_bindings_get(s.drop_last(), i);
    }
}

proof fn lemma_arg_bindings_absent(s: Seq<(String, ArgEntry)>, n: Seq<char>)
    requires
        forall|j: int| 0 <= j < s.len() ==> s[j].0@ != n,
    ensures
        !spec_arg_bindings(s).contains_key(n),
    decreases s.len(),
{
    if s.len() > 0 {
        lemma_arg_bindings_absent(s.drop_last(), n);
    }
}

proof fn lemma_arg_bindings_domain(s: Seq<(String, ArgEntry)>, n: Seq<char>)
    requires
        spec_arg_bindings(s).contains_key(n),
    ensures
        exists|j: int| 0 <= j < s.len() && s[j].0@ == n,
    decreases s.len(),
{
    if s.len() > 0 {
        if s.last().0@ != n {
            lemma_arg_bindings_domain(s.drop_last(), n);
            let j = choose|j: int| 0 <= j < s.len() - 1 && s.drop_last()[j].0@ == n;
            assert(s[j].0@ == n);
        } else {
            assert(s[s.len() - 1].0@ == n);
        }
    }
}

/// The symbol table of the resolver: maps a name to the argument slot it
/// denotes, with its current last-use mark.
#[derive(Debug)]
pub struct ArgumentsMap {
    entries: Vec<(String, ArgEntry)>,
}

impl View for ArgumentsMap {
    type V = Map<Seq<char>, SpecArgEntry>;

    closed spec fn view(&self) -> Map<Seq<char>, SpecArgEntry> {
        spec_arg_bindings(self.entries@)
    }
}

impl ArgumentsMap {
    /// Whether no two bindings share a name.
    pub closed spec fn wf(&self) -> bool {
        forall|i: int, j: int| 0 <= i < j < self.entries@.len()
            ==> self.entries@[i].0@ != self.entries@[j].0@
    }

    /// An empty symbol table.
    pub fn new() -> (r: ArgumentsMap)
        ensures
            r@ == Map::<Seq<char>, SpecArgEntry>::empty(),
            r.wf(),
    {
        ArgumentsMap { entries: Vec::new() }
    }

    /// The index of the binding for a name, if there is one.
    fn find(&self, name: &str) -> (r: Option<usize>)
        ensures
            match r {
                Some(i) => i < self.entries@.len() && self.entries@[i as int].0@ == name@
                    && (forall|j: int| i < j < self.entries@.len()
                        ==> self.entries@[j].0@ != name@),
                None => forall|j: int| 0 <= j < self.entries@.len()
                    ==> self.entries@[j].0@ != name@,
            },
    {
        let owned = name.to_owned();
        let n = self.entries.len();
        let mut i: usize = n;
        #[verifier::loop_isolation(false)]
        while i > 0
            invariant
                i <= n,
                forall|j: int| i <= j < n ==> self.entries@[j].0@ != name@,
            decreases i,
        {
            i = i - 1;
            if self.entries[i].0 == owned {
                return Some(i);
            }
        }
        None
    }

    /// The binding for a name, if there is one.
    pub fn get(&self, name: &str) -> (r: Option<ArgEntry>)
        ensures
            match r {
                Some(e) => self@.contains_key(name@) && self@[name@] == arg_entry_view(e),
                None => !self@.contains_key(name@),
            },
    {
        match self.find(name) {
            Some(i) => {
                proof {
                    lemma_arg_bindings_get(self.entries@, i as int);
                }
                Some(self.entries[i].1)
            },
            None => {
                proof {
                    lemma_arg_bindings_absent(self.entries@, name@);
                }
                None
            },
        }
    }

    /// Binds a name to a fresh argument slot with the last-use mark set,
    /// replacing any previous binding of the name.
    pub fn insert(&mut self, name: &str, scope_level: usize, offset: usize)
        requires
            old(self).wf(),
        ensures
            final(self).wf(),
            final(self)@ == old(self)@.insert(name@, (scope_level as nat, offset as nat, true)),
    {
        self.replace_entry(name, (scope_level, offset, true));
    }

    /// Reads the binding for a name and clears its last-use mark: the
    /// first read in a linear scan is the moveable one.
    pub fn take_moveable(&mut self, name: &str) -> (r: Option<ArgEntry>)
        requires
            old(self).wf(),
        ensures
            final(self).wf(),
            match r {
                Some(e) => old(self)@.contains_key(name@) && old(self)@[name@]
                    == arg_entry_view(e) && final(self)@ == old(self)@.insert(
                    name@,
                    (e.0 as nat, e.1 as nat, false),
                ),
                None => !old(self)@.contains_key(name@) && final(self)@ == old(self)@,
            },
    {
        match self.find(name) {
            Some(i) => {
                proof {
                    lemma_arg_bindings_get(self.entries@, i as int);
                }
                let entry = self.entries[i].1;
                self.replace_entry(name, (entry.0, entry.1, false));
                Some(entry)
            },
            None => {
                proof {
                    lemma_arg_bindings_absent(self.entries@, name@);
                }
                None
            },
        }
    }

    /// Replaces the binding for a name, keeping names unique.
    fn replace_entry(&mut self, name: &str, entry: ArgEntry)
        requires
            old(self).wf(),
        ensures
            final(self).wf(),
            final(self)@ == old(self)@.insert(name@, arg_entry_view(entry)),
    {
        let ghost s0 = self.entries@;
        match self.find(name) {
            Some(i) => {
                self.entries.remove(i);
                proof {
                    lemma_removed_key_view(s0, i as int);
                }
            },
            None => {
                proof {
                    lemma_arg_bindings_absent(s0, name@);
                    assert(spec_arg_bindings(s0).remove(name@) =~= spec_arg_bindings(s0));
                }
            },
        }
        let ghost s1 = self.entries@;
        self.entries.push((name.to_owned(), entry));
        proof {
            assert(self.entries@.drop_last() =~= s1);
            assert(spec_arg_bindings(s1).insert(name@, arg_entry_view(entry)) =~= spec_arg_bindings(
                s0,
            ).insert(name@, arg_entry_view(entry)));
        }
    }
}

/// The merge of the last-use marks after the two branches of a
/// conditional: a slot stays moveable only where both branches left it
/// moveable.
pub open spec fn spec_merge_flags(
    a: Map<Seq<char>, SpecArgEntry>,
    b: Map<Seq<char>, SpecArgEntry>,
) -> Map<Seq<char>, SpecArgEntry> {
    Map::new(
        |k: Seq<char>| a.contains_key(k),
        |k: Seq<char>| (a[k].0, a[k].1, a[k].2 && (!b.contains_key(k) || b[k].2)),
    )
}

impl Clone for ArgumentsMap {
    fn clone(&self) -> (r: Self)
        ensures
            r@ == self@,
            self.wf() ==> r.wf(),
    {
        let n = self.entries.len();
        let mut entries: Vec<(String, ArgEntry)> = Vec::new();
        let mut i: usize = 0;
        #[verifier::loop_isolation(false)]
        while i < n
            invariant
                i <= n,
                entries@.len() == i,
                forall|j: int| 0 <= j < i ==> entries@[j] == self.entries@[j],
            decreases n - i,
        {
            entries.push((self.entries[i].0.clone(), self.entries[i].1));
            i += 1;
        }
        proof {
            assert(entries@ =~= self.entries@);
        }
        ArgumentsMap { entries }
    }
}

impl ArgumentsMap {
    /// Conjoins each binding's last-use mark with the mark the same name
    /// carries in `other`.
    pub fn merge_flags(&mut self, other: &ArgumentsMap)
        requires
            old(self).wf(),
        ensures
            final(self).wf(),
            final(self)@ == spec_merge_flags(old(self)@, other@),
    {
        let ghost s0 = self.entries@;
        let n = self.entries.len();
        let mut out: Vec<(String, ArgEntry)> = Vec::new();
        let mut i: usize = 0;
        #[verifier::loop_isolation(false)]
        while i < n
            invariant
                i <= n,
                out@.len() == i,
                forall|j: int| 0 <= j < i ==> out@[j].0@ == s0[j].0@ && out@[j].1.0 == s0[j].1.0
                    && out@[j].1.1 == s0[j].1.1 && out@[j].1.2 == (s0[j].1.2 && (!other@.contains_key(
                    s0[j].0@,
                ) || other@[s0[j].0@].2)),
            decreases n - i,
        {
            let e = self.entries[i].1;
            let other_flag = match other.get(self.entries[i].0.as_str()) {
                Some(e2) => e2.2,
                None => true,
            };
            out.push((self.entries[i].0.clone(), (e.0, e.1, e.2 && other_flag)));
            i += 1;
        }
        self.entries = out;
        proof {
            let s1 = self.entries@;
            assert(forall|p: int| 0 <= p < s1.len() ==> #[trigger] s1[p].0@ == s0[p].0@);
            assert forall|p: int, q: int| 0 <= p < q < s1.len() implies s1[p].0@ != s1[q].0@ by {
                assert(s0[p].0@ != s0[q].0@);
            }
            let target = spec_merge_flags(spec_arg_bindings(s0), other@);
            assert forall|k: Seq<char>|
                #[trigger] spec_arg_bindings(s1).contains_key(k) == target.contains_key(k)
                    && (spec_arg_bindings(s1).contains_key(k) ==> spec_arg_bindings(s1)[k]
                    == target[k]) by {
                if spec_arg_bindings(s1).contains_key(k) {
                    lemma_arg_bindings_domain(s1, k);
                    let j = choose|j: int| 0 <= j < s1.len() && s1[j].0@ == k;
                    assert(forall|j2: int| j < j2 < s1.len() ==> s1[j2].0@ != s1[j].0@);
                    lemma_arg_bindings_get(s1, j);
                    assert(forall|j2: int| j < j2 < s0.len() ==> s0[j2].0@ != s0[j].0@);
                    lemma_arg_bindings_get(s0, j);
                }
                if spec_arg_bindings(s0).contains_key(k) {
                    lemma_arg_bindings_domain(s0, k);
                    let j = choose|j: int| 0 <= j < s0.len() && s0[j].0@ == k;
                    assert(forall|j2: int| j < j2 < s0.len() ==> s0[j2].0@ != s0[j].0@);
                    lemma_arg_bindings_get(s0, j);
                    assert(forall|j2: int| j < j2 < s1.len() ==> s1[j2].0@ != s1[j].0@);
                    lemma_arg_bindings_get(s1, j);
                }
            }
            assert(spec_arg_bindings(s1) =~= target);
        }
    }
}

/// Removing the only binding of its name from a well-formed binding
/// sequence removes exactly that name from the denoted map.
proof fn lemma_removed_key_view(s: Seq<(String, ArgEntry)>, i: int)
    requires
        0 <= i < s.len(),
        forall|p: int, q: int| 0 <= p < q < s.len() ==> s[p].0@ != s[q].0@,
    ensures
        spec_arg_bindings(s.remove(i)) == spec_arg_bindings(s).remove(s[i].0@),
        forall|p: int, q: int| 0 <= p < q < s.remove(i).len()
            ==> s.remove(i)[p].0@ != s.remove(i)[q].0@,
    decreases s.len(),
{
    let r = s.remove(i);
    if i == s.len() - 1 {
        assert(r =~= s.drop_last());
        assert forall|k: Seq<char>| true implies #[trigger] spec_arg_bindings(r).contains_key(k)
            == spec_arg_bindings(s).remove(s[i].0@).contains_key(k) && (spec_arg_bindings(
            r,
        ).contains_key(k) ==> spec_arg_bindings(r)[k] == spec_arg_bindings(s).remove(s[i].0@)[k])
        by {
            if k == s[i].0@ {
                assert(forall|j: int| 0 <= j < r.len() ==> r[j].0@ != k);
                lemma_arg_bindings_absent(r, k);
            } else {
                if spec_arg_bindings(r).contains_key(k) {
                    lemma_arg_bindings_domain(r, k);
                }
                if spec_arg_bindings(s).remove(s[i].0@).contains_key(k) {
                    lemma_arg_bindings_domain(s, k);
                }
            }
        }
        assert(spec_arg_bindings(r) =~= spec_arg_bindings(s).remove(s[i].0@));
    } else {
        assert(r.last() == s.last());
        assert(r.drop_last() =~= s.drop_last().remove(i));
        lemma_removed_key_view(s.drop_last(), i);
        assert(spec_arg_bindings(r) == spec_arg_bindings(s.drop_last()).remove(
            s[i].0@,
        ).insert(s.last().0@, arg_entry_view(s.last().1)));
        assert(s[i].0@ != s.last().0@);
        assert(spec_arg_bindings(s.drop_last()).remove(s[i].0@).insert(
            s.last().0@,
            arg_entry_view(s.last().1),
        ) =~= spec_arg_bindings(s).remove(s[i].0@));
    }
}

/// The classification of an incoming top-level expression: a definition
/// intent, a malformed definition, or a regular expression.
pub enum SpecTop {
    Define(Seq<char>, SpecSrc),
    Malformed,
    Regular,
}

/// Classifies a top-level expression: a call headed by the `define`
/// special form must be `(define NAME EXPR)`.
pub open spec fn spec_classify(e: SpecSrc) -> SpecTop {
    match e {
        SpecSrc::Call(items) => if items.len() > 0 && items[0] == SpecSrc::Macro(
            LispMacro::Define,
        ) {
            if items.len() == 3 {
                match items[1] {
                    SpecSrc::OpVar(n) => SpecTop::Define(n, items[2]),
                    _ => SpecTop::Malformed,
                }
            } else {
                SpecTop::Malformed
            }
        } else {
            SpecTop::Regular
        },
        _ => SpecTop::Regular,
    }
}

/// The empty symbol table a top-level resolution starts from.
pub open spec fn spec_empty_args() -> Map<Seq<char>, SpecArgEntry> {
    Map::empty()
}

/// The model of the defining name handed to the resolver.
pub open spec fn spec_own(o: Option<&str>) -> Option<Seq<char>> {
    match o {
        Some(s) => Some(s@),
        None => None,
    }
}

/// The lexical depth of the body of a lambda at depth `s`; the depth
/// saturates at the largest machine-representable level.
pub open spec fn spec_next_scope(s: nat) -> nat {
    if s >= usize::MAX {
        s
    } else {
        s + 1
    }
}

/// What the resolver produces for a source expression: the finalized
/// expression together with the symbol table as the linear scan leaves
/// it, or the first error the scan meets.
///
/// Within a call, operands are resolved from the last to the first, so
/// the last-use mark of a slot is awarded to its rightmost occurrence;
/// the callee follows. The two branches of a conditional are resolved
/// against independent copies of the symbol table — the alternative
/// first — and a slot keeps its mark only where both branches leave it;
/// the test is resolved last and is never a tail position. A lambda
/// binds its parameters over a copy of the table, so the enclosing
/// table is left untouched, and its body is a tail position. A call is
/// marked a self-call only where its callee resolves to a free variable
/// naming the definition in progress; a parameter that shadows the name
/// is not a self-call.
pub open spec fn spec_finalize(
    e: SpecSrc,
    scope: nat,
    args: Map<Seq<char>, SpecArgEntry>,
    can_tail: bool,
    own: Option<Seq<char>>,
) -> Result<(SpecExpr, Map<Seq<char>, SpecArgEntry>), SpecError>
    decreases e, 1int, 0int,
{
    match e {
        SpecSrc::Value(v) => Ok((SpecExpr::Value(v), args)),
        SpecSrc::OpVar(n) => if args.contains_key(n) {
            Ok(
                (
                    SpecExpr::Argument(args[n].1, args[n].0, args[n].2),
                    args.insert(n, (args[n].0, args[n].1, false)),
                ),
            )
        } else {
            Ok((SpecExpr::Variable(n), args))
        },
        SpecSrc::Macro(_) => Err(SpecError::UnexpectedOperator),
        SpecSrc::Call(items) => if items.len() == 0 {
            Err(SpecError::EmptyListEvaluation)
        } else {
            match items[0] {
                SpecSrc::Macro(LispMacro::Cond) => if items.len() != 4 {
                    Err(SpecError::ArgumentCountMismatch)
                } else {
                    match spec_finalize(items[3], scope, args, can_tail, own) {
                        Err(k) => Err(k),
                        Ok((el, else_args)) => match spec_finalize(
                            items[2],
                            scope,
                            args,
                            can_tail,
                            own,
                        ) {
                            Err(k) => Err(k),
                            Ok((th, then_args)) => match spec_finalize(
                                items[1],
                                scope,
                                spec_merge_flags(then_args, else_args),
                                false,
                                own,
                            ) {
                                Err(k) => Err(k),
                                Ok((test, test_args)) => Ok(
                                    (
                                        SpecExpr::Cond(
                                            Box::new(test),
                                            Box::new(th),
                                            Box::new(el),
                                        ),
                                        test_args,
                                    ),
                                ),
                            },
                        },
                    }
                },
                SpecSrc::Macro(LispMacro::Lambda) => if items.len() != 3 {
                    Err(SpecError::ArgumentCountMismatch)
                } else {
                    match items[1] {
                        SpecSrc::Call(params) => match spec_bind_params(params, 0, args, scope) {
                            Err(k) => Err(k),
                            Ok(new_args) => match spec_finalize(
                                items[2],
                                spec_next_scope(scope),
                                new_args,
                                true,
                                own,
                            ) {
                                Err(k) => Err(k),
                                Ok((body, _body_args)) => Ok(
                                    (
                                        SpecExpr::Lambda(
                                            params.len(),
                                            scope,
                                            Box::new(body),
                                        ),
                                        args,
                                    ),
                                ),
                            },
                        },
                        _ => Err(SpecError::ArgumentTypeMismatch),
                    }
                },
                SpecSrc::Macro(LispMacro::Define) => Err(SpecError::MalformedDefinition),
                _ => {
                    match spec_finalize_args(items, 1, args, scope, own) {
                        Err(k) => Err(k),
                        Ok((argseq, m1)) => match spec_finalize(items[0], scope, m1, false, own) {
                            Err(k) => Err(k),
                            Ok((callee, m2)) => {
                                let is_self = match callee {
                                    SpecExpr::Variable(n) => own == Some(n),
                                    _ => false,
                                };
                                Ok(
                                    (
                                        SpecExpr::FunctionCall(
                                            Box::new(callee),
                                            argseq,
                                            can_tail,
                                            is_self,
                                        ),
                                        m2,
                                    ),
                                )
                            },
                        },
                    }
                },
            }
        },
    }
}

/// Resolves the operands `items[k..]` of a call, the rightmost operand
/// first, and hands them back in source order.
pub open spec fn spec_finalize_args(
    items: Seq<SpecSrc>,
    k: int,
    args: Map<Seq<char>, SpecArgEntry>,
    scope: nat,
    own: Option<Seq<char>>,
) -> Result<(Seq<SpecExpr>, Map<Seq<char>, SpecArgEntry>), SpecError>
    decreases items, 0int, items.len() - k,
{
    if k < 0 || k >= items.len() {
        Ok((Seq::empty(), args))
    } else {
        match spec_finalize_args(items, k + 1, args, scope, own) {
            Err(e) => Err(e),
            Ok((rest, m1)) => match spec_finalize(items[k], scope, m1, false, own) {
                Err(e) => Err(e),
                Ok((ek, m2)) => Ok((seq![ek] + rest, m2)),
            },
        }
    }
}

/// Binds the parameters `params[j..]` of a lambda over `acc`, each name
/// shadowing any previous binding; a non-symbol parameter is malformed.
pub open spec fn spec_bind_params(
    params: Seq<SpecSrc>,
    j: int,
    acc: Map<Seq<char>, SpecArgEntry>,
    scope: nat,
) -> Result<Map<Seq<char>, SpecArgEntry>, SpecError>
    decreases params, 0int, params.len() - j,
{
    if j < 0 || j >= params.len() {
        Ok(acc)
    } else {
        match params[j] {
            SpecSrc::OpVar(n) => spec_bind_params(
                params,
                j + 1,
                acc.insert(n, (scope, j as nat, true)),
                scope,
            ),
            _ => Err(SpecError::MalformedDefinition),
        }
    }
}

/// An error met while resolving the operand `items[j]` is the error of
/// the whole operand scan.
proof fn lemma_finalize_args_err(
    items: Seq<SpecSrc>,
    k: int,
    j: int,
    args: Map<Seq<char>, SpecArgEntry>,
    scope: nat,
    own: Option<Seq<char>>,
)
    requires
        0 <= k <= j < items.len(),
        spec_finalize_args(items, j, args, scope, own) is Err,
    ensures
        spec_finalize_args(items, k, args, scope, own) == spec_finalize_args(
            items,
            j,
            args,
            scope,
            own,
        ),
    decreases j - k,
{
    if k < j {
        lemma_finalize_args_err(items, k + 1, j, args, scope, own);
    }
}

/// Compares two string slices by their character sequences.
fn str_eq(a: &str, b: &str) -> (r: bool)
    ensures
        r == (a@ == b@),
{
    let x = a.to_owned();
    let y = b.to_owned();
    x == y
}

/// The special form denoted by a name, if any.
pub open spec fn spec_macro_of_name(n: Seq<char>) -> Option<LispMacro> {
    if n == "define"@ {
        Some(LispMacro::Define)
    } else if n == "cond"@ {
        Some(LispMacro::Cond)
    } else if n == "lambda"@ {
        Some(LispMacro::Lambda)
    } else {
        None
    }
}

impl LispMacro {
    /// The special form denoted by a name, if any.
    pub fn from_str(s: &str) -> (r: Option<LispMacro>)
        ensures
            r == spec_macro_of_name(s@),
    {
        if str_eq(s, "define") {
            Some(LispMacro::Define)
        } else if str_eq(s, "cond") {
            Some(LispMacro::Cond)
        } else if str_eq(s, "lambda") {
            Some(LispMacro::Lambda)
        } else {
            None
        }
    }
}

impl LispExpr {
    /// Classifies an incoming top-level expression: a well-shaped
    /// definition becomes a definition intent, a malformed one is a
    /// `BadDefine`, and anything else is resolved as a regular
    /// expression at top level.
    pub fn into_top_expr(self, state: &State) -> (r: Result<TopExpr, EvaluationError>)
        ensures
            match spec_classify(self@) {
                SpecTop::Malformed => r matches Err(e) && e@ == SpecError::BadDefine,
                SpecTop::Define(n, d) => r matches Ok(t)
                    && (t matches TopExpr::Define(name, def) && name@ == n && def@ == d),
                SpecTop::Regular => match spec_finalize(
                    self@,
                    0,
                    spec_empty_args(),
                    true,
                    None,
                ) {
                    Ok(p) => r matches Ok(t) && (t matches TopExpr::Regular(fe) && fe@ == p.0),
                    Err(k) => r matches Err(e) && e@ == k,
                },
            },
    {
        let ghost selfv = self@;
        let is_define = match &self {
            LispExpr::Call(items) => {
                proof {
                    lemma_srcs_view_from(items@, 0);
                }
                items.len() > 0 && matches!(items[0], LispExpr::Macro(LispMacro::Define))
            },
            _ => false,
        };
        if is_define {
            match self {
                LispExpr::Call(items) => {
                    proof {
                        lemma_srcs_view_from(items@, 0);
                    }
                    let mut items = items;
                    if items.len() != 3 {
                        return Err(EvaluationError::BadDefine);
                    }
                    let def = items.pop().unwrap();
                    let opvar = items.pop().unwrap();
                    match opvar {
                        LispExpr::OpVar(n) => Ok(TopExpr::Define(n, def)),
                        _ => Err(EvaluationError::BadDefine),
                    }
                },
                _ => Err(EvaluationError::BadDefine),
            }
        } else {
            proof {
                assert(spec_classify(selfv) is Regular);
            }
            let mut args = ArgumentsMap::new();
            match self.finalize(0, &mut args, state, true, None) {
                Ok(fe) => Ok(TopExpr::Regular(fe)),
                Err(e) => Err(e),
            }
        }
    }

    /// Resolves a source expression into the finalized representation
    /// against the symbol table of the enclosing lambdas, as the model
    /// `spec_finalize` describes.
    pub fn finalize(
        self,
        scope_level: usize,
        arguments: &mut ArgumentsMap,
        state: &State,
        can_tail_call: bool,
        own_name: Option<&str>,
    ) -> (r: Result<FinalizedExpr, EvaluationError>)
        requires
            old(arguments).wf(),
        ensures
            final(arguments).wf(),
            match spec_finalize(
                self@,
                scope_level as nat,
                old(arguments)@,
                can_tail_call,
                spec_own(own_name),
            ) {
                Ok(p) => r matches Ok(fe) && fe@ == p.0 && final(arguments)@ == p.1,
                Err(k) => r matches Err(e) && e@ == k,
            },
        decreases self,
    {
        let ghost m0 = arguments@;
        let ghost scope_n = scope_level as nat;
        let ghost ownv = spec_own(own_name);
        match self {
            LispExpr::Value(v) => Ok(FinalizedExpr::Value(v)),
            LispExpr::OpVar(n) => match arguments.take_moveable(n.as_str()) {
                Some(e) => Ok(FinalizedExpr::Argument(e.1, e.0, e.2)),
                None => Ok(FinalizedExpr::Variable(n)),
            },
            LispExpr::Macro(_) => Err(EvaluationError::UnexpectedOperator),
            LispExpr::Call(items) => {
                if items.len() == 0 {
                    return Err(EvaluationError::EmptyListEvaluation);
                }
                let ghost items0 = items@;
                let ghost itemsv = srcs_view_from(items@, 0);
                proof {
                    lemma_srcs_view_from(items@, 0);
                }
                let mut items = items;
                if matches!(items[0], LispExpr::Macro(LispMacro::Cond)) {
                    if items.len() != 4 {
                        return Err(EvaluationError::ArgumentCountMismatch);
                    }
                    let else_e = items.pop().unwrap();
                    let then_e = items.pop().unwrap();
                    let test_e = items.pop().unwrap();
                    let mut else_args = arguments.clone();
                    let el = match else_e.finalize(
                        scope_level,
                        &mut else_args,
                        state,
                        can_tail_call,
                        own_name,
                    ) {
                        Ok(x) => x,
                        Err(e) => {
                            return Err(e);
                        },
                    };
                    let th = match then_e.finalize(
                        scope_level,
                        arguments,
                        state,
                        can_tail_call,
                        own_name,
                    ) {
                        Ok(x) => x,
                        Err(e) => {
                            return Err(e);
                        },
                    };
                    arguments.merge_flags(&else_args);
                    let test = match test_e.finalize(
                        scope_level,
                        arguments,
                        state,
                        false,
                        own_name,
                    ) {
                        Ok(x) => x,
                        Err(e) => {
                            return Err(e);
                        },
                    };
                    Ok(FinalizedExpr::Cond(Box::new(test), Box::new(th), Box::new(el)))
                } else if matches!(items[0], LispExpr::Macro(LispMacro::Lambda)) {
                    if items.len() != 3 {
                        return Err(EvaluationError::ArgumentCountMismatch);
                    }
                    let body_e = items.pop().unwrap();
                    let arg_list = items.pop().unwrap();
                    match arg_list {
                        LispExpr::Call(params) => {
                            let ghost paramsv = srcs_view_from(params@, 0);
                            proof {
                                lemma_srcs_view_from(params@, 0);
                            }
                            let mut new_arguments = arguments.clone();
                            let num_args = params.len();
                            let mut offset: usize = 0;
                            #[verifier::loop_isolation(false)]
                            while offset < num_args
                                invariant
                                    offset <= num_args,
                                    new_arguments.wf(),
                                    spec_bind_params(paramsv, 0, m0, scope_n)
                                        == spec_bind_params(
                                        paramsv,
                                        offset as int,
                                        new_arguments@,
                                        scope_n,
                                    ),
                                decreases num_args - offset,
                            {
                                match &params[offset] {
                                    LispExpr::OpVar(name) => {
                                        new_arguments.insert(name.as_str(), scope_level, offset);
                                    },
                                    _ => {
                                        return Err(EvaluationError::MalformedDefinition);
                                    },
                                }
                                offset += 1;
                            }
                            let next_scope = if scope_level == usize::MAX {
                                scope_level
                            } else {
                                scope_level + 1
                            };
                            let body = match body_e.finalize(
                                next_scope,
                                &mut new_arguments,
                                state,
                                true,
                                own_name,
                            ) {
                                Ok(x) => x,
                                Err(e) => {
                                    return Err(e);
                                },
                            };
                            Ok(FinalizedExpr::Lambda(num_args, scope_level, Box::new(body)))
                        },
                        _ => Err(EvaluationError::ArgumentTypeMismatch),
                    }
                } else if matches!(items[0], LispExpr::Macro(LispMacro::Define)) {
                    Err(EvaluationError::MalformedDefinition)
                } else {
                    let mut rev: Vec<FinalizedExpr> = Vec::new();
                    let ghost mut done: Seq<SpecExpr> = Seq::empty();
                    #[verifier::loop_isolation(false)]
                    while items.len() > 1
                        invariant
                            1 <= items@.len() <= items0.len(),
                            items@ == items0.take(items@.len() as int),
                            arguments.wf(),
                            rev@.len() == done.len(),
                            forall|i: int| 0 <= i < rev@.len() ==> expr_view(rev@[i])
                                == done[done.len() - 1 - i],
                            spec_finalize_args(itemsv, items@.len() as int, m0, scope_n, ownv)
                                == Ok::<_, SpecError>((done, arguments@)),
                        decreases items@.len(),
                    {
                        let a = items.pop().unwrap();
                        let ghost j = items@.len() as int;
                        proof {
                            assert(a == items0[j]);
                            assert(itemsv[j] == src_view(items0[j]));
                        }
                        let fe = match a.finalize(scope_level, arguments, state, false, own_name) {
                            Ok(x) => x,
                            Err(e) => {
                                proof {
                                    lemma_finalize_args_err(itemsv, 1, j, m0, scope_n, ownv);
                                }
                                return Err(e);
                            },
                        };
                        rev.push(fe);
                        proof {
                            done = seq![expr_view(fe)] + done;
                        }
                    }
                    let head = items.pop().unwrap();
                    proof {
                        assert(head == items0[0]);
                        assert(itemsv[0] == src_view(items0[0]));
                    }
                    let funk = match head.finalize(scope_level, arguments, state, false, own_name) {
                        Ok(x) => x,
                        Err(e) => {
                            return Err(e);
                        },
                    };
                    let is_self = if let FinalizedExpr::Variable(n) = &funk {
                        match own_name {
                            Some(o) => str_eq(n.as_str(), o),
                            None => false,
                        }
                    } else {
                        false
                    };
                    let mut out: Vec<FinalizedExpr> = Vec::new();
                    #[verifier::loop_isolation(false)]
                    while rev.len() > 0
                        invariant
                            out@.len() + rev@.len() == done.len(),
                            forall|i: int| 0 <= i < out@.len() ==> expr_view(out@[i]) == done[i],
                            forall|i: int| 0 <= i < rev@.len() ==> expr_view(rev@[i])
                                == done[done.len() - 1 - i],
                        decreases rev@.len(),
                    {
                        let x = rev.pop().unwrap();
                        out.push(x);
                    }
                    proof {
                        lemma_exprs_view_from(out@, 0);
                        assert(exprs_view_from(out@, 0) =~= done);
                    }
                    Ok(FinalizedExpr::FunctionCall(Box::new(funk), out, can_tail_call, is_self))
                }
            },
        }
    }
}


/// The name a parameter position binds.
pub open spec fn spec_param_name(p: SpecSrc) -> Seq<char> {
    match p {
        SpecSrc::OpVar(n) => n,
        _ => Seq::empty(),
    }
}

/// Lexical scoping, the untouched names: binding the parameters
/// `params[j..]` over `acc` leaves every name that is not among them
/// with exactly the binding it had in `acc`.
pub proof fn lemma_param_preservation(
    params: Seq<SpecSrc>,
    j: int,
    k: Seq<char>,
    acc: Map<Seq<char>, SpecArgEntry>,
    scope: nat,
)
    requires
        0 <= j <= params.len(),
        spec_bind_params(params, j, acc, scope) is Ok,
        forall|i: int| j <= i < params.len() ==> spec_param_name(params[i]) != k,
    ensures
        ({
            let m = spec_bind_params(params, j, acc, scope)->Ok_0;
            &&& m.contains_key(k) == acc.contains_key(k)
            &&& acc.contains_key(k) ==> m[k] == acc[k]
        }),
    decreases params.len() - j,
{
    if j < params.len() {
        match params[j] {
            SpecSrc::OpVar(n) => {
                lemma_param_preservation(
                    params,
                    j + 1,
                    k,
                    acc.insert(n, (scope, j as nat, true)),
                    scope,
                );
            },
            _ => {},
        }
    }
}

/// Lexical scoping, the shadowing direction: after the parameters
/// `params[j..]` are bound over `acc`, a name whose rightmost occurrence
/// is the parameter at position `i` denotes that slot at the lambda's
/// own scope with a fresh last-use mark — whatever `acc` bound it to
/// before.
pub proof fn lemma_param_shadowing(
    params: Seq<SpecSrc>,
    j: int,
    i: int,
    acc: Map<Seq<char>, SpecArgEntry>,
    scope: nat,
)
    requires
        0 <= j <= i < params.len(),
        spec_bind_params(params, j, acc, scope) is Ok,
        params[i] is OpVar,
        forall|i2: int| i < i2 < params.len() ==> spec_param_name(params[i2]) != spec_param_name(
            params[i],
        ),
    ensures
        ({
            let m = spec_bind_params(params, j, acc, scope)->Ok_0;
            &&& m.contains_key(spec_param_name(params[i]))
            &&& m[spec_param_name(params[i])] == (scope, i as nat, true)
        }),
    decreases params.len() - j,
{
    match params[j] {
        SpecSrc::OpVar(n) => {
            let acc2 = acc.insert(n, (scope, j as nat, true));
            if j < i {
                lemma_param_shadowing(params, j + 1, i, acc2, scope);
            } else {
                lemma_param_preservation(params, j + 1, n, acc2, scope);
            }
        },
        _ => {},
    }
}

/// Lexical scoping at the lambda form itself: resolving a lambda binds
/// its parameters over a copy of the enclosing symbol table, so the
/// table the resolver hands back to the enclosing scan is exactly the
/// one it was given — an inner parameter never affects outer bindings.
pub proof fn lemma_lambda_leaves_outer(
    e: SpecSrc,
    scope: nat,
    args: Map<Seq<char>, SpecArgEntry>,
    can_tail: bool,
    own: Option<Seq<char>>,
)
    requires
        e matches SpecSrc::Call(items) && items.len() == 3 && items[0] == SpecSrc::Macro(
            LispMacro::Lambda,
        ),
        spec_finalize(e, scope, args, can_tail, own) is Ok,
    ensures
        spec_finalize(e, scope, args, can_tail, own)->Ok_0.1 == args,
{
}


/// Whether every argument reference in `e` lies below the lexical depth
/// `scope` that encloses it, descending one level under each lambda (at
/// the deepest machine-representable level the check is vacuous, as the
/// resolver saturates there).
pub open spec fn spec_scoped_expr(e: SpecExpr, scope: nat) -> bool
    decreases e, 1int, 0int,
{
    match e {
        SpecExpr::Argument(_offset, s, _moveable) => s < scope,
        SpecExpr::Lambda(_arg_c, _lscope, body) => scope < usize::MAX ==> spec_scoped_expr(
            *body,
            scope + 1,
        ),
        SpecExpr::Cond(test, th, el) => spec_scoped_expr(*test, scope) && spec_scoped_expr(
            *th,
            scope,
        ) && spec_scoped_expr(*el, scope),
        SpecExpr::FunctionCall(callee, args, _is_tail, _is_self) => spec_scoped_expr(
            *callee,
            scope,
        ) && spec_scoped_seq(args, 0, scope),
        _ => true,
    }
}

pub open spec fn spec_scoped_seq(s: Seq<SpecExpr>, i: int, scope: nat) -> bool
    decreases s, 0int, s.len() - i,
{
    if i < 0 || i >= s.len() {
        true
    } else {
        spec_scoped_expr(s[i], scope) && spec_scoped_seq(s, i + 1, scope)
    }
}

/// Whether every binding of a symbol table lives below depth `scope`.
pub open spec fn spec_bindings_below(m: Map<Seq<char>, SpecArgEntry>, scope: nat) -> bool {
    forall|k: Seq<char>| m.contains_key(k) ==> (#[trigger] m[k]).0 < scope
}

proof fn lemma_merge_bindings_below(
    a: Map<Seq<char>, SpecArgEntry>,
    b: Map<Seq<char>, SpecArgEntry>,
    scope: nat,
)
    requires
        spec_bindings_below(a, scope),
    ensures
        spec_bindings_below(spec_merge_flags(a, b), scope),
{
}

proof fn lemma_bind_params_below(
    params: Seq<SpecSrc>,
    j: int,
    acc: Map<Seq<char>, SpecArgEntry>,
    scope: nat,
    bound: nat,
)
    requires
        0 <= j <= params.len(),
        scope < bound,
        spec_bindings_below(acc, bound),
        spec_bind_params(params, j, acc, scope) is Ok,
    ensures
        spec_bindings_below(spec_bind_params(params, j, acc, scope)->Ok_0, bound),
    decreases params.len() - j,
{
    if j < params.len() {
        match params[j] {
            SpecSrc::OpVar(n) => {
                lemma_bind_params_below(
                    params,
                    j + 1,
                    acc.insert(n, (scope, j as nat, true)),
                    scope,
                    bound,
                );
            },
            _ => {},
        }
    }
}

/// The no-dangling-references invariant of the finalized representation:
/// resolving a source expression at depth `scope` against a symbol table
/// whose bindings all live below `scope` yields an expression whose
/// argument references all lie within their enclosing lexical depth, and
/// leaves a table whose bindings still live below `scope`.
pub proof fn lemma_finalize_scoped(
    e: SpecSrc,
    scope: nat,
    args: Map<Seq<char>, SpecArgEntry>,
    can_tail: bool,
    own: Option<Seq<char>>,
)
    requires
        spec_bindings_below(args, scope),
        spec_finalize(e, scope, args, can_tail, own) is Ok,
    ensures
        ({
            let p = spec_finalize(e, scope, args, can_tail, own)->Ok_0;
            spec_scoped_expr(p.0, scope) && spec_bindings_below(p.1, scope)
        }),
    decreases e, 1int, 0int,
{
    match e {
        SpecSrc::Call(items) => {
            if items.len() == 0 {
            } else {
                match items[0] {
                    SpecSrc::Macro(LispMacro::Cond) => {
                        if items.len() == 4 {
                            lemma_finalize_scoped(items[3], scope, args, can_tail, own);
                            let else_args = spec_finalize(items[3], scope, args, can_tail, own)
                                ->Ok_0.1;
                            lemma_finalize_scoped(items[2], scope, args, can_tail, own);
                            let then_args = spec_finalize(items[2], scope, args, can_tail, own)
                                ->Ok_0.1;
                            lemma_merge_bindings_below(then_args, else_args, scope);
                            lemma_finalize_scoped(
                                items[1],
                                scope,
                                spec_merge_flags(then_args, else_args),
                                false,
                                own,
                            );
                        }
                    },
                    SpecSrc::Macro(LispMacro::Lambda) => {
                        if items.len() == 3 {
                            match items[1] {
                                SpecSrc::Call(params) => {
                                    if scope < usize::MAX {
                                        lemma_bind_params_below(
                                            params,
                                            0,
                                            args,
                                            scope,
                                            spec_next_scope(scope),
                                        );
                                        lemma_finalize_scoped(
                                            items[2],
                                            spec_next_scope(scope),
                                            spec_bind_params(params, 0, args, scope)->Ok_0,
                                            true,
                                            own,
                                        );
                                    }
                                },
                                _ => {},
                            }
                        }
                    },
                    SpecSrc::Macro(LispMacro::Define) => {},
                    _ => {
                        lemma_finalize_args_scoped(items, 1, args, scope, own);
                        let m1 = spec_finalize_args(items, 1, args, scope, own)->Ok_0.1;
                        lemma_finalize_scoped(items[0], scope, m1, false, own);
                    },
                }
            }
        },
        _ => {},
    }
}

proof fn lemma_finalize_args_scoped(
    items: Seq<SpecSrc>,
    k: int,
    args: Map<Seq<char>, SpecArgEntry>,
    scope: nat,
    own: Option<Seq<char>>,
)
    requires
        spec_bindings_below(args, scope),
        spec_finalize_args(items, k, args, scope, own) is Ok,
    ensures
        ({
            let p = spec_finalize_args(items, k, args, scope, own)->Ok_0;
            spec_scoped_seq(p.0, 0, scope) && spec_bindings_below(p.1, scope)
        }),
    decreases items, 0int, items.len() - k,
{
    if 0 <= k < items.len() {
        lemma_finalize_args_scoped(items, k + 1, args, scope, own);
        let rest = spec_finalize_args(items, k + 1, args, scope, own)->Ok_0;
        lemma_finalize_scoped(items[k], scope, rest.1, false, own);
        let ek = spec_finalize(items[k], scope, rest.1, false, own)->Ok_0.0;
        lemma_scoped_seq_cons(ek, rest.0, scope);
    }
}

/// Prepending a well-scoped expression keeps an operand sequence
/// well scoped.
proof fn lemma_scoped_seq_cons(x: SpecExpr, s: Seq<SpecExpr>, scope: nat)
    requires
        spec_scoped_expr(x, scope),
        spec_scoped_seq(s, 0, scope),
    ensures
        spec_scoped_seq(seq![x] + s, 0, scope),
{
    lemma_scoped_seq_shift(x, s, 0, scope);
}

proof fn lemma_scoped_seq_shift(x: SpecExpr, s: Seq<SpecExpr>, i: int, scope: nat)
    requires
        0 <= i <= s.len(),
        spec_scoped_expr(x, scope),
        spec_scoped_seq(s, i, scope),
    ensures
        spec_scoped_seq(seq![x] + s, i + 1, scope),
    decreases s.len() - i,
{
    let t = seq![x] + s;
    if i < s.len() {
        lemma_scoped_seq_shift(x, s, i + 1, scope);
        assert(t[i + 1] == s[i]);
    }
}


/// Whether every call marked as a tail call stands in result position:
/// directly where `can_tail` allows it, through the two branches of a
/// conditional, or as the whole body of a lambda; the test of a
/// conditional, a callee and the operands of a call are never result
/// positions.
pub open spec fn spec_tail_positioned(e: SpecExpr, can_tail: bool) -> bool
    decreases e, 1int, 0int,
{
    match e {
        SpecExpr::FunctionCall(callee, args, is_tail, _is_self) => (is_tail ==> can_tail)
            && spec_tail_positioned(*callee, false) && spec_tail_positioned_seq(args, 0),
        SpecExpr::Cond(test, th, el) => spec_tail_positioned(*test, false)
            && spec_tail_positioned(*th, can_tail) && spec_tail_positioned(*el, can_tail),
        SpecExpr::Lambda(_arg_c, _lscope, body) => spec_tail_positioned(*body, true),
        _ => true,
    }
}

pub open spec fn spec_tail_positioned_seq(s: Seq<SpecExpr>, i: int) -> bool
    decreases s, 0int, s.len() - i,
{
    if i < 0 || i >= s.len() {
        true
    } else {
        spec_tail_positioned(s[i], false) && spec_tail_positioned_seq(s, i + 1)
    }
}

/// The tail-position invariant of the finalized representation: the
/// resolver marks a call as a tail call only in the result position of
/// the enclosing lambda body, directly or through the branches of a
/// conditional.
pub proof fn lemma_finalize_tail_positioned(
    e: SpecSrc,
    scope: nat,
    args: Map<Seq<char>, SpecArgEntry>,
    can_tail: bool,
    own: Option<Seq<char>>,
)
    requires
        spec_finalize(e, scope, args, can_tail, own) is Ok,
    ensures
        spec_tail_positioned(spec_finalize(e, scope, args, can_tail, own)->Ok_0.0, can_tail),
    decreases e, 1int, 0int,
{
    match e {
        SpecSrc::Call(items) => {
            if items.len() == 0 {
            } else {
                match items[0] {
                    SpecSrc::Macro(LispMacro::Cond) => {
                        if items.len() == 4 {
                            lemma_finalize_tail_positioned(items[3], scope, args, can_tail, own);
                            let else_args = spec_finalize(items[3], scope, args, can_tail, own)
                                ->Ok_0.1;
                            lemma_finalize_tail_positioned(items[2], scope, args, can_tail, own);
                            let then_args = spec_finalize(items[2], scope, args, can_tail, own)
                                ->Ok_0.1;
                            lemma_finalize_tail_positioned(
                                items[1],
                                scope,
                                spec_merge_flags(then_args, else_args),
                                false,
                                own,
                            );
                        }
                    },
                    SpecSrc::Macro(LispMacro::Lambda) => {
                        if items.len() == 3 {
                            match items[1] {
                                SpecSrc::Call(params) => {
                                    lemma_finalize_tail_positioned(
                                        items[2],
                                        spec_next_scope(scope),
                                        spec_bind_params(params, 0, args, scope)->Ok_0,
                                        true,
                                        own,
                                    );
                                },
                                _ => {},
                            }
                        }
                    },
                    SpecSrc::Macro(LispMacro::Define) => {},
                    _ => {
                        lemma_finalize_args_tail_positioned(items, 1, args, scope, own);
                        let m1 = spec_finalize_args(items, 1, args, scope, own)->Ok_0.1;
                        lemma_finalize_tail_positioned(items[0], scope, m1, false, own);
                    },
                }
            }
        },
        _ => {},
    }
}

proof fn lemma_finalize_args_tail_positioned(
    items: Seq<SpecSrc>,
    k: int,
    args: Map<Seq<char>, SpecArgEntry>,
    scope: nat,
    own: Option<Seq<char>>,
)
    requires
        spec_finalize_args(items, k, args, scope, own) is Ok,
    ensures
        spec_tail_positioned_seq(spec_finalize_args(items, k, args, scope, own)->Ok_0.0, 0),
    decreases items, 0int, items.len() - k,
{
    if 0 <= k < items.len() {
        lemma_finalize_args_tail_positioned(items, k + 1, args, scope, own);
        let rest = spec_finalize_args(items, k + 1, args, scope, own)->Ok_0;
        lemma_finalize_tail_positioned(items[k], scope, rest.1, false, own);
        let ek = spec_finalize(items[k], scope, rest.1, false, own)->Ok_0.0;
        lemma_tail_seq_cons(ek, rest.0);
    }
}

proof fn lemma_tail_seq_cons(x: SpecExpr, s: Seq<SpecExpr>)
    requires
        spec_tail_positioned(x, false),
        spec_tail_positioned_seq(s, 0),
    ensures
        spec_tail_positioned_seq(seq![x] + s, 0),
{
    lemma_tail_seq_shift(x, s, 0);
}

proof fn lemma_tail_seq_shift(x: SpecExpr, s: Seq<SpecExpr>, i: int)
    requires
        0 <= i <= s.len(),
        spec_tail_positioned(x, false),
        spec_tail_positioned_seq(s, i),
    ensures
        spec_tail_positioned_seq(seq![x] + s, i + 1),
    decreases s.len() - i,
{
    let t = seq![x] + s;
    if i < s.len() {
        lemma_tail_seq_shift(x, s, i + 1);
        assert(t[i + 1] == s[i]);
    }
}


} // verus!
