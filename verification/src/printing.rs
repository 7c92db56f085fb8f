//! Deterministic printing of values, functions and expressions: booleans
//! as `#t` / `#f`, integers in decimal, lists as parenthesized
//! space-separated elements, and functions in a bracketed diagnostic
//! form.

use vstd::prelude::*;
use vstd::string::StringExecFns;
use crate::types::{
    ArgType, BuiltIn, CustomFunc, FinalizedExpr, LispExpr, LispFunc, LispValue, SpecExpr, SpecFun,
    SpecSrc, SpecVal,
};

verus! {

broadcast use vstd::std_specs::vec::group_vec_axioms, vstd::seq::group_seq_axioms;

/// Appends one character to a string.
///
/// Relies on `String::push`, which the standard library documents as
/// appending the given char to the end of the string.
#[verifier::external_body]
fn push_char(s: &mut String, c: char)
    ensures
        final(s)@ == old(s)@.push(c),
{
    s.push(c)
}

/// The character of a decimal digit.
pub open spec fn spec_digit(d: nat) -> char {
    if d == 0 {
        '0'
    } else if d == 1 {
        '1'
    } else if d == 2 {
        '2'
    } else if d == 3 {
        '3'
    } else if d == 4 {
        '4'
    } else if d == 5 {
        '5'
    } else if d == 6 {
        '6'
    } else if d == 7 {
        '7'
    } else if d == 8 {
        '8'
    } else {
        '9'
    }
}

/// The decimal form of a number, most significant digit first, with no
/// sign and no leading zero except for zero itself.
pub open spec fn spec_dec(n: nat) -> Seq<char>
    decreases n,
{
    if n < 10 {
        seq![spec_digit(n)]
    } else {
        spec_dec(n / 10).push(spec_digit(n % 10))
    }
}

fn digit_char10(d: u64) -> (r: char)
    requires
        d < 10,
    ensures
        r == spec_digit(d as nat),
{
    if d == 0 {
        '0'
    } else if d == 1 {
        '1'
    } else if d == 2 {
        '2'
    } else if d == 3 {
        '3'
    } else if d == 4 {
        '4'
    } else if d == 5 {
        '5'
    } else if d == 6 {
        '6'
    } else if d == 7 {
        '7'
    } else if d == 8 {
        '8'
    } else {
        '9'
    }
}

/// Appends the decimal form of `n`.
fn push_u64(s: &mut String, n: u64)
    ensures
        final(s)@ == old(s)@ + spec_dec(n as nat),
    decreases n,
{
    if n >= 10 {
        push_u64(s, n / 10);
    }
    let c = digit_char10(n % 10);
    push_char(s, c);
    proof {
        assert(s@ =~= old(s)@ + spec_dec(n as nat));
    }
}

/// The indentation prefix of a nesting level: four spaces per level,
/// capped at the largest machine-representable width.
pub open spec fn spec_indent(k: nat) -> Seq<char> {
    Seq::new(
        if k > (usize::MAX / 4) as nat {
            usize::MAX as nat
        } else {
            4 * k
        },
        |i: int| ' ',
    )
}

/// The next nesting level; levels saturate at the largest
/// machine-representable one.
pub open spec fn spec_deeper(k: nat) -> nat {
    if k >= usize::MAX {
        k
    } else {
        k + 1
    }
}

fn deeper(indent: usize) -> (r: usize)
    ensures
        r as nat == spec_deeper(indent as nat),
{
    if indent == usize::MAX {
        indent
    } else {
        indent + 1
    }
}

fn indent_to_string(indent: usize) -> (r: String)
    ensures
        r@ == spec_indent(indent as nat),
{
    let count = if indent > usize::MAX / 4 {
        usize::MAX
    } else {
        indent * 4
    };
    let mut s = String::new();
    let mut i: usize = 0;
    #[verifier::loop_isolation(false)]
    while i < count
        invariant
            i <= count,
            s@.len() == i,
            forall|j: int| 0 <= j < i ==> s@[j] == ' ',
        decreases count - i,
    {
        push_char(&mut s, ' ');
        i += 1;
    }
    proof {
        assert(s@ =~= spec_indent(indent as nat));
    }
    s
}

/// The debug name of a primitive, as function values print it.
pub open spec fn spec_print_builtin(b: BuiltIn) -> Seq<char> {
    match b {
        BuiltIn::AddOne => "AddOne"@,
        BuiltIn::SubOne => "SubOne"@,
        BuiltIn::Cons => "Cons"@,
        BuiltIn::Cdr => "Cdr"@,
        BuiltIn::Car => "Car"@,
        BuiltIn::List => "List"@,
        BuiltIn::CheckZero => "CheckZero"@,
        BuiltIn::CheckNull => "CheckNull"@,
        BuiltIn::CheckType(ArgType::Integer) => "CheckType(Integer)"@,
        BuiltIn::CheckType(ArgType::Boolean) => "CheckType(Boolean)"@,
        BuiltIn::CheckType(ArgType::Function) => "CheckType(Function)"@,
        BuiltIn::CheckType(ArgType::List) => "CheckType(List)"@,
    }
}

/// The printed form of a value. Booleans print as `#t` / `#f`, integers
/// in decimal, lists as `(` elements `)` separated by single spaces, and
/// function values in square brackets around their diagnostic form.
pub open spec fn spec_print_value(v: SpecVal, indent: nat) -> Seq<char>
    decreases v, 1int, 0int,
{
    match v {
        SpecVal::Bool(b) => if b {
            "#t"@
        } else {
            "#f"@
        },
        SpecVal::Int(i) => spec_dec(i as nat),
        SpecVal::List(elems) => seq!['('] + spec_print_list_items(elems, elems.len() as int, indent)
            + seq![')'],
        SpecVal::Fun(f) => seq!['['] + spec_print_fun(f, indent) + seq![']'],
    }
}

/// The printed form of the first `k` elements of a list, separated by
/// single spaces.
pub open spec fn spec_print_list_items(elems: Seq<SpecVal>, k: int, indent: nat) -> Seq<char>
    decreases elems, 0int, k,
{
    if k <= 0 || k > elems.len() {
        Seq::empty()
    } else {
        spec_print_list_items(elems, k - 1, indent) + (if k > 1 {
            seq![' ']
        } else {
            Seq::empty()
        }) + spec_print_value(elems[k - 1], indent)
    }
}

/// The diagnostic form of a function value: the debug name of a
/// primitive, or the parameter list and body of a user-defined function.
pub open spec fn spec_print_fun(f: SpecFun, indent: nat) -> Seq<char>
    decreases f, 1int, 0int,
{
    match f {
        SpecFun::BuiltIn(b) => spec_print_builtin(b),
        SpecFun::Custom(arity, body) => spec_print_params(arity as int) + " ->\n"@ + spec_indent(
            spec_deeper(indent),
        ) + spec_print_expr(*body, spec_deeper(indent)),
    }
}

/// The parameter list `$0 $1 …` of the first `k` parameters.
pub open spec fn spec_print_params(k: int) -> Seq<char>
    decreases k,
{
    if k <= 0 {
        Seq::empty()
    } else {
        spec_print_params(k - 1) + (if k > 1 {
            seq![' ']
        } else {
            Seq::empty()
        }) + seq!['$'] + spec_dec((k - 1) as nat)
    }
}

/// The diagnostic form of a finalized expression.
pub open spec fn spec_print_expr(e: SpecExpr, indent: nat) -> Seq<char>
    decreases e, 1int, 0int,
{
    match e {
        SpecExpr::Argument(offset, scope, moveable) => (if moveable {
            seq!['m']
        } else {
            Seq::empty()
        }) + "$("@ + spec_dec(offset) + ", "@ + spec_dec(scope) + seq![')'],
        SpecExpr::Value(v) => spec_print_value(v, indent),
        SpecExpr::Variable(name) => name,
        SpecExpr::Cond(test, th, el) => "cond"@ + seq!['{'] + spec_print_expr(*test, indent)
            + seq!['\n'] + spec_indent(indent) + spec_print_expr(*th, indent) + seq!['\n']
            + spec_indent(indent) + spec_print_expr(*el, indent) + seq!['}'],
        SpecExpr::Lambda(arg_c, scope, body) => "lambda ("@ + spec_dec(arg_c) + ", "@ + spec_dec(
            scope,
        ) + ") -> "@ + spec_print_expr(*body, indent),
        SpecExpr::FunctionCall(funk, args, is_tail, is_self) => (if is_self && is_tail {
            seq!['r']
        } else if is_tail {
            seq!['t']
        } else {
            Seq::empty()
        }) + seq!['{'] + spec_print_expr(*funk, indent) + spec_print_call_items(
            args,
            args.len() as int,
            indent,
        ) + seq!['}'],
    }
}

/// The printed forms of the first `k` operands of a call, each on its
/// own indented line.
pub open spec fn spec_print_call_items(args: Seq<SpecExpr>, k: int, indent: nat) -> Seq<char>
    decreases args, 0int, k,
{
    if k <= 0 || k > args.len() {
        Seq::empty()
    } else {
        spec_print_call_items(args, k - 1, indent) + seq!['\n'] + spec_indent(indent)
            + spec_print_expr(args[k - 1], indent)
    }
}

/// The diagnostic form of a source expression.
pub open spec fn spec_print_src(e: SpecSrc, indent: nat) -> Seq<char>
    decreases e, 1int, 0int,
{
    match e {
        SpecSrc::Value(v) => spec_print_value(v, indent),
        SpecSrc::OpVar(name) => name,
        SpecSrc::Macro(m) => match m {
            crate::types::LispMacro::Define => "Define"@,
            crate::types::LispMacro::Cond => "Cond"@,
            crate::types::LispMacro::Lambda => "Lambda"@,
        },
        SpecSrc::Call(items) => seq!['{'] + spec_print_src_items(items, items.len() as int, indent)
            + seq!['}'],
    }
}

/// The printed forms of the first `k` items of a source call, separated
/// by indented line breaks.
pub open spec fn spec_print_src_items(items: Seq<SpecSrc>, k: int, indent: nat) -> Seq<char>
    decreases items, 0int, k,
{
    if k <= 0 || k > items.len() {
        Seq::empty()
    } else {
        spec_print_src_items(items, k - 1, indent) + (if k > 1 {
            seq!['\n'] + spec_indent(indent)
        } else {
            Seq::empty()
        }) + spec_print_src(items[k - 1], indent)
    }
}

impl LispValue {
    /// Prints a value in its deterministic textual form.
    pub fn pretty_print(&self, indent: usize) -> (r: String)
        ensures
            r@ == spec_print_value(self@, indent as nat),
        decreases self,
    {
        match self {
            LispValue::Boolean(b) => if *b {
                "#t".to_owned()
            } else {
                "#f".to_owned()
            },
            LispValue::Integer(i) => {
                let mut s = String::new();
                push_u64(&mut s, *i);
                proof {
                    assert(s@ =~= spec_print_value(self@, indent as nat));
                }
                s
            },
            LispValue::Function(f) => {
                let mut s = String::new();
                push_char(&mut s, '[');
                let sub = f.pretty_print(indent);
                s.append(sub.as_str());
                push_char(&mut s, ']');
                proof {
                    assert(s@ =~= spec_print_value(self@, indent as nat));
                }
                s
            },
            LispValue::List(vec) => {
                let ghost elems = crate::types::values_view(vec@);
                proof {
                    crate::types::lemma_values_view(vec@);
                }
                let mut s = String::new();
                push_char(&mut s, '(');
                let n = vec.len();
                let mut i: usize = 0;
                #[verifier::loop_isolation(false)]
                while i < n
                    invariant
                        i <= n,
                        s@ == seq!['('] + spec_print_list_items(elems, i as int, indent as nat),
                    decreases n - i,
                {
                    if i > 0 {
                        push_char(&mut s, ' ');
                    }
                    let sub = vec[i].pretty_print(indent);
                    s.append(sub.as_str());
                    proof {
                        assert(s@ =~= seq!['('] + spec_print_list_items(
                            elems,
                            i + 1,
                            indent as nat,
                        ));
                    }
                    i += 1;
                }
                push_char(&mut s, ')');
                proof {
                    assert(s@ =~= spec_print_value(self@, indent as nat));
                }
                s
            },
        }
    }
}

impl LispFunc {
    /// Prints a function value in its diagnostic form.
    pub fn pretty_print(&self, indent: usize) -> (r: String)
        ensures
            r@ == spec_print_fun(self@, indent as nat),
        decreases self,
    {
        match self {
            LispFunc::BuiltIn(b) => match b {
                BuiltIn::AddOne => "AddOne".to_owned(),
                BuiltIn::SubOne => "SubOne".to_owned(),
                BuiltIn::Cons => "Cons".to_owned(),
                BuiltIn::Cdr => "Cdr".to_owned(),
                BuiltIn::Car => "Car".to_owned(),
                BuiltIn::List => "List".to_owned(),
                BuiltIn::CheckZero => "CheckZero".to_owned(),
                BuiltIn::CheckNull => "CheckNull".to_owned(),
                BuiltIn::CheckType(ArgType::Integer) => "CheckType(Integer)".to_owned(),
                BuiltIn::CheckType(ArgType::Boolean) => "CheckType(Boolean)".to_owned(),
                BuiltIn::CheckType(ArgType::Function) => "CheckType(Function)".to_owned(),
                BuiltIn::CheckType(ArgType::List) => "CheckType(List)".to_owned(),
            },
            LispFunc::Custom(c) => c.pretty_print(indent),
        }
    }
}

impl CustomFunc {
    /// Prints a user-defined function: its parameter list, an arrow, and
    /// its body one nesting level deeper.
    pub fn pretty_print(&self, indent: usize) -> (r: String)
        ensures
            r@ == spec_print_fun(self@, indent as nat),
        decreases self,
    {
        let mut s = String::new();
        let arity = self.0.arg_count;
        let mut i: usize = 0;
        #[verifier::loop_isolation(false)]
        while i < arity
            invariant
                i <= arity,
                s@ == spec_print_params(i as int),
            decreases arity - i,
        {
            if i > 0 {
                push_char(&mut s, ' ');
            }
            push_char(&mut s, '$');
            push_u64(&mut s, i as u64);
            proof {
                assert(s@ =~= spec_print_params(i + 1));
            }
            i += 1;
        }
        s.append(" ->\n");
        let deep = deeper(indent);
        let ind = indent_to_string(deep);
        s.append(ind.as_str());
        let sub = self.0.body.pretty_print(deep);
        s.append(sub.as_str());
        proof {
            assert(s@ =~= spec_print_fun(self@, indent as nat));
        }
        s
    }
}

impl FinalizedExpr {
    /// Prints a finalized expression in its diagnostic form.
    pub fn pretty_print(&self, indent: usize) -> (r: String)
        ensures
            r@ == spec_print_expr(self@, indent as nat),
        decreases self,
    {
        match self {
            FinalizedExpr::Argument(offset, scope, moveable) => {
                let mut s = String::new();
                if *moveable {
                    push_char(&mut s, 'm');
                }
                s.append("$(");
                push_u64(&mut s, *offset as u64);
                s.append(", ");
                push_u64(&mut s, *scope as u64);
                push_char(&mut s, ')');
                proof {
                    assert(s@ =~= spec_print_expr(self@, indent as nat));
                }
                s
            },
            FinalizedExpr::Value(v) => {
                let r = v.pretty_print(indent);
                proof {
                    assert(r@ =~= spec_print_expr(self@, indent as nat));
                }
                r
            },
            FinalizedExpr::Variable(name) => name.clone(),
            FinalizedExpr::Cond(test, th, el) => {
                let mut s = String::new();
                s.append("cond");
                push_char(&mut s, '{');
                let sub_test = test.pretty_print(indent);
                s.append(sub_test.as_str());
                let ind = indent_to_string(indent);
                push_char(&mut s, '\n');
                s.append(ind.as_str());
                let sub_th = th.pretty_print(indent);
                s.append(sub_th.as_str());
                push_char(&mut s, '\n');
                s.append(ind.as_str());
                let sub_el = el.pretty_print(indent);
                s.append(sub_el.as_str());
                push_char(&mut s, '}');
                proof {
                    assert(s@ =~= spec_print_expr(self@, indent as nat));
                }
                s
            },
            FinalizedExpr::Lambda(arg_c, scope, body) => {
                let mut s = String::new();
                s.append("lambda (");
                push_u64(&mut s, *arg_c as u64);
                s.append(", ");
                push_u64(&mut s, *scope as u64);
                s.append(") -> ");
                let sub = body.pretty_print(indent);
                s.append(sub.as_str());
                proof {
                    assert(s@ =~= spec_print_expr(self@, indent as nat));
                }
                s
            },
            FinalizedExpr::FunctionCall(funk, args, is_tail, is_self) => {
                let ghost argsv = crate::types::exprs_view_from(args@, 0);
                proof {
                    crate::types::lemma_exprs_view_from(args@, 0);
                }
                let mut s = String::new();
                if *is_self && *is_tail {
                    push_char(&mut s, 'r');
                } else if *is_tail {
                    push_char(&mut s, 't');
                }
                push_char(&mut s, '{');
                let sub = funk.pretty_print(indent);
                s.append(sub.as_str());
                let ghost header = s@;
                let ind = indent_to_string(indent);
                let n = args.len();
                let mut i: usize = 0;
                #[verifier::loop_isolation(false)]
                while i < n
                    invariant
                        i <= n,
                        s@ == header + spec_print_call_items(argsv, i as int, indent as nat),
                    decreases n - i,
                {
                    push_char(&mut s, '\n');
                    s.append(ind.as_str());
                    let sub_a = args[i].pretty_print(indent);
                    s.append(sub_a.as_str());
                    proof {
                        assert(s@ =~= header + spec_print_call_items(
                            argsv,
                            i + 1,
                            indent as nat,
                        ));
                    }
                    i += 1;
                }
                push_char(&mut s, '}');
                proof {
                    assert(s@ =~= spec_print_expr(self@, indent as nat));
                }
                s
            },
        }
    }
}

impl LispExpr {
    /// Prints a source expression in its diagnostic form.
    pub fn pretty_print(&self, indent: usize) -> (r: String)
        ensures
            r@ == spec_print_src(self@, indent as nat),
        decreases self,
    {
        match self {
            LispExpr::Value(v) => {
                let r = v.pretty_print(indent);
                proof {
                    assert(r@ =~= spec_print_src(self@, indent as nat));
                }
                r
            },
            LispExpr::OpVar(name) => name.clone(),
            LispExpr::Macro(m) => match m {
                crate::types::LispMacro::Define => "Define".to_owned(),
                crate::types::LispMacro::Cond => "Cond".to_owned(),
                crate::types::LispMacro::Lambda => "Lambda".to_owned(),
            },
            LispExpr::Call(items) => {
                let ghost itemsv = crate::types::srcs_view_from(items@, 0);
                proof {
                    crate::types::lemma_srcs_view_from(items@, 0);
                }
                let mut s = String::new();
                push_char(&mut s, '{');
                let ind = indent_to_string(indent);
                let n = items.len();
                let mut i: usize = 0;
                #[verifier::loop_isolation(false)]
                while i < n
                    invariant
                        i <= n,
                        s@ == seq!['{'] + spec_print_src_items(itemsv, i as int, indent as nat),
                    decreases n - i,
                {
                    if i > 0 {
                        push_char(&mut s, '\n');
                        s.append(ind.as_str());
                    }
                    let sub = items[i].pretty_print(indent);
                    s.append(sub.as_str());
                    proof {
                        assert(s@ =~= seq!['{'] + spec_print_src_items(
                            itemsv,
                            i + 1,
                            indent as nat,
                        ));
                    }
                    i += 1;
                }
                push_char(&mut s, '}');
                proof {
                    assert(s@ =~= spec_print_src(self@, indent as nat));
                }
                s
            },
        }
    }
}

} // verus!
