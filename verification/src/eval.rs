use vstd::prelude::*;
use vstd::string::StringExecFns;

use crate::env::{env_define, env_lookup, Env};
use crate::object::{names_of, obj_clone, obj_text, objs_clone, sym_eq, val_text, views_of, Object, Val};
use crate::parser::{parse, sp_parse_text};

verus! {

/// The most deeply nested evaluation the evaluator will follow before it
/// gives up with an error instead of exhausting the host stack.
pub const EVAL_DEPTH: u64 = 512;

/// The outcome of one evaluation: a result (value or error text) together
/// with the environment as the evaluation left it.
pub ghost struct Step {
    pub res: Result<Val, Seq<char>>,
    pub env: Seq<Seq<(Seq<char>, Val)>>,
}

/// The outcome of evaluating a row of call arguments.
pub ghost struct ArgsStep {
    pub res: Result<Seq<Val>, Seq<char>>,
    pub env: Seq<Seq<(Seq<char>, Val)>>,
}

/// Whether an executable result agrees with a specification result.
pub open spec fn res_match(r: Result<Object, String>, s: Result<Val, Seq<char>>) -> bool {
    match r {
        Ok(o) => s matches Ok(v) && o@ == v,
        Err(m) => s matches Err(e) && m@ == e,
    }
}

/// The binary operator symbols.
pub open spec fn is_binop_sym(s: Seq<char>) -> bool {
    s == "+"@ || s == "-"@ || s == "*"@ || s == "/"@ || s == "<"@ || s == ">"@ || s == "="@
        || s == "!="@
}

pub open spec fn type_err(op: Seq<char>, l: Val, r: Val) -> Seq<char> {
    "Invalid types for "@ + op + " operator "@ + val_text(l) + " "@ + val_text(r)
}

pub open spec fn overflow_err(op: Seq<char>) -> Seq<char> {
    "Integer overflow in "@ + op + " operator"@
}

/// What a binary operator yields on two already-evaluated operands.
/// Integer pairs combine as 64-bit integers (division truncates toward
/// zero); `+` concatenates two strings; comparisons yield booleans; any
/// other combination is a type error naming the operator.
pub open spec fn sp_apply_binop(op: Seq<char>, l: Val, r: Val) -> Result<Val, Seq<char>> {
    if op == "+"@ {
        match (l, r) {
            (Val::Int(a), Val::Int(b)) => match a.checked_add(b) {
                Some(c) => Ok(Val::Int(c)),
                None => Err(overflow_err(op)),
            },
            (Val::Str(a), Val::Str(b)) => Ok(Val::Str(a + b)),
            _ => Err(type_err(op, l, r)),
        }
    } else if op == "-"@ {
        match (l, r) {
            (Val::Int(a), Val::Int(b)) => match a.checked_sub(b) {
                Some(c) => Ok(Val::Int(c)),
                None => Err(overflow_err(op)),
            },
            _ => Err(type_err(op, l, r)),
        }
    } else if op == "*"@ {
        match (l, r) {
            (Val::Int(a), Val::Int(b)) => match a.checked_mul(b) {
                Some(c) => Ok(Val::Int(c)),
                None => Err(overflow_err(op)),
            },
            _ => Err(type_err(op, l, r)),
        }
    } else if op == "/"@ {
        match (l, r) {
            (Val::Int(a), Val::Int(b)) => if b == 0 {
                Err("Division by zero"@)
            } else {
                match a.checked_div(b) {
                    Some(c) => Ok(Val::Int(c)),
                    None => Err(overflow_err(op)),
                }
            },
            _ => Err(type_err(op, l, r)),
        }
    } else if op == "<"@ {
        match (l, r) {
            (Val::Int(a), Val::Int(b)) => Ok(Val::Bool(a < b)),
            _ => Err(type_err(op, l, r)),
        }
    } else if op == ">"@ {
        match (l, r) {
            (Val::Int(a), Val::Int(b)) => Ok(Val::Bool(a > b)),
            _ => Err(type_err(op, l, r)),
        }
    } else if op == "="@ {
        match (l, r) {
            (Val::Int(a), Val::Int(b)) => Ok(Val::Bool(a == b)),
            _ => Err(type_err(op, l, r)),
        }
    } else if op == "!="@ {
        match (l, r) {
            (Val::Int(a), Val::Int(b)) => Ok(Val::Bool(a != b)),
            _ => Err(type_err(op, l, r)),
        }
    } else {
        Err("Invalid infix operator: "@ + op)
    }
}

/// What a `lambda` form yields: its parameter list must be a list of
/// symbols and its body must be a list; the body is kept unevaluated.
pub open spec fn sp_lambda_res(items: Seq<Val>) -> Result<Val, Seq<char>> {
    if items.len() != 3 {
        Err("Invalid number of arguments for lambda"@)
    } else {
        match items[1] {
            Val::List(ps) => if !(forall|k: int| 0 <= k < ps.len() ==> ps[k] is Sym) {
                Err("Invalid lambda parameter"@)
            } else {
                match items[2] {
                    Val::List(body) => Ok(
                        Val::Lambda(
                            Seq::new(
                                ps.len(),
                                |k: int| if 0 <= k < ps.len() {
                                    ps[k]->Sym_0
                                } else {
                                    Seq::empty()
                                },
                            ),
                            body,
                        ),
                    ),
                    _ => Err("Invalid lambda"@),
                }
            },
            _ => Err("Invalid lambda"@),
        }
    }
}

/// The frame a call builds: each parameter bound to its argument value, in
/// order.
pub open spec fn bind_frame(params: Seq<Seq<char>>, vals: Seq<Val>) -> Seq<(Seq<char>, Val)> {
    Seq::new(
        params.len(),
        |k: int| if 0 <= k < params.len() && 0 <= k < vals.len() {
            (params[k], vals[k])
        } else {
            (Seq::empty(), Val::Void)
        },
    )
}

/// Evaluation of one value.  Scalars are self-quoting, a bare lambda
/// evaluates to `Void`, a symbol is looked up through the environment
/// chain, and a list dispatches on its head.  The fuel bounds the depth of
/// nested evaluations; exhausting it is an error.
pub open spec fn sp_eval(v: Val, env: Seq<Seq<(Seq<char>, Val)>>, fuel: nat) -> Step
    decreases fuel, 0int, 0int,
{
    if fuel == 0 {
        Step { res: Err("Recursion depth limit exceeded"@), env }
    } else {
        match v {
            Val::Void => Step { res: Ok(Val::Void), env },
            Val::Int(n) => Step { res: Ok(Val::Int(n)), env },
            Val::Bool(b) => Step { res: Ok(Val::Bool(b)), env },
            Val::Str(s) => Step { res: Ok(Val::Str(s)), env },
            Val::Lambda(ps, body) => Step { res: Ok(Val::Void), env },
            Val::Sym(s) => match env_lookup(env, s) {
                Some(val) => Step { res: Ok(val), env },
                None => Step { res: Err("Unbound symbol: "@ + s), env },
            },
            Val::List(items) => sp_eval_list(items, env, (fuel - 1) as nat),
        }
    }
}

/// Evaluation of a list: a head symbol selects a binary operator, a special
/// form, or a function call; any other list is a sequence of forms whose
/// non-`Void` results are collected into a new list.
pub open spec fn sp_eval_list(items: Seq<Val>, env: Seq<Seq<(Seq<char>, Val)>>, fuel: nat) -> Step
    decreases fuel, 3int, 0int,
{
    if items.len() == 0 {
        Step { res: Ok(Val::List(Seq::empty())), env }
    } else {
        match items[0] {
            Val::Sym(s) => if is_binop_sym(s) {
                sp_binary(items, env, fuel)
            } else if s == "define"@ {
                sp_define(items, env, fuel)
            } else if s == "if"@ {
                sp_if(items, env, fuel)
            } else if s == "lambda"@ {
                Step { res: sp_lambda_res(items), env }
            } else {
                sp_call(s, items, env, fuel)
            },
            _ => sp_seq(items, 0, env, fuel, Seq::empty()),
        }
    }
}

/// A binary operator form: exactly three elements; both operands are
/// evaluated, left first, before the operator is applied.
pub open spec fn sp_binary(items: Seq<Val>, env: Seq<Seq<(Seq<char>, Val)>>, fuel: nat) -> Step
    decreases fuel, 1int, 0int,
{
    if items.len() != 3 {
        Step { res: Err("Invalid number of arguments for infix operator"@), env }
    } else {
        let s1 = sp_eval(items[1], env, fuel);
        match s1.res {
            Err(e) => Step { res: Err(e), env: s1.env },
            Ok(l) => {
                let s2 = sp_eval(items[2], s1.env, fuel);
                match s2.res {
                    Err(e) => Step { res: Err(e), env: s2.env },
                    Ok(r) => match items[0] {
                        Val::Sym(op) => Step { res: sp_apply_binop(op, l, r), env: s2.env },
                        _ => Step { res: Err("Operator must be a symbol"@), env: s2.env },
                    },
                }
            },
        }
    }
}

/// A `define` form: exactly three elements, a symbol target, and a value
/// expression whose result is bound in the current frame; yields `Void`.
pub open spec fn sp_define(items: Seq<Val>, env: Seq<Seq<(Seq<char>, Val)>>, fuel: nat) -> Step
    decreases fuel, 1int, 0int,
{
    if items.len() != 3 {
        Step { res: Err("Invalid number of arguments for define"@), env }
    } else {
        match items[1] {
            Val::Sym(name) => {
                let s = sp_eval(items[2], env, fuel);
                match s.res {
                    Err(e) => Step { res: Err(e), env: s.env },
                    Ok(v) => Step { res: Ok(Val::Void), env: env_define(s.env, name, v) },
                }
            },
            _ => Step { res: Err("Invalid define"@), env },
        }
    }
}

/// An `if` form: exactly four elements; the condition must yield a boolean,
/// and exactly one branch is then evaluated.
pub open spec fn sp_if(items: Seq<Val>, env: Seq<Seq<(Seq<char>, Val)>>, fuel: nat) -> Step
    decreases fuel, 1int, 0int,
{
    if items.len() != 4 {
        Step { res: Err("Invalid number of arguments for if statement"@), env }
    } else {
        let c = sp_eval(items[1], env, fuel);
        match c.res {
            Err(e) => Step { res: Err(e), env: c.env },
            Ok(cv) => match cv {
                Val::Bool(b) => if b {
                    sp_eval(items[2], c.env, fuel)
                } else {
                    sp_eval(items[3], c.env, fuel)
                },
                _ => Step { res: Err("Condition must be a boolean"@), env: c.env },
            },
        }
    }
}

/// Evaluation of the arguments of a call, one per parameter, left to
/// right, in the caller's environment; a missing argument is an error.
pub open spec fn sp_args(
    items: Seq<Val>,
    k: int,
    nparams: int,
    env: Seq<Seq<(Seq<char>, Val)>>,
    fuel: nat,
) -> ArgsStep
    decreases fuel, 1int, nparams - k,
{
    if k >= nparams {
        ArgsStep { res: Ok(Seq::empty()), env }
    } else if k + 1 >= items.len() {
        ArgsStep { res: Err("Invalid number of arguments for function call"@), env }
    } else {
        let s = sp_eval(items[k + 1], env, fuel);
        match s.res {
            Err(e) => ArgsStep { res: Err(e), env: s.env },
            Ok(v) => {
                let rest = sp_args(items, k + 1, nparams, s.env, fuel);
                match rest.res {
                    Err(e) => ArgsStep { res: Err(e), env: rest.env },
                    Ok(vs) => ArgsStep { res: Ok(seq![v] + vs), env: rest.env },
                }
            },
        }
    }
}

/// A function call: the head symbol must resolve to a lambda; the
/// arguments are evaluated in the caller's environment and bound, in a
/// fresh frame chained to the caller's current environment, to the
/// lambda's parameters; the body is then evaluated as a list in that frame,
/// which is discarded when the call returns.
pub open spec fn sp_call(
    s: Seq<char>,
    items: Seq<Val>,
    env: Seq<Seq<(Seq<char>, Val)>>,
    fuel: nat,
) -> Step
    decreases fuel, 2int, 0int,
{
    match env_lookup(env, s) {
        None => Step { res: Err("Unbound symbol: "@ + s), env },
        Some(f) => match f {
            Val::Lambda(params, body) => {
                let a = sp_args(items, 0, params.len() as int, env, fuel);
                match a.res {
                    Err(e) => Step { res: Err(e), env: a.env },
                    Ok(vals) => {
                        let env1 = a.env.push(bind_frame(params, vals));
                        let b = sp_eval(Val::List(body), env1, fuel);
                        Step { res: b.res, env: b.env.drop_last() }
                    },
                }
            },
            _ => Step { res: Err("Not a lambda: "@ + s), env },
        },
    }
}

/// Evaluation of a row of forms in order, threading the environment and
/// dropping `Void` results; the survivors become a list.
pub open spec fn sp_seq(
    items: Seq<Val>,
    k: int,
    env: Seq<Seq<(Seq<char>, Val)>>,
    fuel: nat,
    acc: Seq<Val>,
) -> Step
    decreases fuel, 1int, items.len() - k,
{
    if k < 0 || k >= items.len() {
        Step { res: Ok(Val::List(acc)), env }
    } else {
        let s = sp_eval(items[k], env, fuel);
        match s.res {
            Err(e) => Step { res: Err(e), env: s.env },
            Ok(v) => sp_seq(
                items,
                k + 1,
                s.env,
                fuel,
                if v is Void {
                    acc
                } else {
                    acc.push(v)
                },
            ),
        }
    }
}

/// Evaluation of a whole program text against an environment: parse, then
/// evaluate with the full depth budget.
pub open spec fn sp_run(src: Seq<char>, env: Seq<Seq<(Seq<char>, Val)>>) -> Step {
    match sp_parse_text(src) {
        Ok(v) => sp_eval(v, env, EVAL_DEPTH as nat),
        Err(m) => Step { res: Err("Parse error: "@ + m), env },
    }
}

/// Every frame beneath the current one survives an evaluation untouched:
/// only the innermost frame can gain bindings, and frames opened during
/// the evaluation are closed again before it returns.
pub open spec fn frames_preserved(
    e1: Seq<Seq<(Seq<char>, Val)>>,
    e2: Seq<Seq<(Seq<char>, Val)>>,
) -> bool {
    e2.len() == e1.len() && forall|i: int| 0 <= i < e1.len() - 1 ==> e2[i] == e1[i]
}

/// Evaluating any value returns an environment with the same frame count,
/// every frame but the innermost exactly as it was.  In particular a
/// `define` inside a called lambda's body writes only the call's own
/// frame, which is discarded when the call returns: no binding leaks back
/// into any caller's frame.
pub proof fn lemma_frames_eval(v: Val, env: Seq<Seq<(Seq<char>, Val)>>, fuel: nat)
    requires
        env.len() >= 1,
    ensures
        frames_preserved(env, sp_eval(v, env, fuel).env),
    decreases fuel, 0int, 0int,
{
    if fuel > 0 {
        match v {
            Val::List(items) => lemma_frames_eval_list(items, env, (fuel - 1) as nat),
            _ => {},
        }
    }
}

pub proof fn lemma_frames_eval_list(items: Seq<Val>, env: Seq<Seq<(Seq<char>, Val)>>, fuel: nat)
    requires
        env.len() >= 1,
    ensures
        frames_preserved(env, sp_eval_list(items, env, fuel).env),
    decreases fuel, 3int, 0int,
{
    if items.len() > 0 {
        match items[0] {
            Val::Sym(s) => if is_binop_sym(s) {
                lemma_frames_binary(items, env, fuel);
            } else if s == "define"@ {
                lemma_frames_define(items, env, fuel);
            } else if s == "if"@ {
                lemma_frames_if(items, env, fuel);
            } else if s == "lambda"@ {
            } else {
                lemma_frames_call(s, items, env, fuel);
            },
            _ => lemma_frames_seq(items, 0, env, fuel, Seq::empty()),
        }
    }
}

pub proof fn lemma_frames_binary(items: Seq<Val>, env: Seq<Seq<(Seq<char>, Val)>>, fuel: nat)
    requires
        env.len() >= 1,
    ensures
        frames_preserved(env, sp_binary(items, env, fuel).env),
    decreases fuel, 1int, 0int,
{
    if items.len() == 3 {
        lemma_frames_eval(items[1], env, fuel);
        let s1 = sp_eval(items[1], env, fuel);
        if s1.res is Ok {
            lemma_frames_eval(items[2], s1.env, fuel);
        }
    }
}

pub proof fn lemma_frames_define(items: Seq<Val>, env: Seq<Seq<(Seq<char>, Val)>>, fuel: nat)
    requires
        env.len() >= 1,
    ensures
        frames_preserved(env, sp_define(items, env, fuel).env),
    decreases fuel, 1int, 0int,
{
    if items.len() == 3 && items[1] is Sym {
        lemma_frames_eval(items[2], env, fuel);
        let s = sp_eval(items[2], env, fuel);
        match s.res {
            Ok(v) => {
                assert(env_define(s.env, items[1]->Sym_0, v).len() == s.env.len());
            },
            Err(_) => {},
        }
    }
}

pub proof fn lemma_frames_if(items: Seq<Val>, env: Seq<Seq<(Seq<char>, Val)>>, fuel: nat)
    requires
        env.len() >= 1,
    ensures
        frames_preserved(env, sp_if(items, env, fuel).env),
    decreases fuel, 1int, 0int,
{
    if items.len() == 4 {
        lemma_frames_eval(items[1], env, fuel);
        let c = sp_eval(items[1], env, fuel);
        match c.res {
            Ok(cv) => match cv {
                Val::Bool(b) => {
                    if b {
                        lemma_frames_eval(items[2], c.env, fuel);
                    } else {
                        lemma_frames_eval(items[3], c.env, fuel);
                    }
                },
                _ => {},
            },
            Err(_) => {},
        }
    }
}

pub proof fn lemma_frames_args(
    items: Seq<Val>,
    k: int,
    nparams: int,
    env: Seq<Seq<(Seq<char>, Val)>>,
    fuel: nat,
)
    requires
        env.len() >= 1,
    ensures
        frames_preserved(env, sp_args(items, k, nparams, env, fuel).env),
    decreases fuel, 1int, nparams - k,
{
    if k < nparams && k + 1 < items.len() {
        lemma_frames_eval(items[k + 1], env, fuel);
        let s = sp_eval(items[k + 1], env, fuel);
        if s.res is Ok {
            lemma_frames_args(items, k + 1, nparams, s.env, fuel);
        }
    }
}

pub proof fn lemma_frames_call(
    s: Seq<char>,
    items: Seq<Val>,
    env: Seq<Seq<(Seq<char>, Val)>>,
    fuel: nat,
)
    requires
        env.len() >= 1,
    ensures
        frames_preserved(env, sp_call(s, items, env, fuel).env),
    decreases fuel, 2int, 0int,
{
    match env_lookup(env, s) {
        Some(f) => match f {
            Val::Lambda(params, body) => {
                lemma_frames_args(items, 0, params.len() as int, env, fuel);
                let a = sp_args(items, 0, params.len() as int, env, fuel);
                match a.res {
                    Ok(vals) => {
                        let env1 = a.env.push(bind_frame(params, vals));
                        lemma_frames_eval(Val::List(body), env1, fuel);
                        let b = sp_eval(Val::List(body), env1, fuel);
                        assert forall|i: int| 0 <= i < env.len() - 1 implies b.env.drop_last()[i]
                            == env[i] by {
                            assert(b.env[i] == env1[i]);
                            assert(env1[i] == a.env[i]);
                        }
                    },
                    Err(_) => {},
                }
            },
            _ => {},
        },
        None => {},
    }
}

/// Absorbing already-evaluated argument values into a pending argument row.
pub open spec fn args_cont(pre: Seq<Val>, a: ArgsStep) -> ArgsStep {
    ArgsStep {
        res: match a.res {
            Ok(vs) => Ok(pre + vs),
            Err(e) => Err(e),
        },
        env: a.env,
    }
}

pub proof fn lemma_frames_seq(
    items: Seq<Val>,
    k: int,
    env: Seq<Seq<(Seq<char>, Val)>>,
    fuel: nat,
    acc: Seq<Val>,
)
    requires
        env.len() >= 1,
    ensures
        frames_preserved(env, sp_seq(items, k, env, fuel, acc).env),
    decreases fuel, 1int, items.len() - k,
{
    if 0 <= k < items.len() {
        lemma_frames_eval(items[k], env, fuel);
        let s = sp_eval(items[k], env, fuel);
        match s.res {
            Ok(v) => {
                lemma_frames_seq(
                    items,
                    k + 1,
                    s.env,
                    fuel,
                    if v is Void {
                        acc
                    } else {
                        acc.push(v)
                    },
                );
            },
            Err(_) => {},
        }
    }
}

/// Joins a fixed prefix and a tail into one message string.
fn msg_concat(prefix: &str, tail: &str) -> (r: String)
    ensures
        r@ == prefix@ + tail@,
{
    String::from_str(prefix).concat(tail)
}

/// Builds a message that names an operator between two fixed parts.
fn op_msg(prefix: &str, op: &str, suffix: &str) -> (r: String)
    ensures
        r@ == prefix@ + op@ + suffix@,
{
    String::from_str(prefix).concat(op).concat(suffix)
}

/// Builds a type-error message naming the operator and both operand
/// values.
fn type_err_msg(op: &String, l: &Object, r: &Object) -> (m: String)
    ensures
        m@ == type_err(op@, l@, r@),
{
    let lt = obj_text(l);
    let rt = obj_text(r);
    String::from_str("Invalid types for ").concat(op.as_str()).concat(" operator ").concat(
        lt.as_str(),
    ).concat(" ").concat(rt.as_str())
}

/// Resolves a symbol through the environment chain.
fn eval_symbol(s: &String, env: &Env) -> (r: Result<Object, String>)
    ensures
        match env_lookup(env@, s@) {
            Some(v) => r matches Ok(o) && o@ == v,
            None => r matches Err(m) && m@ == "Unbound symbol: "@ + s@,
        },
{
    match env.get(s.as_str()) {
        Some(o) => Ok(o),
        None => Err(msg_concat("Unbound symbol: ", s.as_str())),
    }
}

/// Applies a binary operator to two already-evaluated operands, exactly as
/// `sp_apply_binop` describes.
fn apply_binop(op: &String, l: &Object, r: &Object) -> (res: Result<Object, String>)
    ensures
        res_match(res, sp_apply_binop(op@, l@, r@)),
{
    if sym_eq(op, "+") {
        match (l, r) {
            (Object::Integer(a), Object::Integer(b)) => match (*a).checked_add(*b) {
                Some(c) => Ok(Object::Integer(c)),
                None => Err(op_msg("Integer overflow in ", op.as_str(), " operator")),
            },
            (Object::String(a), Object::String(b)) => Ok(
                Object::String(a.clone().concat(b.as_str())),
            ),
            _ => Err(type_err_msg(op, l, r)),
        }
    } else if sym_eq(op, "-") {
        match (l, r) {
            (Object::Integer(a), Object::Integer(b)) => match (*a).checked_sub(*b) {
                Some(c) => Ok(Object::Integer(c)),
                None => Err(op_msg("Integer overflow in ", op.as_str(), " operator")),
            },
            _ => Err(type_err_msg(op, l, r)),
        }
    } else if sym_eq(op, "*") {
        match (l, r) {
            (Object::Integer(a), Object::Integer(b)) => match (*a).checked_mul(*b) {
                Some(c) => Ok(Object::Integer(c)),
                None => Err(op_msg("Integer overflow in ", op.as_str(), " operator")),
            },
            _ => Err(type_err_msg(op, l, r)),
        }
    } else if sym_eq(op, "/") {
        match (l, r) {
            (Object::Integer(a), Object::Integer(b)) => if *b == 0 {
                Err(String::from_str("Division by zero"))
            } else {
                match (*a).checked_div(*b) {
                    Some(c) => Ok(Object::Integer(c)),
                    None => Err(op_msg("Integer overflow in ", op.as_str(), " operator")),
                }
            },
            _ => Err(type_err_msg(op, l, r)),
        }
    } else if sym_eq(op, "<") {
        match (l, r) {
            (Object::Integer(a), Object::Integer(b)) => Ok(Object::Bool(*a < *b)),
            _ => Err(type_err_msg(op, l, r)),
        }
    } else if sym_eq(op, ">") {
        match (l, r) {
            (Object::Integer(a), Object::Integer(b)) => Ok(Object::Bool(*a > *b)),
            _ => Err(type_err_msg(op, l, r)),
        }
    } else if sym_eq(op, "=") {
        match (l, r) {
            (Object::Integer(a), Object::Integer(b)) => Ok(Object::Bool(*a == *b)),
            _ => Err(type_err_msg(op, l, r)),
        }
    } else if sym_eq(op, "!=") {
        match (l, r) {
            (Object::Integer(a), Object::Integer(b)) => Ok(Object::Bool(*a != *b)),
            _ => Err(type_err_msg(op, l, r)),
        }
    } else {
        Err(msg_concat("Invalid infix operator: ", op.as_str()))
    }
}

/// A binary operator form: both operands evaluated, left first, then the
/// operator applied.
fn eval_binary_op(list: &Vec<Object>, env: &mut Env, fuel: u64) -> (r: Result<Object, String>)
    requires
        old(env).wf(),
    ensures
        final(env).wf(),
        final(env)@ == sp_binary(views_of(list@), old(env)@, fuel as nat).env,
        res_match(r, sp_binary(views_of(list@), old(env)@, fuel as nat).res),
    decreases fuel, 1int, 0int,
{
    let ghost items = views_of(list@);
    if list.len() != 3 {
        return Err(String::from_str("Invalid number of arguments for infix operator"));
    }
    proof {
        assert(items[1] == list@[1]@);
        assert(items[2] == list@[2]@);
        assert(items[0] == list@[0]@);
    }
    let left = match eval_obj(&list[1], env, fuel) {
        Ok(v) => v,
        Err(e) => {
            return Err(e);
        },
    };
    let right = match eval_obj(&list[2], env, fuel) {
        Ok(v) => v,
        Err(e) => {
            return Err(e);
        },
    };
    match &list[0] {
        Object::Symbol(op) => apply_binop(op, &left, &right),
        _ => Err(String::from_str("Operator must be a symbol")),
    }
}

/// A `define` form: evaluates the value expression and binds the result in
/// the current frame.
fn eval_define(list: &Vec<Object>, env: &mut Env, fuel: u64) -> (r: Result<Object, String>)
    requires
        old(env).wf(),
    ensures
        final(env).wf(),
        final(env)@ == sp_define(views_of(list@), old(env)@, fuel as nat).env,
        res_match(r, sp_define(views_of(list@), old(env)@, fuel as nat).res),
    decreases fuel, 1int, 0int,
{
    let ghost items = views_of(list@);
    if list.len() != 3 {
        return Err(String::from_str("Invalid number of arguments for define"));
    }
    proof {
        assert(items[1] == list@[1]@);
        assert(items[2] == list@[2]@);
    }
    match &list[1] {
        Object::Symbol(name) => {
            let v = match eval_obj(&list[2], env, fuel) {
                Ok(v) => v,
                Err(e) => {
                    return Err(e);
                },
            };
            proof {
                lemma_frames_eval(items[2], old(env)@, fuel as nat);
            }
            env.set(name.as_str(), v);
            Ok(Object::Void)
        },
        _ => Err(String::from_str("Invalid define")),
    }
}

/// An `if` form: the condition must yield a boolean; exactly one branch is
/// evaluated.
fn eval_if(list: &Vec<Object>, env: &mut Env, fuel: u64) -> (r: Result<Object, String>)
    requires
        old(env).wf(),
    ensures
        final(env).wf(),
        final(env)@ == sp_if(views_of(list@), old(env)@, fuel as nat).env,
        res_match(r, sp_if(views_of(list@), old(env)@, fuel as nat).res),
    decreases fuel, 1int, 0int,
{
    let ghost items = views_of(list@);
    if list.len() != 4 {
        return Err(String::from_str("Invalid number of arguments for if statement"));
    }
    proof {
        assert(items[1] == list@[1]@);
        assert(items[2] == list@[2]@);
        assert(items[3] == list@[3]@);
    }
    let cond = match eval_obj(&list[1], env, fuel) {
        Ok(v) => v,
        Err(e) => {
            return Err(e);
        },
    };
    match cond {
        Object::Bool(b) => if b {
            eval_obj(&list[2], env, fuel)
        } else {
            eval_obj(&list[3], env, fuel)
        },
        _ => Err(String::from_str("Condition must be a boolean")),
    }
}

/// A `lambda` form: collects the parameter names and keeps the body
/// unevaluated.
#[verifier::loop_isolation(false)]
fn eval_function_definition(list: &Vec<Object>) -> (r: Result<Object, String>)
    ensures
        res_match(r, sp_lambda_res(views_of(list@))),
{
    let ghost items = views_of(list@);
    if list.len() != 3 {
        return Err(String::from_str("Invalid number of arguments for lambda"));
    }
    proof {
        assert(items[1] == list@[1]@);
        assert(items[2] == list@[2]@);
    }
    match &list[1] {
        Object::List(ps) => {
            let ghost psv = views_of(ps@);
            let mut params: Vec<String> = Vec::new();
            let mut k: usize = 0;
            while k < ps.len()
                invariant
                    k <= ps@.len(),
                    params@.len() == k as int,
                    forall|j: int| 0 <= j < k ==> psv[j] is Sym,
                    forall|j: int| 0 <= j < k ==> params@[j]@ == psv[j]->Sym_0,
                decreases ps@.len() - k,
            {
                proof {
                    assert(psv[k as int] == ps@[k as int]@);
                }
                match &ps[k] {
                    Object::Symbol(s) => {
                        params.push(s.clone());
                    },
                    _ => {
                        return Err(String::from_str("Invalid lambda parameter"));
                    },
                }
                k = k + 1;
            }
            match &list[2] {
                Object::List(body) => {
                    let b = objs_clone(body);
                    let lam = Object::Lambda(params, b);
                    proof {
                        let names = Seq::new(
                            psv.len(),
                            |k: int| if 0 <= k < psv.len() {
                                psv[k]->Sym_0
                            } else {
                                Seq::empty()
                            },
                        );
                        assert(names_of(params@) =~= names);
                        assert(lam@ matches Val::Lambda(pn, bv) && pn == names && bv =~= views_of(
                            body@,
                        ));
                    }
                    Ok(lam)
                },
                _ => Err(String::from_str("Invalid lambda")),
            }
        },
        _ => Err(String::from_str("Invalid lambda")),
    }
}

/// A function call: the symbol must resolve to a lambda; arguments are
/// evaluated in the caller's environment, bound in a fresh frame chained to
/// it, and the body is evaluated there; the frame is discarded afterwards.
#[verifier::loop_isolation(false)]
fn eval_function_call(s: &String, list: &Vec<Object>, env: &mut Env, fuel: u64) -> (r: Result<
    Object,
    String,
>)
    requires
        old(env).wf(),
    ensures
        final(env).wf(),
        final(env)@ == sp_call(s@, views_of(list@), old(env)@, fuel as nat).env,
        res_match(r, sp_call(s@, views_of(list@), old(env)@, fuel as nat).res),
    decreases fuel, 2int, 0int,
{
    let ghost items = views_of(list@);
    let func = match env.get(s.as_str()) {
        Some(f) => f,
        None => {
            return Err(msg_concat("Unbound symbol: ", s.as_str()));
        },
    };
    match func {
        Object::Lambda(params, body) => {
            let ghost pv = names_of(params@);
            let ghost bv = views_of(body@);
            let np = params.len();
            let mut vals: Vec<Object> = Vec::new();
            let mut k: usize = 0;
            proof {
                assert(views_of(vals@) =~= Seq::<Val>::empty());
                assert(Seq::<Val>::empty() + sp_args(
                    items,
                    0,
                    np as int,
                    old(env)@,
                    fuel as nat,
                ).res->Ok_0 =~= sp_args(items, 0, np as int, old(env)@, fuel as nat).res->Ok_0);
                assert(sp_args(items, 0, np as int, old(env)@, fuel as nat) == args_cont(
                    views_of(vals@),
                    sp_args(items, 0, np as int, old(env)@, fuel as nat),
                ));
            }
            while k < np
                invariant
                    k <= np,
                    np == params@.len(),
                    env.wf(),
                    vals@.len() == k as int,
                    sp_args(items, 0, np as int, old(env)@, fuel as nat) == args_cont(
                        views_of(vals@),
                        sp_args(items, k as int, np as int, env@, fuel as nat),
                    ),
                decreases np - k,
            {
                let ghost valsv = views_of(vals@);
                let ghost enter = env@;
                if k + 1 >= list.len() {
                    return Err(String::from_str("Invalid number of arguments for function call"));
                }
                proof {
                    assert(items[k + 1] == list@[k + 1]@);
                }
                let v = match eval_obj(&list[k + 1], env, fuel) {
                    Ok(v) => v,
                    Err(e) => {
                        return Err(e);
                    },
                };
                proof {
                    let st = sp_eval(items[k + 1], enter, fuel as nat);
                    let rest = sp_args(items, k + 1, np as int, st.env, fuel as nat);
                    assert(sp_args(items, k as int, np as int, enter, fuel as nat) == (match rest.res {
                        Err(e) => ArgsStep { res: Err(e), env: rest.env },
                        Ok(vs) => ArgsStep { res: Ok(seq![v@] + vs), env: rest.env },
                    }));
                }
                vals.push(v);
                k = k + 1;
                proof {
                    assert(views_of(vals@) =~= valsv.push(vals@.last()@));
                    let rest = sp_args(items, k as int, np as int, env@, fuel as nat);
                    match rest.res {
                        Ok(vs) => {
                            assert(valsv + (seq![vals@.last()@] + vs) =~= views_of(vals@) + vs);
                        },
                        Err(_) => {},
                    }
                }
            }
            let ghost a = sp_args(items, 0, np as int, old(env)@, fuel as nat);
            let ghost valsv = views_of(vals@);
            proof {
                assert(valsv + Seq::<Val>::empty() =~= valsv);
                assert(a.res == Ok::<Seq<Val>, Seq<char>>(valsv));
                assert(a.env == env@);
            }
            env.extend();
            let mut k2: usize = 0;
            proof {
                assert(env@.last() =~= bind_frame(pv, valsv).take(0int));
                assert(env@.drop_last() =~= a.env);
            }
            while k2 < np
                invariant
                    k2 <= np,
                    np == params@.len(),
                    np == vals@.len(),
                    env@.len() == a.env.len() + 1,
                    env@.drop_last() == a.env,
                    env@.last() == bind_frame(pv, valsv).take(k2 as int),
                decreases np - k2,
            {
                let ghost before = env@;
                let v = obj_clone(&vals[k2]);
                env.set(params[k2].as_str(), v);
                k2 = k2 + 1;
                proof {
                    assert(env@ =~~= env_define(before, params@[k2 - 1]@, vals@[k2 - 1]@));
                    assert(env@.drop_last() =~= a.env);
                    assert(env@.last() =~= bind_frame(pv, valsv).take(k2 as int));
                }
            }
            proof {
                assert(bind_frame(pv, valsv).take(np as int) =~= bind_frame(pv, valsv));
                assert(env@ =~~= a.env.push(bind_frame(pv, valsv)));
            }
            let body_list = Object::List(objs_clone(&body));
            proof {
                assert(body_list@ matches Val::List(bb) && bb =~= bv);
                lemma_frames_eval(Val::List(bv), a.env.push(bind_frame(pv, valsv)), fuel as nat);
            }
            let rr = eval_obj(&body_list, env, fuel);
            env.pop_frame();
            rr
        },
        _ => Err(msg_concat("Not a lambda: ", s.as_str())),
    }
}

/// Evaluation of a list form: dispatch on the head symbol, or sequence
/// evaluation when the head is not a symbol.
#[verifier::loop_isolation(false)]
fn eval_list(list: &Vec<Object>, env: &mut Env, fuel: u64) -> (r: Result<Object, String>)
    requires
        old(env).wf(),
    ensures
        final(env).wf(),
        final(env)@ == sp_eval_list(views_of(list@), old(env)@, fuel as nat).env,
        res_match(r, sp_eval_list(views_of(list@), old(env)@, fuel as nat).res),
    decreases fuel, 3int, 0int,
{
    let ghost items = views_of(list@);
    if list.len() == 0 {
        let r = Object::List(Vec::new());
        proof {
            assert(r@ matches Val::List(e) && e =~= Seq::<Val>::empty());
        }
        return Ok(r);
    }
    proof {
        assert(items[0] == list@[0]@);
    }
    match &list[0] {
        Object::Symbol(s) => {
            if sym_eq(s, "+") || sym_eq(s, "-") || sym_eq(s, "*") || sym_eq(s, "/") || sym_eq(
                s,
                "<",
            ) || sym_eq(s, ">") || sym_eq(s, "=") || sym_eq(s, "!=") {
                eval_binary_op(list, env, fuel)
            } else if sym_eq(s, "define") {
                eval_define(list, env, fuel)
            } else if sym_eq(s, "if") {
                eval_if(list, env, fuel)
            } else if sym_eq(s, "lambda") {
                eval_function_definition(list)
            } else {
                eval_function_call(s, list, env, fuel)
            }
        },
        _ => {
            let mut acc: Vec<Object> = Vec::new();
            let mut k: usize = 0;
            proof {
                assert(views_of(acc@) =~= Seq::<Val>::empty());
            }
            while k < list.len()
                invariant
                    k <= list@.len(),
                    env.wf(),
                    sp_eval_list(items, old(env)@, fuel as nat) == sp_seq(
                        items,
                        k as int,
                        env@,
                        fuel as nat,
                        views_of(acc@),
                    ),
                decreases list@.len() - k,
            {
                let ghost accv = views_of(acc@);
                let ghost enter = env@;
                proof {
                    assert(items[k as int] == list@[k as int]@);
                }
                let v = match eval_obj(&list[k], env, fuel) {
                    Ok(v) => v,
                    Err(e) => {
                        return Err(e);
                    },
                };
                let keep = match &v {
                    Object::Void => false,
                    _ => true,
                };
                if keep {
                    acc.push(v);
                }
                k = k + 1;
                proof {
                    if keep {
                        assert(views_of(acc@) =~= accv.push(acc@.last()@));
                    } else {
                        assert(views_of(acc@) =~= accv);
                    }
                }
            }
            let r = Object::List(acc);
            Ok(r)
        },
    }
}

/// Evaluation of one syntax-tree value against an environment, exactly as
/// `sp_eval` describes; the fuel bounds the nesting depth.
fn eval_obj(obj: &Object, env: &mut Env, fuel: u64) -> (r: Result<Object, String>)
    requires
        old(env).wf(),
    ensures
        final(env).wf(),
        final(env)@ == sp_eval(obj@, old(env)@, fuel as nat).env,
        res_match(r, sp_eval(obj@, old(env)@, fuel as nat).res),
    decreases fuel, 0int, 0int,
{
    if fuel == 0 {
        return Err(String::from_str("Recursion depth limit exceeded"));
    }
    match obj {
        Object::Void => Ok(Object::Void),
        Object::Integer(n) => Ok(Object::Integer(*n)),
        Object::Bool(b) => Ok(Object::Bool(*b)),
        Object::String(s) => Ok(Object::String(s.clone())),
        Object::Symbol(s) => eval_symbol(s, env),
        Object::Lambda(ps, body) => Ok(Object::Void),
        Object::List(items) => eval_list(items, env, fuel - 1),
    }
}

/// Evaluates a whole program text against an environment: parse, then
/// evaluate, exactly as `sp_run` describes.  Bindings made by `define`
/// persist in the environment across calls.
pub fn eval(program: &str, env: &mut Env) -> (r: Result<Object, String>)
    requires
        old(env).wf(),
    ensures
        final(env).wf(),
        final(env)@ == sp_run(program@, old(env)@).env,
        res_match(r, sp_run(program@, old(env)@).res),
{
    let parsed = match parse(program) {
        Ok(o) => o,
        Err(pe) => {
            return Err(pe.message());
        },
    };
    eval_obj(&parsed, env, EVAL_DEPTH)
}


} // verus!
