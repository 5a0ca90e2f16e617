use vstd::prelude::*;

use crate::env::env_lookup;
use crate::eval::{is_binop_sym, sp_apply_binop, sp_binary, sp_eval, sp_eval_list, sp_if, type_err, Step};
use vstd::arithmetic::div_mod::{lemma_div_is_ordered_by_denominator, lemma_div_nonincreasing, lemma_div_pos_is_pos};
use crate::object::Val;

verus! {

/// Law: dividing one 64-bit integer by another nonzero one evaluates to
/// exactly the native truncating integer division of the two (the one
/// excluded pair is the minimum value divided by minus one, whose native
/// quotient does not fit in 64 bits), and leaves the environment untouched.
pub proof fn lemma_integer_division(
    a: i64,
    b: i64,
    env: Seq<Seq<(Seq<char>, Val)>>,
    fuel: nat,
)
    requires
        env.len() >= 1,
        fuel >= 2,
        b != 0,
        !(a == i64::MIN && b == -1),
    ensures
        ({
            let s = sp_eval(Val::List(seq![Val::Sym("/"@), Val::Int(a), Val::Int(b)]), env, fuel);
            &&& s.env == env
            &&& a.checked_div(b) matches Some(q) && s.res == Ok::<Val, Seq<char>>(Val::Int(q))
        }),
{
    reveal_strlit("/");
    reveal_strlit("+");
    reveal_strlit("-");
    reveal_strlit("*");
    let items = seq![Val::Sym("/"@), Val::Int(a), Val::Int(b)];
    assert(items.len() == 3);
    assert(items[0] == Val::Sym("/"@));
    assert(is_binop_sym("/"@));
    let f1 = (fuel - 1) as nat;
    assert(sp_eval(Val::List(items), env, fuel) == sp_eval_list(items, env, f1));
    assert(sp_eval_list(items, env, f1) == sp_binary(items, env, f1));
    let s1 = sp_eval(items[1], env, f1);
    let s2 = sp_eval(items[2], env, f1);
    assert(s1 == (Step { res: Ok(Val::Int(a)), env }));
    assert(s2 == (Step { res: Ok(Val::Int(b)), env }));
    assert("/"@ != "+"@) by {
        assert("+"@[0] == '+');
        assert("/"@[0] == '/');
    }
    assert("/"@ != "-"@) by {
        assert("-"@[0] == '-');
        assert("/"@[0] == '/');
    }
    assert("/"@ != "*"@) by {
        assert("*"@[0] == '*');
        assert("/"@[0] == '/');
    }
    let x = a as int;
    let d = b as int;
    if x == 0 {
    } else if x > 0 && d > 0 {
        lemma_div_pos_is_pos(x, d);
        lemma_div_nonincreasing(x, d);
    } else if x < 0 && d < 0 {
        let xx = x * -1;
        let dd = d * -1;
        lemma_div_pos_is_pos(xx, dd);
        if a == i64::MIN {
            lemma_div_is_ordered_by_denominator(xx, 2, dd);
            assert(9223372036854775808int / 2 == 4611686018427387904int);
        } else {
            lemma_div_nonincreasing(xx, dd);
        }
    } else if x < 0 {
        let xx = x * -1;
        lemma_div_pos_is_pos(xx, d);
        lemma_div_nonincreasing(xx, d);
    } else {
        let dd = d * -1;
        lemma_div_pos_is_pos(x, dd);
        lemma_div_nonincreasing(x, dd);
    }
    assert(a.checked_div(b) is Some);
    assert(sp_binary(items, env, f1) == (Step {
        res: sp_apply_binop("/"@, Val::Int(a), Val::Int(b)),
        env,
    }));
}

/// Facts that tell the `if` keyword apart from every other head symbol.
proof fn lemma_if_sym_distinct()
    ensures
        !is_binop_sym("if"@),
        "if"@ != "define"@,
{
    reveal_strlit("/");
    reveal_strlit("+");
    reveal_strlit("-");
    reveal_strlit("*");
    reveal_strlit("<");
    reveal_strlit(">");
    reveal_strlit("=");
    reveal_strlit("!=");
    reveal_strlit("define");
    reveal_strlit("if");
    assert("if"@.len() == 2);
    assert("+"@.len() == 1);
    assert("-"@.len() == 1);
    assert("*"@.len() == 1);
    assert("/"@.len() == 1);
    assert("<"@.len() == 1);
    assert(">"@.len() == 1);
    assert("="@.len() == 1);
    assert("!="@[0] == '!');
    assert("if"@[0] == 'i');
    assert("define"@.len() == 6);
}

/// Law: `+` on two strings concatenates them, and `-` on two strings is a
/// type error, whatever the strings are.
pub proof fn lemma_string_operators(x: Seq<char>, y: Seq<char>)
    ensures
        sp_apply_binop("+"@, Val::Str(x), Val::Str(y)) == Ok::<Val, Seq<char>>(Val::Str(x + y)),
        sp_apply_binop("-"@, Val::Str(x), Val::Str(y)) == Err::<Val, Seq<char>>(
            type_err("-"@, Val::Str(x), Val::Str(y)),
        ),
{
    reveal_strlit("+");
    reveal_strlit("-");
    assert("-"@ != "+"@) by {
        assert("+"@[0] == '+');
        assert("-"@[0] == '-');
    }
}

/// Law: when the condition of an `if` form evaluates to true, the whole
/// form evaluates exactly as its then-branch does in the environment the
/// condition left behind — the else-branch never takes part, whatever it
/// is.
pub proof fn lemma_if_true(c: Val, t: Val, e: Val, env: Seq<Seq<(Seq<char>, Val)>>, fuel: nat)
    requires
        fuel >= 2,
        sp_eval(c, env, (fuel - 1) as nat).res == Ok::<Val, Seq<char>>(Val::Bool(true)),
    ensures
        sp_eval(Val::List(seq![Val::Sym("if"@), c, t, e]), env, fuel) == sp_eval(
            t,
            sp_eval(c, env, (fuel - 1) as nat).env,
            (fuel - 1) as nat,
        ),
{
    lemma_if_sym_distinct();
    let items = seq![Val::Sym("if"@), c, t, e];
    assert(items.len() == 4);
    assert(items[0] == Val::Sym("if"@));
    assert(items[1] == c && items[2] == t && items[3] == e);
    let f1 = (fuel - 1) as nat;
    assert(sp_eval(Val::List(items), env, fuel) == sp_eval_list(items, env, f1));
    assert(sp_eval_list(items, env, f1) == sp_if(items, env, f1));
    let cs = sp_eval(c, env, f1);
    assert(sp_if(items, env, f1) == sp_eval(t, cs.env, f1));
}

/// Law: when the condition of an `if` form evaluates to false, the whole
/// form evaluates exactly as its else-branch does in the environment the
/// condition left behind — the then-branch never takes part, whatever it
/// is.
pub proof fn lemma_if_false(c: Val, t: Val, e: Val, env: Seq<Seq<(Seq<char>, Val)>>, fuel: nat)
    requires
        fuel >= 2,
        sp_eval(c, env, (fuel - 1) as nat).res == Ok::<Val, Seq<char>>(Val::Bool(false)),
    ensures
        sp_eval(Val::List(seq![Val::Sym("if"@), c, t, e]), env, fuel) == sp_eval(
            e,
            sp_eval(c, env, (fuel - 1) as nat).env,
            (fuel - 1) as nat,
        ),
{
    lemma_if_sym_distinct();
    let items = seq![Val::Sym("if"@), c, t, e];
    assert(items.len() == 4);
    assert(items[0] == Val::Sym("if"@));
    assert(items[1] == c && items[2] == t && items[3] == e);
    let f1 = (fuel - 1) as nat;
    assert(sp_eval(Val::List(items), env, fuel) == sp_eval_list(items, env, f1));
    assert(sp_eval_list(items, env, f1) == sp_if(items, env, f1));
    let cs = sp_eval(c, env, f1);
    assert(sp_if(items, env, f1) == sp_eval(e, cs.env, f1));
}

/// Law: a form whose operand is a symbol no frame binds fails with an
/// unbound-symbol error naming it, and the environment comes back exactly
/// as it was: a failed evaluation commits no partial binding.
pub proof fn lemma_unbound_operand(
    x: Seq<char>,
    n: i64,
    env: Seq<Seq<(Seq<char>, Val)>>,
    fuel: nat,
)
    requires
        fuel >= 2,
        env_lookup(env, x) is None,
    ensures
        sp_eval(Val::List(seq![Val::Sym("+"@), Val::Sym(x), Val::Int(n)]), env, fuel) == (Step {
            res: Err("Unbound symbol: "@ + x),
            env,
        }),
{
    reveal_strlit("+");
    let items = seq![Val::Sym("+"@), Val::Sym(x), Val::Int(n)];
    assert(items.len() == 3);
    assert(items[0] == Val::Sym("+"@));
    assert(is_binop_sym("+"@));
    let f1 = (fuel - 1) as nat;
    assert(sp_eval(Val::List(items), env, fuel) == sp_eval_list(items, env, f1));
    assert(sp_eval_list(items, env, f1) == sp_binary(items, env, f1));
    let s1 = sp_eval(items[1], env, f1);
    assert(s1.res == Err::<Val, Seq<char>>("Unbound symbol: "@ + x));
    assert(s1.env == env);
    assert(sp_binary(items, env, f1) == (Step { res: Err("Unbound symbol: "@ + x), env }));
}

} // verus!
