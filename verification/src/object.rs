use vstd::prelude::*;
use vstd::string::StringExecFns;

verus! {

broadcast use vstd::std_specs::vec::group_vec_axioms;

/// The mathematical shape of an `Object`: the same tree with sequences in
/// place of vectors and character sequences in place of strings.  Contracts
/// throughout the crate speak of values of this type.
pub enum Val {
    Void,
    Int(i64),
    Bool(bool),
    Str(Seq<char>),
    Sym(Seq<char>),
    List(Seq<Val>),
    Lambda(Seq<Seq<char>>, Seq<Val>),
}

/// The unified syntax-tree / runtime-value type.  A parsed program is an
/// `Object` (typically a nested `List`), and evaluating an `Object` yields
/// an `Object` again.  Float literals are not part of this value model:
/// a word that is not an integer literal is read as a symbol.
#[derive(Debug, PartialEq)]
pub enum Object {
    Void,
    Integer(i64),
    Bool(bool),
    String(String),
    Symbol(String),
    List(Vec<Object>),
    Lambda(Vec<String>, Vec<Object>),
}

/// The views of the elements of a sequence of objects.
pub open spec fn views_of(items: Seq<Object>) -> Seq<Val>
    decreases items,
{
    Seq::new(
        items.len(),
        |i: int| if 0 <= i < items.len() { items[i].view() } else { Val::Void },
    )
}

/// The views of a sequence of parameter names.
pub open spec fn names_of(params: Seq<String>) -> Seq<Seq<char>> {
    Seq::new(
        params.len(),
        |i: int| if 0 <= i < params.len() { params[i]@ } else { Seq::empty() },
    )
}

impl View for Object {
    type V = Val;

    open spec fn view(&self) -> Val
        decreases self,
    {
        match self {
            Object::Void => Val::Void,
            Object::Integer(n) => Val::Int(*n),
            Object::Bool(b) => Val::Bool(*b),
            Object::String(s) => Val::Str(s@),
            Object::Symbol(s) => Val::Sym(s@),
            Object::List(items) => Val::List(views_of(items@)),
            Object::Lambda(params, body) => Val::Lambda(names_of(params@), views_of(body@)),
        }
    }
}

/// A deep copy: the copy has the same view as the original.
#[verifier::loop_isolation(false)]
pub fn obj_clone(o: &Object) -> (r: Object)
    ensures
        r@ == o@,
    decreases o,
{
    match o {
        Object::Void => Object::Void,
        Object::Integer(n) => Object::Integer(*n),
        Object::Bool(b) => Object::Bool(*b),
        Object::String(s) => Object::String(s.clone()),
        Object::Symbol(s) => Object::Symbol(s.clone()),
        Object::List(items) => {
            proof {
                broadcast use vstd::std_specs::vec::group_vec_axioms;

                assert(decreases_to!(*o => *items));
            }
            let out = objs_clone(items);
            let r = Object::List(out);
            proof {
                assert(r@ matches Val::List(s) && s =~= views_of(items@));
            }
            r
        },
        Object::Lambda(params, body) => {
            let mut ps: Vec<String> = Vec::new();
            let mut i: usize = 0;
            while i < params.len()
                invariant
                    i <= params.len(),
                    ps@.len() == i as int,
                    forall|j: int| 0 <= j < i ==> ps@[j]@ == params@[j]@,
                decreases params.len() - i,
            {
                ps.push(params[i].clone());
                i = i + 1;
            }
            proof {
                broadcast use vstd::std_specs::vec::group_vec_axioms;

                assert(decreases_to!(*o => *body));
            }
            let bs = objs_clone(body);
            let r = Object::Lambda(ps, bs);
            proof {
                assert(r@ matches Val::Lambda(pp, bb)
                    && pp =~= names_of(params@)
                    && bb =~= views_of(body@));
            }
            r
        },
    }
}

/// A deep copy of each element of a vector of objects.
#[verifier::loop_isolation(false)]
pub fn objs_clone(items: &Vec<Object>) -> (r: Vec<Object>)
    ensures
        r@.len() == items@.len(),
        forall|j: int| 0 <= j < items@.len() ==> r@[j]@ == items@[j]@,
        views_of(r@) == views_of(items@),
    decreases items,
{
    let mut out: Vec<Object> = Vec::new();
    let mut i: usize = 0;
    while i < items.len()
        invariant
            i <= items.len(),
            out@.len() == i as int,
            forall|j: int| 0 <= j < i ==> out@[j]@ == items@[j]@,
        decreases items.len() - i,
    {
        proof {
            broadcast use vstd::std_specs::vec::group_vec_axioms;

            assert(decreases_to!(*items => items@[i as int]));
        }
        let c = obj_clone(&items[i]);
        out.push(c);
        i = i + 1;
    }
    proof {
        assert(views_of(out@) =~= views_of(items@));
    }
    out
}

pub open spec fn digit_char(d: int) -> char {
    if d == 0 {
        '0'
    } else if d == 1 {
        '1'
    } else if d == 2 {
        '2'
    } else if d == 3 {
        '3'
    } else if d == 4 {
        '4'
    } else if d == 5 {
        '5'
    } else if d == 6 {
        '6'
    } else if d == 7 {
        '7'
    } else if d == 8 {
        '8'
    } else {
        '9'
    }
}

/// The decimal digits of a nonnegative number, most significant first.
pub open spec fn dec_digits(n: int) -> Seq<char>
    decreases n,
{
    if n < 10 {
        seq![digit_char(n)]
    } else {
        dec_digits(n / 10).push(digit_char(n % 10))
    }
}

/// The decimal rendering of an integer: a minus sign for a negative one,
/// then its digits.
pub open spec fn int_text(n: int) -> Seq<char> {
    if n < 0 {
        seq!['-'] + dec_digits(-n)
    } else {
        dec_digits(n)
    }
}

/// The rendering of a value: integers in decimal, booleans as words,
/// strings and symbols as their text, a list as its elements separated by
/// single spaces between parentheses, and a lambda by its parameter names.
pub open spec fn val_text(v: Val) -> Seq<char>
    decreases v,
{
    match v {
        Val::Void => "Void"@,
        Val::Int(n) => int_text(n as int),
        Val::Bool(b) => if b {
            "true"@
        } else {
            "false"@
        },
        Val::Str(s) => s,
        Val::Sym(s) => s,
        Val::List(items) => "("@ + items_text(items) + ")"@,
        Val::Lambda(ps, body) => "Lambda("@ + names_text(ps) + ")"@,
    }
}

/// The renderings of a row of values, joined by single spaces.
pub open spec fn items_text(items: Seq<Val>) -> Seq<char>
    decreases items,
{
    if items.len() == 0 {
        Seq::empty()
    } else if items.len() == 1 {
        val_text(items[0])
    } else {
        val_text(items[0]) + " "@ + items_text(items.drop_first())
    }
}

/// A row of names joined by single spaces.
pub open spec fn names_text(ns: Seq<Seq<char>>) -> Seq<char>
    decreases ns,
{
    if ns.len() == 0 {
        Seq::empty()
    } else if ns.len() == 1 {
        ns[0]
    } else {
        ns[0] + " "@ + names_text(ns.drop_first())
    }
}

/// Appending one more rendering to a joined row.
proof fn lemma_items_text_push(u: Seq<Val>, x: Val)
    ensures
        items_text(u.push(x)) == if u.len() == 0 {
            val_text(x)
        } else {
            items_text(u) + " "@ + val_text(x)
        },
    decreases u.len(),
{
    if u.len() == 0 {
        assert(u.push(x)[0] == x);
    } else {
        assert(u.push(x).drop_first() =~= u.drop_first().push(x));
        lemma_items_text_push(u.drop_first(), x);
        if u.len() == 1 {
            assert(items_text(u) == val_text(u[0]));
        } else {
            assert((val_text(u[0]) + " "@ + items_text(u.drop_first())) + " "@ + val_text(x)
                =~= val_text(u[0]) + " "@ + (items_text(u.drop_first()) + " "@ + val_text(x)));
        }
    }
}

/// Appending one more name to a joined row.
proof fn lemma_names_text_push(u: Seq<Seq<char>>, x: Seq<char>)
    ensures
        names_text(u.push(x)) == if u.len() == 0 {
            x
        } else {
            names_text(u) + " "@ + x
        },
    decreases u.len(),
{
    if u.len() == 0 {
        assert(u.push(x)[0] == x);
    } else {
        assert(u.push(x).drop_first() =~= u.drop_first().push(x));
        lemma_names_text_push(u.drop_first(), x);
        if u.len() == 1 {
        } else {
            assert((u[0] + " "@ + names_text(u.drop_first())) + " "@ + x =~= u[0] + " "@ + (
            names_text(u.drop_first()) + " "@ + x));
        }
    }
}

/// One decimal digit as text.
fn digit_str(d: u64) -> (r: &'static str)
    requires
        d < 10,
    ensures
        r@ == seq![digit_char(d as int)],
{
    let r: &'static str = if d == 0 {
        "0"
    } else if d == 1 {
        "1"
    } else if d == 2 {
        "2"
    } else if d == 3 {
        "3"
    } else if d == 4 {
        "4"
    } else if d == 5 {
        "5"
    } else if d == 6 {
        "6"
    } else if d == 7 {
        "7"
    } else if d == 8 {
        "8"
    } else {
        "9"
    };
    proof {
        reveal_strlit("0");
        reveal_strlit("1");
        reveal_strlit("2");
        reveal_strlit("3");
        reveal_strlit("4");
        reveal_strlit("5");
        reveal_strlit("6");
        reveal_strlit("7");
        reveal_strlit("8");
        reveal_strlit("9");
        assert(r@ =~= seq![digit_char(d as int)]);
    }
    r
}

/// The decimal text of an unsigned number.
#[verifier::loop_isolation(false)]
fn u64_text(n: u64) -> (r: String)
    ensures
        r@ == dec_digits(n as int),
{
    if n == 0 {
        let r = String::from_str("0");
        proof {
            reveal_strlit("0");
            assert(r@ =~= seq![digit_char(0)]);
        }
        return r;
    }
    let mut m = n;
    let mut acc = String::new();
    proof {
        assert(dec_digits(n as int) + Seq::<char>::empty() =~= dec_digits(n as int));
    }
    while m > 0
        invariant
            dec_digits(n as int) == if m > 0 {
                dec_digits(m as int) + acc@
            } else {
                acc@
            },
            n > 0,
        decreases m,
    {
        let d = m % 10;
        let rest = m / 10;
        let lit = digit_str(d);
        proof {
            if rest > 0 {
                assert(m >= 10) by {
                    if m < 10 {
                        assert(m as int / 10 == 0);
                    }
                }
                assert(dec_digits(m as int) == dec_digits(rest as int).push(
                    digit_char(d as int),
                ));
                assert(dec_digits(rest as int).push(digit_char(d as int)) + acc@
                    =~= dec_digits(rest as int) + (seq![digit_char(d as int)] + acc@));
            } else {
                assert(m < 10) by {
                    if m >= 10 {
                        assert(m as int / 10 >= 1) by (nonlinear_arith)
                            requires
                                m >= 10,
                        ;
                    }
                }
                assert(dec_digits(m as int) == seq![digit_char(m as int)]);
                assert(seq![digit_char(d as int)] + acc@ =~= dec_digits(m as int) + acc@);
            }
        }
        acc = String::from_str(lit).concat(acc.as_str());
        m = rest;
    }
    acc
}

/// The decimal text of a signed 64-bit integer.
pub fn int_string(n: i64) -> (r: String)
    ensures
        r@ == int_text(n as int),
{
    if n >= 0 {
        let r = u64_text(n as u64);
        r
    } else {
        let mag: u64 = if n == i64::MIN {
            9223372036854775808u64
        } else {
            (-n) as u64
        };
        let digits = u64_text(mag);
        let r = String::from_str("-").concat(digits.as_str());
        proof {
            reveal_strlit("-");
            assert(r@ =~= seq!['-'] + dec_digits(-(n as int)));
        }
        r
    }
}

/// Renders a value as text, exactly as `val_text` describes.
#[verifier::loop_isolation(false)]
pub fn obj_text(o: &Object) -> (r: String)
    ensures
        r@ == val_text(o@),
    decreases o,
{
    match o {
        Object::Void => String::from_str("Void"),
        Object::Integer(n) => int_string(*n),
        Object::Bool(b) => if *b {
            String::from_str("true")
        } else {
            String::from_str("false")
        },
        Object::String(s) => s.clone(),
        Object::Symbol(s) => s.clone(),
        Object::List(items) => {
            let mut out = String::from_str("(");
            let mut i: usize = 0;
            proof {
                reveal_strlit("(");
                assert(views_of(items@).take(0int) =~= Seq::<Val>::empty());
                assert(out@ =~= "("@ + items_text(views_of(items@).take(0int)));
            }
            while i < items.len()
                invariant
                    i <= items.len(),
                    out@ == "("@ + items_text(views_of(items@).take(i as int)),
                decreases items.len() - i,
            {
                if i > 0 {
                    out = out.concat(" ");
                    proof {
                        reveal_strlit(" ");
                    }
                }
                proof {
                    broadcast use vstd::std_specs::vec::group_vec_axioms;

                    assert(decreases_to!(*o => *items));
                    assert(decreases_to!(*o => items@[i as int]));
                }
                let t = obj_text(&items[i]);
                out = out.concat(t.as_str());
                i = i + 1;
                proof {
                    let pre = views_of(items@).take(i - 1);
                    let now = views_of(items@).take(i as int);
                    assert(now =~= pre.push(items@[i - 1]@));
                    lemma_items_text_push(pre, items@[i - 1]@);
                    assert(out@ =~= "("@ + items_text(now));
                }
            }
            proof {
                assert(views_of(items@).take(items@.len() as int) =~= views_of(items@));
                reveal_strlit(")");
            }
            let r = out.concat(")");
            proof {
                assert(r@ =~= "("@ + items_text(views_of(items@)) + ")"@);
            }
            r
        },
        Object::Lambda(params, body) => {
            let mut out = String::from_str("Lambda(");
            let mut i: usize = 0;
            proof {
                reveal_strlit("Lambda(");
                assert(names_of(params@).take(0int) =~= Seq::<Seq<char>>::empty());
                assert(out@ =~= "Lambda("@ + names_text(names_of(params@).take(0int)));
            }
            while i < params.len()
                invariant
                    i <= params.len(),
                    out@ == "Lambda("@ + names_text(names_of(params@).take(i as int)),
                decreases params.len() - i,
            {
                if i > 0 {
                    out = out.concat(" ");
                    proof {
                        reveal_strlit(" ");
                    }
                }
                out = out.concat(params[i].as_str());
                i = i + 1;
                proof {
                    let pre = names_of(params@).take(i - 1);
                    let now = names_of(params@).take(i as int);
                    assert(now =~= pre.push(params@[i - 1]@));
                    lemma_names_text_push(pre, params@[i - 1]@);
                    assert(out@ =~= "Lambda("@ + names_text(now));
                }
            }
            proof {
                assert(names_of(params@).take(params@.len() as int) =~= names_of(params@));
                reveal_strlit(")");
            }
            let r = out.concat(")");
            proof {
                assert(r@ =~= "Lambda("@ + names_text(names_of(params@)) + ")"@);
            }
            r
        },
    }
}

/// True when a string equals the given literal, stated over the views.
pub fn sym_eq(s: &String, lit: &str) -> (b: bool)
    ensures
        b == (s@ == lit@),
{
    let other = String::from_str(lit);
    *s == other
}

} // verus!
