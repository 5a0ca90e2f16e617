use vstd::prelude::*;
use vstd::string::StringExecFns;

use crate::lexer::{sp_tokenize, tokenize, toks_view, Tok, Token};
use crate::object::{views_of, Object, Val};

verus! {

/// A failure of parsing: structurally invalid parenthesization, or a
/// lexical failure wrapped with its own message.
#[derive(Debug)]
pub struct ParseError {
    pub err: String,
}

impl ParseError {
    /// The full error text.
    pub fn message(&self) -> (r: String)
        ensures
            r@ == "Parse error: "@ + self.err@,
    {
        let m = String::from_str("Parse error: ");
        m.concat(self.err.as_str())
    }
}

/// Parsing the elements of an open list, starting just after its `LParen`:
/// `acc` holds the values parsed so far; the matching `RParen` closes the
/// list and the position after it is returned.  Running out of tokens with
/// the list still open is an error.
pub open spec fn sp_parse_items(toks: Seq<Tok>, i: int, acc: Seq<Val>) -> Result<
    (Val, int),
    Seq<char>,
>
    decreases toks.len() - i,
{
    if i < 0 || i >= toks.len() {
        Err("Unclosed list"@)
    } else {
        match toks[i] {
            Tok::RParen => Ok((Val::List(acc), i + 1)),
            Tok::Int(n) => sp_parse_items(toks, i + 1, acc.push(Val::Int(n))),
            Tok::Text(t) => sp_parse_items(toks, i + 1, acc.push(Val::Str(t))),
            Tok::Sym(t) => sp_parse_items(toks, i + 1, acc.push(Val::Sym(t))),
            Tok::LParen => match sp_parse_items(toks, i + 1, Seq::empty()) {
                Ok(vj) => {
                    let jraw = if vj.1 < i + 2 {
                        i + 2
                    } else {
                        vj.1
                    };
                    let j = if jraw > toks.len() {
                        toks.len() as int
                    } else {
                        jraw
                    };
                    sp_parse_items(toks, j, acc.push(vj.0))
                },
                Err(e) => Err(e),
            },
        }
    }
}

/// Parsing a token sequence: the program must be one parenthesized list at
/// the top level (a bare atom is invalid top-level input); tokens after the
/// closing parenthesis are ignored.
pub open spec fn sp_parse(toks: Seq<Tok>) -> Result<Val, Seq<char>> {
    if toks.len() == 0 || toks[0] != Tok::LParen {
        Err("Expected LParen"@)
    } else {
        match sp_parse_items(toks, 1, Seq::empty()) {
            Ok(vj) => Ok(vj.0),
            Err(e) => Err(e),
        }
    }
}

/// Parsing source text: tokenize, then parse the token sequence.
pub open spec fn sp_parse_text(s: Seq<char>) -> Result<Val, Seq<char>> {
    match sp_tokenize(s) {
        Ok(ts) => sp_parse(ts),
        Err(m) => Err("Tokenization error: "@ + m),
    }
}

/// Parses the elements of one open list, mirroring `sp_parse_items`.
#[verifier::loop_isolation(false)]
fn parse_items(toks: &Vec<Token>, start: usize) -> (r: Result<(Object, usize), ParseError>)
    requires
        start <= toks@.len(),
    ensures
        match r {
            Ok(oj) => sp_parse_items(toks_view(toks@), start as int, Seq::empty())
                == Ok::<_, Seq<char>>((oj.0@, oj.1 as int)) && start < oj.1 <= toks@.len(),
            Err(e) => sp_parse_items(toks_view(toks@), start as int, Seq::empty())
                == Err::<(Val, int), _>(e.err@),
        },
    decreases toks@.len() - start,
{
    let ghost t = toks_view(toks@);
    let mut acc: Vec<Object> = Vec::new();
    let mut i: usize = start;
    proof {
        assert(views_of(acc@) =~= Seq::<Val>::empty());
    }
    while i < toks.len()
        invariant
            start <= i <= toks@.len(),
            sp_parse_items(t, start as int, Seq::empty()) == sp_parse_items(
                t,
                i as int,
                views_of(acc@),
            ),
        decreases toks@.len() - i,
    {
        let ghost accv = views_of(acc@);
        match &toks[i] {
            Token::RParen => {
                let r = Object::List(acc);
                proof {
                    assert(r@ == Val::List(accv));
                }
                return Ok((r, i + 1));
            },
            Token::Integer(n) => {
                acc.push(Object::Integer(*n));
                i = i + 1;
                proof {
                    assert(views_of(acc@) =~= accv.push(Val::Int(t[i - 1]->Int_0)));
                }
            },
            Token::String(s) => {
                acc.push(Object::String(s.clone()));
                i = i + 1;
                proof {
                    assert(views_of(acc@) =~= accv.push(Val::Str(t[i - 1]->Text_0)));
                }
            },
            Token::Symbol(s) => {
                acc.push(Object::Symbol(s.clone()));
                i = i + 1;
                proof {
                    assert(views_of(acc@) =~= accv.push(Val::Sym(t[i - 1]->Sym_0)));
                }
            },
            Token::LParen => {
                match parse_items(toks, i + 1) {
                    Ok((o, j)) => {
                        proof {
                            assert(sp_parse_items(t, i as int, accv) == sp_parse_items(
                                t,
                                j as int,
                                accv.push(o@),
                            ));
                        }
                        acc.push(o);
                        i = j;
                        proof {
                            assert(views_of(acc@) =~= accv.push(acc@.last()@));
                        }
                    },
                    Err(e) => {
                        return Err(e);
                    },
                }
            },
        }
    }
    Err(ParseError { err: String::from_str("Unclosed list") })
}

/// Parses source text into a single `Object`, tokenizing first and then
/// descending the token sequence, exactly as `sp_parse_text` describes.
pub fn parse(program: &str) -> (r: Result<Object, ParseError>)
    ensures
        match r {
            Ok(o) => sp_parse_text(program@) == Ok::<_, Seq<char>>(o@),
            Err(e) => sp_parse_text(program@) == Err::<Val, _>(e.err@),
        },
{
    let toks = match tokenize(program) {
        Ok(ts) => ts,
        Err(te) => {
            return Err(ParseError { err: te.message() });
        },
    };
    let fits = if toks.len() == 0 {
        false
    } else {
        match &toks[0] {
            Token::LParen => true,
            _ => false,
        }
    };
    if !fits {
        return Err(ParseError { err: String::from_str("Expected LParen") });
    }
    match parse_items(&toks, 1) {
        Ok((o, _)) => Ok(o),
        Err(e) => Err(e),
    }
}

} // verus!
