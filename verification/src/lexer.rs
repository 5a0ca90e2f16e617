use vstd::prelude::*;
use vstd::string::{StrSliceExecFns, StringExecFns};

verus! {

/// The mathematical shape of a token.
pub enum Tok {
    Int(i64),
    Text(Seq<char>),
    Sym(Seq<char>),
    LParen,
    RParen,
}

/// One lexical token.  A word that parses fully as a signed 64-bit integer
/// literal is an `Integer`; any other word is a `Symbol`.  A double-quoted
/// run of characters (no escape processing) is a `String`.
#[derive(Debug, PartialEq)]
pub enum Token {
    Integer(i64),
    String(String),
    Symbol(String),
    LParen,
    RParen,
}

impl View for Token {
    type V = Tok;

    open spec fn view(&self) -> Tok {
        match self {
            Token::Integer(n) => Tok::Int(*n),
            Token::String(s) => Tok::Text(s@),
            Token::Symbol(s) => Tok::Sym(s@),
            Token::LParen => Tok::LParen,
            Token::RParen => Tok::RParen,
        }
    }
}

/// The views of a sequence of tokens.
pub open spec fn toks_view(ts: Seq<Token>) -> Seq<Tok> {
    Seq::new(ts.len(), |i: int| if 0 <= i < ts.len() { ts[i]@ } else { Tok::LParen })
}

/// A failure of tokenization; the only case is an unterminated string
/// literal, whose partial text the message names.
#[derive(Debug)]
pub struct TokenError {
    pub err: String,
}

impl TokenError {
    /// The full error text.
    pub fn message(&self) -> (r: String)
        ensures
            r@ == "Tokenization error: "@ + self.err@,
    {
        let m = String::from_str("Tokenization error: ");
        m.concat(self.err.as_str())
    }
}

/// The characters with the Unicode `White_Space` property, which is what
/// `char::is_whitespace` tests.
pub open spec fn is_ws(c: char) -> bool {
    c == ' ' || c == '\t' || c == '\n' || c == '\u{b}' || c == '\u{c}' || c == '\r'
        || c == '\u{85}' || c == '\u{a0}' || c == '\u{1680}' || c == '\u{2000}'
        || c == '\u{2001}' || c == '\u{2002}' || c == '\u{2003}' || c == '\u{2004}'
        || c == '\u{2005}' || c == '\u{2006}' || c == '\u{2007}' || c == '\u{2008}'
        || c == '\u{2009}' || c == '\u{200a}' || c == '\u{2028}' || c == '\u{2029}'
        || c == '\u{202f}' || c == '\u{205f}' || c == '\u{3000}'
}

/// Whitespace test, proved equal to the `White_Space` list above.
pub fn is_ws_exec(c: char) -> (r: bool)
    ensures
        r == is_ws(c),
{
    c == ' ' || c == '\t' || c == '\n' || c == '\u{b}' || c == '\u{c}' || c == '\r'
        || c == '\u{85}' || c == '\u{a0}' || c == '\u{1680}' || c == '\u{2000}'
        || c == '\u{2001}' || c == '\u{2002}' || c == '\u{2003}' || c == '\u{2004}'
        || c == '\u{2005}' || c == '\u{2006}' || c == '\u{2007}' || c == '\u{2008}'
        || c == '\u{2009}' || c == '\u{200a}' || c == '\u{2028}' || c == '\u{2029}'
        || c == '\u{202f}' || c == '\u{205f}' || c == '\u{3000}'
}

/// A character that ends a word: whitespace or a parenthesis.
pub open spec fn is_boundary(c: char) -> bool {
    is_ws(c) || c == '(' || c == ')'
}

pub open spec fn is_digit(c: char) -> bool {
    48 <= c as int && c as int <= 57
}

pub open spec fn digit_val(c: char) -> int {
    c as int - 48
}

/// The value of a run of decimal digits, most significant first.
pub open spec fn digits_val(s: Seq<char>) -> int
    decreases s.len(),
{
    if s.len() == 0 {
        0
    } else {
        digits_val(s.drop_last()) * 10 + digit_val(s.last())
    }
}

pub open spec fn all_digits(s: Seq<char>) -> bool {
    forall|k: int| 0 <= k < s.len() ==> is_digit(s[k])
}

/// The digit part of an integer word: everything after an optional sign.
pub open spec fn int_core(w: Seq<char>) -> Seq<char> {
    if w.len() > 0 && (w[0] == '+' || w[0] == '-') {
        w.drop_first()
    } else {
        w
    }
}

pub open spec fn int_sign(w: Seq<char>) -> int {
    if w.len() > 0 && w[0] == '-' {
        -1
    } else {
        1
    }
}

/// Whether a word parses fully as a signed 64-bit integer literal:
/// an optional sign, at least one digit, and a value within range.
pub open spec fn is_i64_lit(w: Seq<char>) -> bool {
    let c = int_core(w);
    c.len() > 0 && all_digits(c) && i64::MIN <= int_sign(w) * digits_val(c) <= i64::MAX
}

pub open spec fn i64_lit_val(w: Seq<char>) -> int {
    int_sign(w) * digits_val(int_core(w))
}

/// The token a word turns into.
pub open spec fn classify_word(w: Seq<char>) -> Tok {
    if is_i64_lit(w) {
        Tok::Int(i64_lit_val(w) as i64)
    } else {
        Tok::Sym(w)
    }
}

pub open spec fn lex_cons(t: Tok, rest: Result<Seq<Tok>, Seq<char>>) -> Result<
    Seq<Tok>,
    Seq<char>,
> {
    match rest {
        Ok(ts) => Ok(seq![t] + ts),
        Err(e) => Err(e),
    }
}

pub open spec fn lex_app(pre: Seq<Tok>, rest: Result<Seq<Tok>, Seq<char>>) -> Result<
    Seq<Tok>,
    Seq<char>,
> {
    match rest {
        Ok(ts) => Ok(pre + ts),
        Err(e) => Err(e),
    }
}

/// The token sequence of the input from position `i` on: parentheses are
/// single-character tokens, a double quote opens a string literal read
/// verbatim to the matching quote, whitespace separates tokens, and any
/// other run of characters is a word classified as integer or symbol.
pub open spec fn sp_lex(s: Seq<char>, i: int) -> Result<Seq<Tok>, Seq<char>>
    decreases s.len() - i, 0int,
{
    if i < 0 || i >= s.len() {
        Ok(Seq::empty())
    } else if s[i] == '(' {
        lex_cons(Tok::LParen, sp_lex(s, i + 1))
    } else if s[i] == ')' {
        lex_cons(Tok::RParen, sp_lex(s, i + 1))
    } else if s[i] == '"' {
        sp_lex_str(s, i + 1, Seq::empty())
    } else if is_ws(s[i]) {
        sp_lex(s, i + 1)
    } else {
        sp_lex_word(s, i + 1, seq![s[i]])
    }
}

/// Reading a string literal: `acc` is the text read so far.
pub open spec fn sp_lex_str(s: Seq<char>, j: int, acc: Seq<char>) -> Result<Seq<Tok>, Seq<char>>
    decreases s.len() - j, 1int,
{
    if j < 0 || j >= s.len() {
        Err("Unterminated string: "@ + acc)
    } else if s[j] == '"' {
        lex_cons(Tok::Text(acc), sp_lex(s, j + 1))
    } else {
        sp_lex_str(s, j + 1, acc.push(s[j]))
    }
}

/// Reading a word: `acc` is the word so far; a boundary or the end of the
/// input closes the word.
pub open spec fn sp_lex_word(s: Seq<char>, j: int, acc: Seq<char>) -> Result<Seq<Tok>, Seq<char>>
    decreases s.len() - j, 1int,
{
    if j < 0 || j >= s.len() || is_boundary(s[j]) {
        lex_cons(classify_word(acc), sp_lex(s, j))
    } else {
        sp_lex_word(s, j + 1, acc.push(s[j]))
    }
}

/// The token sequence of a whole input, or the text of the lexical error.
pub open spec fn sp_tokenize(s: Seq<char>) -> Result<Seq<Tok>, Seq<char>> {
    sp_lex(s, 0)
}

proof fn lemma_digits_val_nonneg(s: Seq<char>)
    requires
        all_digits(s),
    ensures
        digits_val(s) >= 0,
    decreases s.len(),
{
    if s.len() > 0 {
        assert(all_digits(s.drop_last()));
        lemma_digits_val_nonneg(s.drop_last());
    }
}

/// Appending digits never lowers the value.
proof fn lemma_digits_val_prefix(s: Seq<char>, m: int, n: int, st: int)
    requires
        0 <= st <= m <= n <= s.len(),
        all_digits(s.subrange(st, n)),
    ensures
        digits_val(s.subrange(st, m)) <= digits_val(s.subrange(st, n)),
    decreases n - m,
{
    if m < n {
        let a = s.subrange(st, n);
        let b = s.subrange(st, n - 1);
        assert(a.drop_last() =~= b);
        assert(all_digits(b));
        lemma_digits_val_nonneg(b);
        assert(digits_val(a) == digits_val(b) * 10 + digit_val(a.last()));
        lemma_digits_val_prefix(s, m, n - 1, st);
    }
}

/// Reading a string literal across a quote-free stretch accumulates exactly
/// that stretch.
proof fn lemma_lex_str_adv(s: Seq<char>, a: int, b: int, acc: Seq<char>)
    requires
        0 <= a <= b <= s.len(),
        forall|k: int| a <= k < b ==> s[k] != '"',
    ensures
        sp_lex_str(s, a, acc) == sp_lex_str(s, b, acc + s.subrange(a, b)),
    decreases b - a,
{
    if a == b {
        assert(acc + s.subrange(a, b) =~= acc);
    } else {
        assert(sp_lex_str(s, a, acc) == sp_lex_str(s, a + 1, acc.push(s[a])));
        lemma_lex_str_adv(s, a + 1, b, acc.push(s[a]));
        assert(acc.push(s[a]) + s.subrange(a + 1, b) =~= acc + s.subrange(a, b));
    }
}

/// Reading a word across a boundary-free stretch accumulates exactly that
/// stretch.
proof fn lemma_lex_word_adv(s: Seq<char>, a: int, b: int, acc: Seq<char>)
    requires
        0 <= a <= b <= s.len(),
        forall|k: int| a <= k < b ==> !is_boundary(s[k]),
    ensures
        sp_lex_word(s, a, acc) == sp_lex_word(s, b, acc + s.subrange(a, b)),
    decreases b - a,
{
    if a == b {
        assert(acc + s.subrange(a, b) =~= acc);
    } else {
        assert(sp_lex_word(s, a, acc) == sp_lex_word(s, a + 1, acc.push(s[a])));
        lemma_lex_word_adv(s, a + 1, b, acc.push(s[a]));
        assert(acc.push(s[a]) + s.subrange(a + 1, b) =~= acc + s.subrange(a, b));
    }
}

/// Parses a whole word as a signed 64-bit integer literal.
#[verifier::loop_isolation(false)]
fn parse_i64_word(w: &str) -> (r: Option<i64>)
    ensures
        match r {
            Some(v) => is_i64_lit(w@) && v as int == i64_lit_val(w@),
            None => !is_i64_lit(w@),
        },
{
    let n = w.unicode_len();
    let mut st: usize = 0;
    let mut neg: bool = false;
    if n > 0 {
        let c0 = w.get_char(0);
        if c0 == '+' {
            st = 1;
        } else if c0 == '-' {
            st = 1;
            neg = true;
        }
    }
    proof {
        assert(int_core(w@) =~= w@.subrange(st as int, n as int));
    }
    if n == st {
        return None;
    }
    let mut k: usize = st;
    let mut acc: u64 = 0;
    while k < n
        invariant
            st <= k <= n,
            all_digits(w@.subrange(st as int, k as int)),
            acc as int == digits_val(w@.subrange(st as int, k as int)),
        decreases n - k,
    {
        let c = w.get_char(k);
        let cu = c as u32;
        if cu < 48 || cu > 57 {
            proof {
                assert(!is_digit(w@[k as int]));
                assert(int_core(w@)[k - st] == w@[k as int]);
                assert(!all_digits(int_core(w@)));
            }
            return None;
        }
        let d = (cu - 48) as u64;
        proof {
            assert(w@.subrange(st as int, k + 1).drop_last() =~= w@.subrange(
                st as int,
                k as int,
            ));
            assert(all_digits(w@.subrange(st as int, k + 1)));
        }
        let m = match acc.checked_mul(10) {
            Some(m) => m,
            None => {
                proof {
                    lemma_overflowing_word(w@, st as int, k as int, n as int, acc as int, digit_val(w@[k as int]));
                    assert(!is_i64_lit(w@));
                }
                return None;
            },
        };
        let a2 = match m.checked_add(d) {
            Some(a2) => a2,
            None => {
                proof {
                    lemma_overflowing_word(w@, st as int, k as int, n as int, acc as int, digit_val(w@[k as int]));
                    assert(!is_i64_lit(w@));
                }
                return None;
            },
        };
        acc = a2;
        k = k + 1;
    }
    proof {
        assert(w@.subrange(st as int, n as int) =~= int_core(w@));
        lemma_digits_val_nonneg(int_core(w@));
    }
    if neg {
        if acc > 9223372036854775808u64 {
            return None;
        }
        if acc == 9223372036854775808u64 {
            Some(i64::MIN)
        } else {
            Some(-(acc as i64))
        }
    } else {
        if acc > 9223372036854775807u64 {
            return None;
        }
        Some(acc as i64)
    }
}

/// When one more digit would overflow a 64-bit accumulator, the whole digit
/// run is out of range for a signed 64-bit integer.
proof fn lemma_overflowing_word(s: Seq<char>, st: int, k: int, n: int, acc: int, d: int)
    requires
        0 <= st <= k < n <= s.len(),
        all_digits(s.subrange(st, k + 1)),
        acc == digits_val(s.subrange(st, k)),
        d == digit_val(s[k]),
        acc * 10 + d > u64::MAX,
    ensures
        all_digits(s.subrange(st, n)) ==> !(i64::MIN <= digits_val(s.subrange(st, n))
            <= i64::MAX),
        all_digits(s.subrange(st, n)) ==> !(i64::MIN <= -digits_val(s.subrange(st, n))
            <= i64::MAX),
{
    if all_digits(s.subrange(st, n)) {
        assert(s.subrange(st, k + 1).drop_last() =~= s.subrange(st, k));
        assert(digits_val(s.subrange(st, k + 1)) == acc * 10 + d);
        lemma_digits_val_prefix(s, k + 1, n, st);
    }
}

/// Converts source text to its token sequence by a single left-to-right
/// scan, exactly as `sp_tokenize` describes; the only failure is an
/// unterminated string literal.
#[verifier::loop_isolation(false)]
pub fn tokenize(input: &str) -> (r: Result<Vec<Token>, TokenError>)
    ensures
        match r {
            Ok(toks) => sp_tokenize(input@) == Ok::<_, Seq<char>>(toks_view(toks@)),
            Err(e) => sp_tokenize(input@) == Err::<Seq<Tok>, _>(e.err@),
        },
{
    let n = input.unicode_len();
    let mut toks: Vec<Token> = Vec::new();
    let mut i: usize = 0;
    while i < n
        invariant
            i <= n,
            sp_lex(input@, 0) == lex_app(toks_view(toks@), sp_lex(input@, i as int)),
        decreases n - i,
    {
        let ghost pre = toks_view(toks@);
        let c = input.get_char(i);
        if c == '(' {
            toks.push(Token::LParen);
            i = i + 1;
            proof {
                lemma_push_step(pre, Tok::LParen, sp_lex(input@, i as int));
                assert(toks_view(toks@) =~= pre.push(Tok::LParen));
            }
        } else if c == ')' {
            toks.push(Token::RParen);
            i = i + 1;
            proof {
                lemma_push_step(pre, Tok::RParen, sp_lex(input@, i as int));
                assert(toks_view(toks@) =~= pre.push(Tok::RParen));
            }
        } else if c == '"' {
            let mut j: usize = i + 1;
            let mut found: bool = false;
            while j < n && !found
                invariant
                    i + 1 <= j <= n,
                    forall|k: int| i + 1 <= k < j ==> input@[k] != '"',
                    found ==> j < n && input@[j as int] == '"',
                decreases n - j, (if found { 0int } else { 1int }),
            {
                let c2 = input.get_char(j);
                if c2 == '"' {
                    found = true;
                } else {
                    j = j + 1;
                }
            }
            proof {
                lemma_lex_str_adv(input@, i + 1, j as int, Seq::empty());
                assert(Seq::<char>::empty() + input@.subrange(i + 1, j as int) =~= input@.subrange(
                    i + 1,
                    j as int,
                ));
            }
            let word = input.substring_char(i + 1, j);
            if found {
                toks.push(Token::String(String::from_str(word)));
                i = j + 1;
                proof {
                    lemma_push_step(pre, Tok::Text(word@), sp_lex(input@, i as int));
                    assert(toks_view(toks@) =~= pre.push(Tok::Text(word@)));
                }
            } else {
                let m = String::from_str("Unterminated string: ");
                return Err(TokenError { err: m.concat(word) });
            }
        } else if is_ws_exec(c) {
            i = i + 1;
        } else {
            let mut j: usize = i + 1;
            let mut stop: bool = false;
            while j < n && !stop
                invariant
                    i + 1 <= j <= n,
                    forall|k: int| i + 1 <= k < j ==> !is_boundary(input@[k]),
                    stop ==> j < n && is_boundary(input@[j as int]),
                decreases n - j, (if stop { 0int } else { 1int }),
            {
                let c2 = input.get_char(j);
                if is_ws_exec(c2) || c2 == '(' || c2 == ')' {
                    stop = true;
                } else {
                    j = j + 1;
                }
            }
            proof {
                lemma_lex_word_adv(input@, i + 1, j as int, seq![input@[i as int]]);
                assert(seq![input@[i as int]] + input@.subrange(i + 1, j as int) =~= input@.subrange(
                    i as int,
                    j as int,
                ));
            }
            let word = input.substring_char(i, j);
            let tok = match parse_i64_word(word) {
                Some(v) => Token::Integer(v),
                None => Token::Symbol(String::from_str(word)),
            };
            proof {
                assert(tok@ == classify_word(word@));
            }
            let ghost t = tok@;
            toks.push(tok);
            i = j;
            proof {
                lemma_push_step(pre, t, sp_lex(input@, i as int));
                assert(toks_view(toks@) =~= pre.push(t));
            }
        }
    }
    proof {
        assert(sp_lex(input@, n as int) == Ok::<Seq<Tok>, Seq<char>>(Seq::empty()));
        assert(toks_view(toks@) + Seq::<Tok>::empty() =~= toks_view(toks@));
    }
    Ok(toks)
}

/// Absorbing one token into the prefix of an accumulation.
proof fn lemma_push_step(pre: Seq<Tok>, t: Tok, rest: Result<Seq<Tok>, Seq<char>>)
    ensures
        lex_app(pre, lex_cons(t, rest)) == lex_app(pre.push(t), rest),
{
    match rest {
        Ok(ts) => {
            assert(pre + (seq![t] + ts) =~= pre.push(t) + ts);
        },
        Err(_) => {},
    }
}

} // verus!
