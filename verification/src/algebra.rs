//! The selection algebra: a small expression language over variant names.
//!
//! The grammar is `sum := product ("+" product)*`,
//! `product := primary ("*" primary)*`,
//! `primary := "+" ident | "*" ident | ident | "(" sum ")"`.
//! The unary forms `+tag` and `*tag` mean the sum, respectively product, of
//! all variations carrying that tag.  An expression compiles, against the
//! project's tag and variation indices, into a sum of products: the ordered
//! list of variant-name combinations to test.

use vstd::prelude::*;
use vstd::string::StrSliceExecFns;
use vstd::string::StringExecFns;

use crate::errors::Error;
use crate::syntax::comment::{ident_end, is_ident_char};
use crate::variation::strs_view;

verus! {

// ------------------------------------------------------------------
// The expression AST
// ------------------------------------------------------------------

/// Mathematical model of a selection expression.
pub enum ExprView {
    Sum(Box<ExprView>, Box<ExprView>),
    Product(Box<ExprView>, Box<ExprView>),
    USum(Seq<char>),
    UProduct(Seq<char>),
    Id(Seq<char>),
}

/// A selection expression: sums and products of variant names, tag macros
/// (`+tag`, `*tag`), and bare identifiers.
#[derive(Debug, PartialEq)]
pub enum Expr {
    Sum(Box<Expr>, Box<Expr>),
    Product(Box<Expr>, Box<Expr>),
    USum(String),
    UProduct(String),
    Id(String),
}

/// The mathematical view of an expression.
pub open spec fn expr_view(e: Expr) -> ExprView
    decreases e,
{
    match e {
        Expr::Sum(l, r) => ExprView::Sum(Box::new(expr_view(*l)), Box::new(expr_view(*r))),
        Expr::Product(l, r) => ExprView::Product(Box::new(expr_view(*l)), Box::new(expr_view(*r))),
        Expr::USum(t) => ExprView::USum(t@),
        Expr::UProduct(t) => ExprView::UProduct(t@),
        Expr::Id(id) => ExprView::Id(id@),
    }
}

impl View for Expr {
    type V = ExprView;

    open spec fn view(&self) -> ExprView {
        expr_view(*self)
    }
}

impl DeepView for Expr {
    type V = ExprView;

    open spec fn deep_view(&self) -> ExprView {
        self.view()
    }
}

// ------------------------------------------------------------------
// Tokens and the lexer
// ------------------------------------------------------------------

/// Mathematical model of a token.
pub enum TokenV {
    Plus,
    Star,
    OpenParen,
    CloseParen,
    Identifier(Seq<char>),
}

/// One token of the expression language.
#[derive(Debug, PartialEq, Clone)]
pub enum Token {
    Plus,
    Star,
    OpenParen,
    CloseParen,
    Identifier(String),
}

impl View for Token {
    type V = TokenV;

    open spec fn view(&self) -> TokenV {
        match self {
            Token::Plus => TokenV::Plus,
            Token::Star => TokenV::Star,
            Token::OpenParen => TokenV::OpenParen,
            Token::CloseParen => TokenV::CloseParen,
            Token::Identifier(s) => TokenV::Identifier(s@),
        }
    }
}

impl DeepView for Token {
    type V = TokenV;

    open spec fn deep_view(&self) -> TokenV {
        self.view()
    }
}

/// Whitespace the lexer skips.
pub open spec fn is_dsl_ws(c: char) -> bool {
    c == ' ' || c == '\t' || c == '\n'
}

/// The first position at or after `i` that is not lexer whitespace.
pub open spec fn skip_ws(s: Seq<char>, i: int) -> int
    decreases s.len() - i,
{
    if i < 0 || i >= s.len() {
        i
    } else if is_dsl_ws(s[i]) {
        skip_ws(s, i + 1)
    } else {
        i
    }
}

/// The next token at or after `i`: `None` on an unexpected character, else
/// the token (or `None` at the end of input) and the position after it.
pub open spec fn spec_next_token(s: Seq<char>, i: int) -> Option<(Option<TokenV>, int)> {
    let j = skip_ws(s, i);
    if j >= s.len() {
        Some((None, j))
    } else if s[j] == '+' {
        Some((Some(TokenV::Plus), j + 1))
    } else if s[j] == '*' {
        Some((Some(TokenV::Star), j + 1))
    } else if s[j] == '(' {
        Some((Some(TokenV::OpenParen), j + 1))
    } else if s[j] == ')' {
        Some((Some(TokenV::CloseParen), j + 1))
    } else if is_ident_char(s[j]) {
        let e = ident_end(s, j);
        Some((Some(TokenV::Identifier(s.subrange(j, e))), e))
    } else {
        None
    }
}

/// All tokens from position `i` on.
pub open spec fn spec_tokenize(s: Seq<char>, i: int) -> Option<Seq<TokenV>>
    decreases s.len() - i,
{
    match spec_next_token(s, i) {
        None => None,
        Some((None, _)) => Some(Seq::empty()),
        Some((Some(t), j)) => if i < j <= s.len() {
            match spec_tokenize(s, j) {
                None => None,
                Some(rest) => Some(seq![t] + rest),
            }
        } else {
            None
        },
    }
}

fn skip_ws_x(s: &str, i: usize) -> (r: usize)
    requires
        i <= s@.len(),
    ensures
        r == skip_ws(s@, i as int),
        i <= r <= s@.len(),
{
    let n = s.unicode_len();
    let mut j: usize = i;
    while j < n
        invariant
            i <= j <= n,
            n == s@.len(),
            skip_ws(s@, i as int) == skip_ws(s@, j as int),
        decreases n - j,
    {
        let c = s.get_char(j);
        if !(c == ' ' || c == '\t' || c == '\n') {
            return j;
        }
        j = j + 1;
    }
    j
}

/// The next token at or after `i`, or the offending position.
fn next_token_x(s: &str, i: usize) -> (r: Result<(Option<Token>, usize), usize>)
    requires
        i <= s@.len(),
    ensures
        match r {
            Ok(p) => {
                &&& spec_next_token(s@, i as int) == Some(
                    (
                        match p.0 {
                            Some(t) => Some(t@),
                            None => None,
                        },
                        p.1 as int,
                    ),
                )
                &&& i <= p.1 <= s@.len()
                &&& (p.0 is Some ==> i < p.1)
            },
            Err(_) => spec_next_token(s@, i as int) is None,
        },
{
    let n = s.unicode_len();
    let j = skip_ws_x(s, i);
    if j >= n {
        return Ok((None, j));
    }
    let c = s.get_char(j);
    if c == '+' {
        Ok((Some(Token::Plus), j + 1))
    } else if c == '*' {
        Ok((Some(Token::Star), j + 1))
    } else if c == '(' {
        Ok((Some(Token::OpenParen), j + 1))
    } else if c == ')' {
        Ok((Some(Token::CloseParen), j + 1))
    } else {
        let ic = {
            let u = c as u32;
            (97 <= u && u <= 122) || (65 <= u && u <= 90) || (48 <= u && u <= 57) || u == 95
        };
        if ic {
            let e = crate::syntax::comment::ident_end_x(s, j);
            let id = String::from_str(s.substring_char(j, e));
            proof {
                assert(c == s@[j as int]);
                assert(is_ident_char(s@[j as int]));
                crate::syntax::comment::lemma_ident_end(s@, j as int + 1);
                assert(e >= j + 1);
            }
            Ok((Some(Token::Identifier(id)), e))
        } else {
            Err(j)
        }
    }
}

/// All tokens of the input, or the position of the offending character.
fn tokenize_from(s: &str, i: usize) -> (r: Result<Vec<Token>, usize>)
    requires
        i <= s@.len(),
    ensures
        match r {
            Ok(toks) => spec_tokenize(s@, i as int) == Some(toks.deep_view()),
            Err(_) => spec_tokenize(s@, i as int) is None,
        },
    decreases s@.len() - i,
{
    match next_token_x(s, i) {
        Err(p) => Err(p),
        Ok((None, _)) => {
            let empty: Vec<Token> = Vec::new();
            proof {
                assert(empty.deep_view() =~= Seq::<TokenV>::empty());
            }
            Ok(empty)
        },
        Ok((Some(t), j)) => {
            match tokenize_from(s, j) {
                Err(p) => Err(p),
                Ok(rest) => {
                    let ghost pre_seq = rest@;
                    let ghost pre_dv = rest.deep_view();
                    let mut rest = rest;
                    rest.insert(0, t);
                    proof {
                        assert forall|w: int|
                            0 <= w < rest@.len() implies rest.deep_view()[w] == (seq![t@]
                            + pre_dv)[w] by {
                            if w > 0 {
                                assert(rest@[w] == pre_seq[w - 1]);
                            }
                        }
                        assert(rest.deep_view() =~= seq![t@] + pre_dv);
                    }
                    Ok(rest)
                },
            }
        },
    }
}

// ------------------------------------------------------------------
// The expression parser
// ------------------------------------------------------------------

/// A sum: a product followed by any number of `+ product`.
pub open spec fn spec_parse_sum(toks: Seq<TokenV>, i: int) -> Option<(ExprView, int)>
    decreases toks.len() - i, 4int,
{
    if !(0 <= i) {
        None
    } else {
        match spec_parse_product(toks, i) {
            None => None,
            Some((e, j)) => if i <= j <= toks.len() {
                spec_parse_sum_rest(toks, j, e)
            } else {
                None
            },
        }
    }
}

/// The `("+" product)*` tail of a sum, left-associated onto `acc`.
pub open spec fn spec_parse_sum_rest(toks: Seq<TokenV>, j: int, acc: ExprView) -> Option<
    (ExprView, int),
>
    decreases toks.len() - j, 3int,
{
    if 0 <= j < toks.len() && toks[j] is Plus {
        match spec_parse_product(toks, j + 1) {
            None => None,
            Some((r, k)) => if j < k <= toks.len() {
                spec_parse_sum_rest(toks, k, ExprView::Sum(Box::new(acc), Box::new(r)))
            } else {
                None
            },
        }
    } else {
        Some((acc, j))
    }
}

/// A product: a primary followed by any number of `* primary`.
pub open spec fn spec_parse_product(toks: Seq<TokenV>, i: int) -> Option<(ExprView, int)>
    decreases toks.len() - i, 2int,
{
    if !(0 <= i) {
        None
    } else {
        match spec_parse_primary(toks, i) {
            None => None,
            Some((e, j)) => if i <= j <= toks.len() {
                spec_parse_product_rest(toks, j, e)
            } else {
                None
            },
        }
    }
}

/// The `("*" primary)*` tail of a product, left-associated onto `acc`.
pub open spec fn spec_parse_product_rest(toks: Seq<TokenV>, j: int, acc: ExprView) -> Option<
    (ExprView, int),
>
    decreases toks.len() - j, 1int,
{
    if 0 <= j < toks.len() && toks[j] is Star {
        match spec_parse_primary(toks, j + 1) {
            None => None,
            Some((r, k)) => if j < k <= toks.len() {
                spec_parse_product_rest(toks, k, ExprView::Product(Box::new(acc), Box::new(r)))
            } else {
                None
            },
        }
    } else {
        Some((acc, j))
    }
}

/// A primary: `+tag`, `*tag`, an identifier, or a parenthesized sum.
pub open spec fn spec_parse_primary(toks: Seq<TokenV>, i: int) -> Option<(ExprView, int)>
    decreases toks.len() - i, 0int,
{
    if !(0 <= i < toks.len()) {
        None
    } else {
        match toks[i] {
            TokenV::Plus => if i + 1 < toks.len() && toks[i + 1] is Identifier {
                Some((ExprView::USum(toks[i + 1]->Identifier_0), i + 2))
            } else {
                None
            },
            TokenV::Star => if i + 1 < toks.len() && toks[i + 1] is Identifier {
                Some((ExprView::UProduct(toks[i + 1]->Identifier_0), i + 2))
            } else {
                None
            },
            TokenV::Identifier(id) => Some((ExprView::Id(id), i + 1)),
            TokenV::OpenParen => match spec_parse_sum(toks, i + 1) {
                None => None,
                Some((e, j)) => if 0 <= j < toks.len() && toks[j] is CloseParen {
                    Some((e, j + 1))
                } else {
                    None
                },
            },
            TokenV::CloseParen => None,
        }
    }
}

/// The expression a whole input denotes: tokens, then one sum (trailing
/// tokens are ignored, as callers historically expect).
pub open spec fn spec_parse_expr(s: Seq<char>) -> Option<ExprView> {
    match spec_tokenize(s, 0) {
        None => None,
        Some(toks) => match spec_parse_sum(toks, 0) {
            None => None,
            Some((e, _)) => Some(e),
        },
    }
}

fn parse_primary_x(toks: &Vec<Token>, i: usize) -> (r: Option<(Expr, usize)>)
    requires
        i <= toks@.len(),
    ensures
        ({
            let sp = spec_parse_primary(toks.deep_view(), i as int);
            match r {
                Some(p) => sp == Some((p.0@, p.1 as int)) && i < p.1 <= toks@.len(),
                None => sp is None,
            }
        }),
    decreases toks@.len() - i, 0int,
{
    if i >= toks.len() {
        return None;
    }
    match &toks[i] {
        Token::Plus => {
            if i + 1 < toks.len() {
                if let Token::Identifier(id) = &toks[i + 1] {
                    return Some((Expr::USum(id.clone()), i + 2));
                }
            }
            None
        },
        Token::Star => {
            if i + 1 < toks.len() {
                if let Token::Identifier(id) = &toks[i + 1] {
                    return Some((Expr::UProduct(id.clone()), i + 2));
                }
            }
            None
        },
        Token::Identifier(id) => Some((Expr::Id(id.clone()), i + 1)),
        Token::OpenParen => {
            match parse_sum_x(toks, i + 1) {
                None => None,
                Some((e, j)) => {
                    if j < toks.len() {
                        if let Token::CloseParen = &toks[j] {
                            return Some((e, j + 1));
                        }
                    }
                    None
                },
            }
        },
        Token::CloseParen => None,
    }
}

fn parse_product_rest_x(toks: &Vec<Token>, j: usize, acc: Expr) -> (r: Option<(Expr, usize)>)
    requires
        j <= toks@.len(),
    ensures
        ({
            let sp = spec_parse_product_rest(toks.deep_view(), j as int, acc@);
            match r {
                Some(p) => sp == Some((p.0@, p.1 as int)) && j <= p.1 <= toks@.len(),
                None => sp is None,
            }
        }),
    decreases toks@.len() - j, 1int,
{
    if j < toks.len() {
        if let Token::Star = &toks[j] {
            return match parse_primary_x(toks, j + 1) {
                None => None,
                Some((r, k)) => parse_product_rest_x(
                    toks,
                    k,
                    Expr::Product(Box::new(acc), Box::new(r)),
                ),
            };
        }
    }
    Some((acc, j))
}

fn parse_product_x(toks: &Vec<Token>, i: usize) -> (r: Option<(Expr, usize)>)
    requires
        i <= toks@.len(),
    ensures
        ({
            let sp = spec_parse_product(toks.deep_view(), i as int);
            match r {
                Some(p) => sp == Some((p.0@, p.1 as int)) && i < p.1 <= toks@.len(),
                None => sp is None,
            }
        }),
    decreases toks@.len() - i, 2int,
{
    match parse_primary_x(toks, i) {
        None => None,
        Some((e, j)) => parse_product_rest_x(toks, j, e),
    }
}

fn parse_sum_rest_x(toks: &Vec<Token>, j: usize, acc: Expr) -> (r: Option<(Expr, usize)>)
    requires
        j <= toks@.len(),
    ensures
        ({
            let sp = spec_parse_sum_rest(toks.deep_view(), j as int, acc@);
            match r {
                Some(p) => sp == Some((p.0@, p.1 as int)) && j <= p.1 <= toks@.len(),
                None => sp is None,
            }
        }),
    decreases toks@.len() - j, 3int,
{
    if j < toks.len() {
        if let Token::Plus = &toks[j] {
            return match parse_product_x(toks, j + 1) {
                None => None,
                Some((r, k)) => parse_sum_rest_x(toks, k, Expr::Sum(Box::new(acc), Box::new(r))),
            };
        }
    }
    Some((acc, j))
}

fn parse_sum_x(toks: &Vec<Token>, i: usize) -> (r: Option<(Expr, usize)>)
    requires
        i <= toks@.len(),
    ensures
        ({
            let sp = spec_parse_sum(toks.deep_view(), i as int);
            match r {
                Some(p) => sp == Some((p.0@, p.1 as int)) && i < p.1 <= toks@.len(),
                None => sp is None,
            }
        }),
    decreases toks@.len() - i, 4int,
{
    match parse_product_x(toks, i) {
        None => None,
        Some((e, j)) => parse_sum_rest_x(toks, j, e),
    }
}

/// The recursive-descent parser over the token stream.
pub struct Parser {
    pub tokens: Vec<Token>,
    pub pos: usize,
}

impl Parser {
    /// Tokenizes the input; fails with a position-annotated error on a
    /// character outside the grammar.
    pub fn new(input: &str) -> (r: Result<Parser, Error>)
        ensures
            match r {
                Ok(p) => spec_tokenize(input@, 0) == Some(p.tokens.deep_view()) && p.pos == 0,
                Err(e) => spec_tokenize(input@, 0) is None && e is Grammar,
            },
    {
        match tokenize_from(input, 0) {
            Ok(tokens) => Ok(Parser { tokens, pos: 0 }),
            Err(p) => Err(Error::Grammar { line: p }),
        }
    }

    /// Parses one sum from the current position, which advances past it;
    /// trailing tokens are left in place.
    pub fn parse(&mut self) -> (r: Result<Expr, Error>)
        ensures
            final(self).tokens == old(self).tokens,
            match r {
                Ok(e) => ({
                    let sp = spec_parse_sum(old(self).tokens.deep_view(), old(self).pos as int);
                    &&& sp is Some
                    &&& e@ == (sp->0).0
                    &&& final(self).pos == (sp->0).1
                }),
                Err(e) => spec_parse_sum(old(self).tokens.deep_view(), old(self).pos as int)
                    is None && e is Grammar,
            },
    {
        if self.pos > self.tokens.len() {
            return Err(Error::Grammar { line: 0 });
        }
        match parse_sum_x(&self.tokens, self.pos) {
            Some((e, j)) => {
                self.pos = j;
                Ok(e)
            },
            None => Err(Error::Grammar { line: 0 }),
        }
    }
}

// ------------------------------------------------------------------
// Name maps: tag -> variation names, variation -> variant names
// ------------------------------------------------------------------

/// A mapping from names to lists of names, with unique keys, in insertion
/// order.
#[derive(Debug, Clone, PartialEq)]
pub struct NameMap {
    pub entries: Vec<(String, Vec<String>)>,
}

impl View for NameMap {
    type V = Seq<(Seq<char>, Seq<Seq<char>>)>;

    open spec fn view(&self) -> Seq<(Seq<char>, Seq<Seq<char>>)> {
        Seq::new(self.entries@.len(), |i: int| (self.entries@[i].0@, strs_view(self.entries@[i].1@)))
    }
}

/// The value the first entry with the given key holds.
pub open spec fn nm_get(m: Seq<(Seq<char>, Seq<Seq<char>>)>, key: Seq<char>) -> Option<
    Seq<Seq<char>>,
>
    decreases m.len(),
{
    if m.len() == 0 {
        None
    } else if m[0].0 == key {
        Some(m[0].1)
    } else {
        nm_get(m.drop_first(), key)
    }
}

/// The map after appending `name` under `key`: pushed onto the existing
/// entry, or a new entry at the end.
pub open spec fn nm_add(
    m: Seq<(Seq<char>, Seq<Seq<char>>)>,
    key: Seq<char>,
    name: Seq<char>,
) -> Seq<(Seq<char>, Seq<Seq<char>>)>
    decreases m.len(),
{
    if m.len() == 0 {
        seq![(key, seq![name])]
    } else if m[0].0 == key {
        seq![(m[0].0, m[0].1.push(name))] + m.drop_first()
    } else {
        seq![m[0]] + nm_add(m.drop_first(), key, name)
    }
}

impl NameMap {
    /// The empty map.
    pub fn new() -> (r: NameMap)
        ensures
            r@ == Seq::<(Seq<char>, Seq<Seq<char>>)>::empty(),
    {
        let r = NameMap { entries: Vec::new() };
        proof {
            assert(r@ =~= Seq::<(Seq<char>, Seq<Seq<char>>)>::empty());
        }
        r
    }

    /// The list the key maps to, if any.
    pub fn get(&self, key: &str) -> (r: Option<&Vec<String>>)
        ensures
            match r {
                Some(v) => nm_get(self@, key@) == Some(strs_view(v@)),
                None => nm_get(self@, key@) is None,
            },
    {
        let ghost mv = self@;
        let mut i: usize = 0;
        proof {
            assert(mv.skip(0) =~= mv);
        }
        while i < self.entries.len()
            invariant
                i <= self.entries@.len(),
                mv == self@,
                mv.len() == self.entries@.len(),
                nm_get(mv, key@) == nm_get(mv.skip(i as int), key@),
            decreases self.entries@.len() - i,
        {
            proof {
                assert(mv.skip(i as int)[0] == mv[i as int]);
                assert(mv.skip(i as int).drop_first() =~= mv.skip(i as int + 1));
            }
            if crate::languages::str_eq_pub(self.entries[i].0.as_str(), key) {
                return Some(&self.entries[i].1);
            }
            i = i + 1;
        }
        proof {
            assert(mv.skip(mv.len() as int) =~= Seq::<(Seq<char>, Seq<Seq<char>>)>::empty());
        }
        None
    }

    /// Appends `name` under `key`, creating the entry if it is new; keys
    /// stay unique and in insertion order.
    pub fn add(&mut self, key: &str, name: String)
        ensures
            final(self)@ == nm_add(old(self)@, key@, name@),
    {
        let ghost mv = self@;
        let ghost namev = name@;
        let mut i: usize = 0;
        proof {
            assert(mv.take(0) =~= Seq::<(Seq<char>, Seq<Seq<char>>)>::empty());
            assert(mv.skip(0) =~= mv);
        }
        while i < self.entries.len()
            invariant
                i <= self.entries@.len(),
                mv == self@,
                mv == old(self)@,
                namev == name@,
                mv.len() == self.entries@.len(),
                nm_add(mv, key@, namev) == mv.take(i as int) + nm_add(
                    mv.skip(i as int),
                    key@,
                    namev,
                ),
            decreases self.entries@.len() - i,
        {
            proof {
                assert(mv.skip(i as int)[0] == mv[i as int]);
                assert(mv.skip(i as int).drop_first() =~= mv.skip(i as int + 1));
            }
            if crate::languages::str_eq_pub(self.entries[i].0.as_str(), key) {
                let ghost entry = self.entries@[i as int];
                proof {
                    assert(mv[i as int] == (entry.0@, strs_view(entry.1@)));
                }
                let (k, mut v) = self.entries.remove(i);
                let ghost name0 = name;
                v.push(name);
                self.entries.insert(i, (k, v));
                proof {
                    crate::variation::lemma_strs_view_push(entry.1@, name0);
                    assert(nm_add(mv.skip(i as int), key@, namev) == seq![
                        (mv[i as int].0, mv[i as int].1.push(namev)),
                    ] + mv.skip(i as int + 1));
                    assert(v@ == entry.1@.push(name0));
                    assert(strs_view(v@) == strs_view(entry.1@.push(name0)));
                    assert(strs_view(entry.1@.push(name0)) == strs_view(entry.1@).push(name0@));
                    assert(strs_view(entry.1@) == mv[i as int].1);
                    assert(name0@ == namev);
                    assert(strs_view(v@) == mv[i as int].1.push(namev));
                    assert forall|w: int| 0 <= w < self@.len() implies self@[w] == (mv.take(
                        i as int,
                    ) + (seq![(mv[i as int].0, mv[i as int].1.push(namev))] + mv.skip(
                        i as int + 1,
                    )))[w] by {
                        if w < i as int {
                            assert(self.entries@[w] == self.entries@[w]);
                            assert(mv[w] == (self.entries@[w].0@, strs_view(self.entries@[w].1@)));
                        }
                    }
                    assert(self@ =~= mv.take(i as int) + (seq![
                        (mv[i as int].0, mv[i as int].1.push(namev)),
                    ] + mv.skip(i as int + 1)));
                }
                return ;
            }
            proof {
                assert(mv.take(i as int) + seq![mv[i as int]] =~= mv.take(i as int + 1));
                assert(mv.take(i as int) + (seq![mv[i as int]] + nm_add(
                    mv.skip(i as int + 1),
                    key@,
                    namev,
                )) =~= mv.take(i as int + 1) + nm_add(mv.skip(i as int + 1), key@, namev));
            }
            i = i + 1;
        }
        let mut single: Vec<String> = Vec::new();
        single.push(name);
        let mut keystr = String::new();
        keystr.append(key);
        self.entries.push((keystr, single));
        proof {
            assert(mv.skip(mv.len() as int).len() == 0);
            assert(strs_view(single@) =~= seq![namev]);
            assert(self@ =~= mv.take(mv.len() as int) + seq![(key@, seq![namev])]);
            assert(mv.take(mv.len() as int) =~= mv);
        }
    }

    /// Makes sure an entry for `key` exists, empty if new.
    pub fn ensure(&mut self, key: &str)
        ensures
            final(self)@ == crate::project::nm_ensure(old(self)@, key@),
    {
        let ghost mv = self@;
        let mut i: usize = 0;
        proof {
            assert(mv.take(0) =~= Seq::<(Seq<char>, Seq<Seq<char>>)>::empty());
            assert(mv.skip(0) =~= mv);
        }
        while i < self.entries.len()
            invariant
                i <= self.entries@.len(),
                mv == self@,
                mv == old(self)@,
                mv.len() == self.entries@.len(),
                crate::project::nm_ensure(mv, key@) == mv.take(i as int)
                    + crate::project::nm_ensure(mv.skip(i as int), key@),
            decreases self.entries@.len() - i,
        {
            proof {
                assert(mv.skip(i as int)[0] == mv[i as int]);
                assert(mv.skip(i as int).drop_first() =~= mv.skip(i as int + 1));
            }
            if crate::languages::str_eq_pub(self.entries[i].0.as_str(), key) {
                proof {
                    assert(crate::project::nm_ensure(mv.skip(i as int), key@) == mv.skip(
                        i as int,
                    ));
                    assert(mv.take(i as int) + mv.skip(i as int) =~= mv);
                }
                return ;
            }
            proof {
                assert(mv.take(i as int) + seq![mv[i as int]] =~= mv.take(i as int + 1));
                assert(mv.take(i as int) + (seq![mv[i as int]] + crate::project::nm_ensure(
                    mv.skip(i as int + 1),
                    key@,
                )) =~= mv.take(i as int + 1) + crate::project::nm_ensure(
                    mv.skip(i as int + 1),
                    key@,
                ));
            }
            i = i + 1;
        }
        let empty: Vec<String> = Vec::new();
        let mut keystr = String::new();
        keystr.append(key);
        self.entries.push((keystr, empty));
        proof {
            assert(mv.skip(mv.len() as int).len() == 0);
            assert(strs_view(empty@) =~= Seq::<Seq<char>>::empty());
            assert(self@ =~= mv.take(mv.len() as int) + seq![
                (key@, Seq::<Seq<char>>::empty()),
            ]);
            assert(mv.take(mv.len() as int) =~= mv);
        }
    }
}

// ------------------------------------------------------------------
// Compilation into a sum of products
// ------------------------------------------------------------------

/// Every unary tag in the expression maps to a nonempty list.
pub open spec fn tags_ok(e: ExprView, tm: Seq<(Seq<char>, Seq<Seq<char>>)>) -> bool
    decreases e,
{
    match e {
        ExprView::Sum(l, r) => tags_ok(*l, tm) && tags_ok(*r, tm),
        ExprView::Product(l, r) => tags_ok(*l, tm) && tags_ok(*r, tm),
        ExprView::USum(t) => match nm_get(tm, t) {
            Some(ids) => ids.len() > 0,
            None => false,
        },
        ExprView::UProduct(t) => match nm_get(tm, t) {
            Some(ids) => ids.len() > 0,
            None => false,
        },
        ExprView::Id(_) => true,
    }
}

/// `t` occurs in the expression as a unary tag with no members.
pub open spec fn bad_tag(e: ExprView, tm: Seq<(Seq<char>, Seq<Seq<char>>)>, t: Seq<char>) -> bool
    decreases e,
{
    match e {
        ExprView::Sum(l, r) => bad_tag(*l, tm, t) || bad_tag(*r, tm, t),
        ExprView::Product(l, r) => bad_tag(*l, tm, t) || bad_tag(*r, tm, t),
        ExprView::USum(t0) => t0 == t && !(match nm_get(tm, t0) {
            Some(ids) => ids.len() > 0,
            None => false,
        }),
        ExprView::UProduct(t0) => t0 == t && !(match nm_get(tm, t0) {
            Some(ids) => ids.len() > 0,
            None => false,
        }),
        ExprView::Id(_) => false,
    }
}

/// The left-associated sum of the named variants.
pub open spec fn chain_sum(ids: Seq<Seq<char>>) -> ExprView
    decreases ids.len(),
{
    if ids.len() <= 1 {
        ExprView::Id(ids[0])
    } else {
        ExprView::Sum(Box::new(chain_sum(ids.drop_last())), Box::new(ExprView::Id(ids.last())))
    }
}

/// The left-associated product of the named variants.
pub open spec fn chain_product(ids: Seq<Seq<char>>) -> ExprView
    decreases ids.len(),
{
    if ids.len() <= 1 {
        ExprView::Id(ids[0])
    } else {
        ExprView::Product(
            Box::new(chain_product(ids.drop_last())),
            Box::new(ExprView::Id(ids.last())),
        )
    }
}

/// Tag distribution: every `+tag` becomes the sum, and every `*tag` the
/// product, of the tag's members.
pub open spec fn spec_distribute_tags(
    e: ExprView,
    tm: Seq<(Seq<char>, Seq<Seq<char>>)>,
) -> ExprView
    decreases e,
{
    match e {
        ExprView::Sum(l, r) => ExprView::Sum(
            Box::new(spec_distribute_tags(*l, tm)),
            Box::new(spec_distribute_tags(*r, tm)),
        ),
        ExprView::Product(l, r) => ExprView::Product(
            Box::new(spec_distribute_tags(*l, tm)),
            Box::new(spec_distribute_tags(*r, tm)),
        ),
        ExprView::USum(t) => chain_sum(
            match nm_get(tm, t) {
                Some(ids) => ids,
                None => Seq::empty(),
            },
        ),
        ExprView::UProduct(t) => chain_product(
            match nm_get(tm, t) {
                Some(ids) => ids,
                None => Seq::empty(),
            },
        ),
        ExprView::Id(id) => ExprView::Id(id),
    }
}

/// Variation distribution: an identifier naming a variation becomes the sum
/// of that variation's variants; other identifiers pass through.  An entry
/// with no variants passes through too (the later validation then rejects
/// it, since a variation name is not itself a variant).
pub open spec fn spec_distribute_variations(
    e: ExprView,
    vm: Seq<(Seq<char>, Seq<Seq<char>>)>,
) -> ExprView
    decreases e,
{
    match e {
        ExprView::Sum(l, r) => ExprView::Sum(
            Box::new(spec_distribute_variations(*l, vm)),
            Box::new(spec_distribute_variations(*r, vm)),
        ),
        ExprView::Product(l, r) => ExprView::Product(
            Box::new(spec_distribute_variations(*l, vm)),
            Box::new(spec_distribute_variations(*r, vm)),
        ),
        ExprView::Id(id) => match nm_get(vm, id) {
            Some(ids) => if ids.len() > 0 {
                chain_sum(ids)
            } else {
                ExprView::Id(id)
            },
            None => ExprView::Id(id),
        },
        _ => e,
    }
}

/// No unary tag form remains.
pub open spec fn no_unary(e: ExprView) -> bool
    decreases e,
{
    match e {
        ExprView::Sum(l, r) => no_unary(*l) && no_unary(*r),
        ExprView::Product(l, r) => no_unary(*l) && no_unary(*r),
        ExprView::USum(_) => false,
        ExprView::UProduct(_) => false,
        ExprView::Id(_) => true,
    }
}

/// The identifier leaves of the expression, left to right.
pub open spec fn leaves(e: ExprView) -> Seq<Seq<char>>
    decreases e,
{
    match e {
        ExprView::Sum(l, r) => leaves(*l) + leaves(*r),
        ExprView::Product(l, r) => leaves(*l) + leaves(*r),
        ExprView::Id(id) => seq![id],
        _ => Seq::empty(),
    }
}

/// Every leaf is a member of the list.
pub open spec fn all_known(ls: Seq<Seq<char>>, list: Seq<Seq<char>>) -> bool {
    forall|k: int| 0 <= k < ls.len() ==> list.contains(#[trigger] ls[k])
}

proof fn lemma_chain_sum_no_unary(ids: Seq<Seq<char>>)
    ensures
        no_unary(chain_sum(ids)),
        no_unary(chain_product(ids)),
    decreases ids.len(),
{
    if ids.len() > 1 {
        lemma_chain_sum_no_unary(ids.drop_last());
        assert(no_unary(ExprView::Id(ids.last())));
    } else {
        assert(no_unary(ExprView::Id(ids[0])));
    }
}

/// Tag distribution leaves no unary forms behind.
proof fn lemma_distribute_tags_no_unary(e: ExprView, tm: Seq<(Seq<char>, Seq<Seq<char>>)>)
    ensures
        no_unary(spec_distribute_tags(e, tm)),
    decreases e,
{
    match e {
        ExprView::Sum(l, r) => {
            lemma_distribute_tags_no_unary(*l, tm);
            lemma_distribute_tags_no_unary(*r, tm);
        },
        ExprView::Product(l, r) => {
            lemma_distribute_tags_no_unary(*l, tm);
            lemma_distribute_tags_no_unary(*r, tm);
        },
        ExprView::USum(t) => {
            lemma_chain_sum_no_unary(
                match nm_get(tm, t) {
                    Some(ids) => ids,
                    None => Seq::empty(),
                },
            );
        },
        ExprView::UProduct(t) => {
            lemma_chain_sum_no_unary(
                match nm_get(tm, t) {
                    Some(ids) => ids,
                    None => Seq::empty(),
                },
            );
        },
        ExprView::Id(_) => {},
    }
}

/// Variation distribution preserves the absence of unary forms.
proof fn lemma_distribute_variations_no_unary(e: ExprView, vm: Seq<(Seq<char>, Seq<Seq<char>>)>)
    requires
        no_unary(e),
    ensures
        no_unary(spec_distribute_variations(e, vm)),
    decreases e,
{
    match e {
        ExprView::Sum(l, r) => {
            lemma_distribute_variations_no_unary(*l, vm);
            lemma_distribute_variations_no_unary(*r, vm);
        },
        ExprView::Product(l, r) => {
            lemma_distribute_variations_no_unary(*l, vm);
            lemma_distribute_variations_no_unary(*r, vm);
        },
        ExprView::Id(id) => {
            match nm_get(vm, id) {
                Some(ids) => {
                    if ids.len() > 0 {
                        lemma_chain_sum_no_unary(ids);
                    }
                },
                None => {},
            }
        },
        _ => {},
    }
}

/// One row of a cartesian product: `x` concatenated with each combination
/// of `b`, in order.
pub open spec fn cross_row(x: Seq<Seq<char>>, b: Seq<Seq<Seq<char>>>) -> Seq<Seq<Seq<char>>>
    decreases b.len(),
{
    if b.len() == 0 {
        Seq::empty()
    } else {
        cross_row(x, b.drop_last()).push(x + b.last())
    }
}

/// The cartesian concatenation: the left operand's combinations as the
/// outer loop, the right operand's as the inner one.
pub open spec fn cross(a: Seq<Seq<Seq<char>>>, b: Seq<Seq<Seq<char>>>) -> Seq<Seq<Seq<char>>>
    decreases a.len(),
{
    if a.len() == 0 {
        Seq::empty()
    } else {
        cross(a.drop_last(), b) + cross_row(a.last(), b)
    }
}

/// Distribution into a sum of products.  A sum concatenates the operands'
/// combination lists in order; a product takes their cartesian
/// concatenation; a leaf yields its singleton combination.
pub open spec fn spec_distribute(e: ExprView) -> Seq<Seq<Seq<char>>>
    decreases e,
{
    match e {
        ExprView::Sum(l, r) => spec_distribute(*l) + spec_distribute(*r),
        ExprView::Product(l, r) => cross(spec_distribute(*l), spec_distribute(*r)),
        ExprView::Id(id) => seq![seq![id]],
        _ => Seq::empty(),
    }
}

/// The whole compilation pipeline at the level of the model.
pub open spec fn spec_sum_of_products(
    e: ExprView,
    tm: Seq<(Seq<char>, Seq<Seq<char>>)>,
    vm: Seq<(Seq<char>, Seq<Seq<char>>)>,
) -> Seq<Seq<Seq<char>>> {
    spec_distribute(spec_distribute_variations(spec_distribute_tags(e, tm), vm))
}

// ------------------------------------------------------------------
// Laws
// ------------------------------------------------------------------

/// Cartesian concatenation distributes over list concatenation on the left.
pub proof fn lemma_cross_add(a1: Seq<Seq<Seq<char>>>, a2: Seq<Seq<Seq<char>>>, b: Seq<Seq<Seq<char>>>)
    ensures
        cross(a1 + a2, b) == cross(a1, b) + cross(a2, b),
    decreases a2.len(),
{
    if a2.len() == 0 {
        assert(a1 + a2 =~= a1);
        assert(cross(a2, b).len() == 0);
        assert(cross(a1 + a2, b) =~= cross(a1, b) + cross(a2, b));
    } else {
        assert((a1 + a2).drop_last() =~= a1 + a2.drop_last());
        lemma_cross_add(a1, a2.drop_last(), b);
        assert((a1 + a2).last() == a2.last());
        assert(cross(a1 + a2, b) =~= cross(a1, b) + cross(a2, b));
    }
}

/// Distributivity of the expansion: `(a + b) * c` expands to the expansion
/// of `a * c` followed by the expansion of `b * c`.
pub proof fn lemma_distributivity(a: ExprView, b: ExprView, c: ExprView)
    ensures
        spec_distribute(
            ExprView::Product(
                Box::new(ExprView::Sum(Box::new(a), Box::new(b))),
                Box::new(c),
            ),
        ) == spec_distribute(ExprView::Product(Box::new(a), Box::new(c))) + spec_distribute(
            ExprView::Product(Box::new(b), Box::new(c)),
        ),
{
    let ab = ExprView::Sum(Box::new(a), Box::new(b));
    assert(spec_distribute(ab) == spec_distribute(a) + spec_distribute(b));
    assert(spec_distribute(ExprView::Product(Box::new(ab), Box::new(c))) == cross(
        spec_distribute(ab),
        spec_distribute(c),
    ));
    assert(spec_distribute(ExprView::Product(Box::new(a), Box::new(c))) == cross(
        spec_distribute(a),
        spec_distribute(c),
    ));
    assert(spec_distribute(ExprView::Product(Box::new(b), Box::new(c))) == cross(
        spec_distribute(b),
        spec_distribute(c),
    ));
    lemma_cross_add(spec_distribute(a), spec_distribute(b), spec_distribute(c));
}

// ------------------------------------------------------------------
// Executable compilation
// ------------------------------------------------------------------

/// Builds the left-associated sum of the named variants.
fn chain_sum_x(ids: &Vec<String>) -> (r: Expr)
    requires
        ids@.len() > 0,
    ensures
        r@ == chain_sum(strs_view(ids@)),
{
    let mut acc = Expr::Id(ids[0].clone());
    proof {
        assert(strs_view(ids@).take(1).len() == 1);
        assert(strs_view(ids@).take(1)[0] == ids@[0]@);
        assert(acc@ == chain_sum(strs_view(ids@).take(1)));
    }
    let mut i: usize = 1;
    while i < ids.len()
        invariant
            1 <= i <= ids@.len(),
            acc@ == chain_sum(strs_view(ids@).take(i as int)),
        decreases ids@.len() - i,
    {
        proof {
            assert(strs_view(ids@).take(i as int + 1).drop_last() =~= strs_view(ids@).take(
                i as int,
            ));
            assert(strs_view(ids@).take(i as int + 1).last() == ids@[i as int]@);
        }
        let idexpr = Expr::Id(ids[i].clone());
        proof {
            assert(idexpr@ == ExprView::Id(ids@[i as int]@));
        }
        acc = Expr::Sum(Box::new(acc), Box::new(idexpr));
        i = i + 1;
    }
    proof {
        assert(strs_view(ids@).take(ids@.len() as int) =~= strs_view(ids@));
    }
    acc
}

/// Builds the left-associated product of the named variants.
fn chain_product_x(ids: &Vec<String>) -> (r: Expr)
    requires
        ids@.len() > 0,
    ensures
        r@ == chain_product(strs_view(ids@)),
{
    let mut acc = Expr::Id(ids[0].clone());
    proof {
        assert(strs_view(ids@).take(1).len() == 1);
        assert(strs_view(ids@).take(1)[0] == ids@[0]@);
        assert(acc@ == chain_product(strs_view(ids@).take(1)));
    }
    let mut i: usize = 1;
    while i < ids.len()
        invariant
            1 <= i <= ids@.len(),
            acc@ == chain_product(strs_view(ids@).take(i as int)),
        decreases ids@.len() - i,
    {
        proof {
            assert(strs_view(ids@).take(i as int + 1).drop_last() =~= strs_view(ids@).take(
                i as int,
            ));
            assert(strs_view(ids@).take(i as int + 1).last() == ids@[i as int]@);
        }
        let idexpr = Expr::Id(ids[i].clone());
        proof {
            assert(idexpr@ == ExprView::Id(ids@[i as int]@));
        }
        acc = Expr::Product(Box::new(acc), Box::new(idexpr));
        i = i + 1;
    }
    proof {
        assert(strs_view(ids@).take(ids@.len() as int) =~= strs_view(ids@));
    }
    acc
}

/// Whether the list holds the string.
fn list_contains(list: &Vec<String>, v: &String) -> (r: bool)
    ensures
        r == strs_view(list@).contains(v@),
{
    let mut i: usize = 0;
    while i < list.len()
        invariant
            i <= list@.len(),
            forall|k: int| 0 <= k < i ==> strs_view(list@)[k] != v@,
        decreases list@.len() - i,
    {
        if crate::languages::str_eq_pub(list[i].as_str(), v.as_str()) {
            proof {
                assert(strs_view(list@)[i as int] == v@);
            }
            return true;
        }
        i = i + 1;
    }
    proof {
        assert(!strs_view(list@).contains(v@));
    }
    false
}

/// The first name in `vars` that the list does not hold.
fn first_unknown(vars: &Vec<String>, list: &Vec<String>) -> (r: Option<String>)
    ensures
        match r {
            None => all_known(strs_view(vars@), strs_view(list@)),
            Some(v) => !strs_view(list@).contains(v@) && strs_view(vars@).contains(v@),
        },
{
    let mut i: usize = 0;
    while i < vars.len()
        invariant
            i <= vars@.len(),
            forall|k: int| 0 <= k < i ==> strs_view(list@).contains(#[trigger] strs_view(vars@)[k]),
        decreases vars@.len() - i,
    {
        if !list_contains(list, &vars[i]) {
            proof {
                assert(strs_view(vars@)[i as int] == vars@[i as int]@);
            }
            return Some(vars[i].clone());
        }
        i = i + 1;
    }
    None
}

/// Concatenates two lists of names.
fn concat_strs(a: &Vec<String>, b: &Vec<String>) -> (r: Vec<String>)
    ensures
        r.deep_view() == a.deep_view() + b.deep_view(),
{
    let mut r = crate::variation::clone_strings(a);
    let ghost adv = r.deep_view();
    let mut b2 = crate::variation::clone_strings(b);
    let ghost bdv = b2.deep_view();
    let ghost rpre = r@;
    let ghost bpre = b2@;
    r.append(&mut b2);
    proof {
        assert(r@ == rpre + bpre);
        assert forall|k: int| 0 <= k < r@.len() implies r.deep_view()[k] == (adv + bdv)[k] by {
            if k < rpre.len() {
                assert(r@[k] == rpre[k]);
            } else {
                assert(r@[k] == bpre[k - rpre.len()]);
            }
        }
        assert(r.deep_view() =~= adv + bdv);
    }
    r
}

impl Expr {
    /// Tag distribution: replaces every `+tag` and `*tag` with the sum,
    /// respectively product, of the tag's members; a tag with no members
    /// fails.
    fn distribute_tags(&self, tag_map: &NameMap) -> (r: Result<Expr, Error>)
        ensures
            match r {
                Ok(e2) => tags_ok(self@, tag_map@) && e2@ == spec_distribute_tags(
                    self@,
                    tag_map@,
                ),
                Err(e) => {
                    &&& !tags_ok(self@, tag_map@)
                    &&& e is TagHasNoMembers
                    &&& bad_tag(self@, tag_map@, e->TagHasNoMembers_tag@)
                },
            },
        decreases self,
    {
        match self {
            Expr::Sum(l, r) => {
                let l2 = match l.distribute_tags(tag_map) {
                    Ok(x) => x,
                    Err(e) => {
                        return Err(e);
                    },
                };
                let r2 = match r.distribute_tags(tag_map) {
                    Ok(x) => x,
                    Err(e) => {
                        return Err(e);
                    },
                };
                Ok(Expr::Sum(Box::new(l2), Box::new(r2)))
            },
            Expr::Product(l, r) => {
                let l2 = match l.distribute_tags(tag_map) {
                    Ok(x) => x,
                    Err(e) => {
                        return Err(e);
                    },
                };
                let r2 = match r.distribute_tags(tag_map) {
                    Ok(x) => x,
                    Err(e) => {
                        return Err(e);
                    },
                };
                Ok(Expr::Product(Box::new(l2), Box::new(r2)))
            },
            Expr::USum(t) => {
                match tag_map.get(t.as_str()) {
                    Some(v) => {
                        if v.len() > 0 {
                            Ok(chain_sum_x(v))
                        } else {
                            Err(Error::TagHasNoMembers { tag: t.clone() })
                        }
                    },
                    None => Err(Error::TagHasNoMembers { tag: t.clone() }),
                }
            },
            Expr::UProduct(t) => {
                match tag_map.get(t.as_str()) {
                    Some(v) => {
                        if v.len() > 0 {
                            Ok(chain_product_x(v))
                        } else {
                            Err(Error::TagHasNoMembers { tag: t.clone() })
                        }
                    },
                    None => Err(Error::TagHasNoMembers { tag: t.clone() }),
                }
            },
            Expr::Id(id) => Ok(Expr::Id(id.clone())),
        }
    }

    /// Variation distribution: an identifier naming a variation becomes the
    /// sum of that variation's variants.
    fn distribute_variations(&self, variation_map: &NameMap) -> (r: Expr)
        requires
            no_unary(self@),
        ensures
            r@ == spec_distribute_variations(self@, variation_map@),
        decreases self,
    {
        match self {
            Expr::Sum(l, r) => {
                let l2 = l.distribute_variations(variation_map);
                let r2 = r.distribute_variations(variation_map);
                Expr::Sum(Box::new(l2), Box::new(r2))
            },
            Expr::Product(l, r) => {
                let l2 = l.distribute_variations(variation_map);
                let r2 = r.distribute_variations(variation_map);
                Expr::Product(Box::new(l2), Box::new(r2))
            },
            Expr::Id(id) => {
                match variation_map.get(id.as_str()) {
                    Some(v) => {
                        if v.len() > 0 {
                            chain_sum_x(v)
                        } else {
                            Expr::Id(id.clone())
                        }
                    },
                    None => Expr::Id(id.clone()),
                }
            },
            Expr::USum(t) => {
                proof {
                    assert(false);
                }
                Expr::Id(t.clone())
            },
            Expr::UProduct(t) => {
                proof {
                    assert(false);
                }
                Expr::Id(t.clone())
            },
        }
    }

    /// Appends the identifier leaves, left to right.
    fn collect_variants(&self, variants: &mut Vec<String>)
        requires
            no_unary(self@),
        ensures
            strs_view(final(variants)@) == strs_view(old(variants)@) + leaves(self@),
        decreases self,
    {
        match self {
            Expr::Sum(l, r) => {
                l.collect_variants(variants);
                r.collect_variants(variants);
                proof {
                    assert(strs_view(variants@) =~= strs_view(old(variants)@) + leaves(self@));
                }
            },
            Expr::Product(l, r) => {
                l.collect_variants(variants);
                r.collect_variants(variants);
                proof {
                    assert(strs_view(variants@) =~= strs_view(old(variants)@) + leaves(self@));
                }
            },
            Expr::Id(id) => {
                let ghost pre = variants@;
                let s = id.clone();
                variants.push(s);
                proof {
                    crate::variation::lemma_strs_view_push(pre, s);
                    assert(strs_view(variants@) =~= strs_view(old(variants)@) + leaves(self@));
                }
            },
            Expr::USum(_) => {
                proof {
                    assert(false);
                }
            },
            Expr::UProduct(_) => {
                proof {
                    assert(false);
                }
            },
        }
    }

    /// Expands the expression into its ordered list of combinations.
    fn distribute(&self) -> (r: Vec<Vec<String>>)
        requires
            no_unary(self@),
        ensures
            r.deep_view() == spec_distribute(self@),
        decreases self,
    {
        match self {
            Expr::Sum(l, r) => {
                let mut a = l.distribute();
                let ghost adv = a.deep_view();
                let mut b = r.distribute();
                let ghost bdv = b.deep_view();
                let ghost apre = a@;
                let ghost bpre = b@;
                a.append(&mut b);
                proof {
                    assert(a@ == apre + bpre);
                    assert forall|k: int| 0 <= k < a@.len() implies a.deep_view()[k] == (adv
                        + bdv)[k] by {
                        if k < apre.len() {
                            assert(a@[k] == apre[k]);
                        } else {
                            assert(a@[k] == bpre[k - apre.len()]);
                        }
                    }
                    assert(a.deep_view() =~= adv + bdv);
                }
                a
            },
            Expr::Product(l, r) => {
                let dl = l.distribute();
                let dr = r.distribute();
                let ghost dldv = dl.deep_view();
                let ghost drdv = dr.deep_view();
                let mut out: Vec<Vec<String>> = Vec::new();
                proof {
                    assert(out.deep_view() =~= cross(dldv.take(0), drdv));
                }
                let mut i: usize = 0;
                while i < dl.len()
                    invariant
                        i <= dl@.len(),
                        dldv == dl.deep_view(),
                        drdv == dr.deep_view(),
                        dldv.len() == dl@.len(),
                        drdv.len() == dr@.len(),
                        out.deep_view() == cross(dldv.take(i as int), drdv),
                    decreases dl@.len() - i,
                {
                    let ghost row_base = out.deep_view();
                    proof {
                        assert(cross_row(dldv[i as int], drdv.take(0)).len() == 0);
                        assert(row_base =~= row_base + cross_row(dldv[i as int], drdv.take(0)));
                    }
                    let mut j: usize = 0;
                    while j < dr.len()
                        invariant
                            i < dl@.len(),
                            j <= dr@.len(),
                            dldv == dl.deep_view(),
                            drdv == dr.deep_view(),
                            dldv.len() == dl@.len(),
                            drdv.len() == dr@.len(),
                            out.deep_view() == row_base + cross_row(
                                dldv[i as int],
                                drdv.take(j as int),
                            ),
                        decreases dr@.len() - j,
                    {
                        proof {
                            assert(dl@[i as int].deep_view() == dldv[i as int]);
                            assert(dr@[j as int].deep_view() == drdv[j as int]);
                            assert(drdv.take(j as int + 1).drop_last() =~= drdv.take(j as int));
                            assert(drdv.take(j as int + 1).last() == drdv[j as int]);
                        }
                        let combined = concat_strs(&dl[i], &dr[j]);
                        let ghost pre_seq = out@;
                        let ghost pre_dv = out.deep_view();
                        out.push(combined);
                        proof {
                            assert forall|k: int|
                                0 <= k < out@.len() implies out.deep_view()[k] == pre_dv.push(
                                dldv[i as int] + drdv[j as int],
                            )[k] by {
                                if k < pre_seq.len() {
                                    assert(out@[k] == pre_seq[k]);
                                }
                            }
                            assert(out.deep_view() =~= pre_dv.push(
                                dldv[i as int] + drdv[j as int],
                            ));
                            assert(out.deep_view() =~= row_base + cross_row(
                                dldv[i as int],
                                drdv.take(j as int + 1),
                            ));
                        }
                        j = j + 1;
                    }
                    proof {
                        assert(drdv.take(dr@.len() as int) =~= drdv);
                        assert(dldv.take(i as int + 1).drop_last() =~= dldv.take(i as int));
                        assert(dldv.take(i as int + 1).last() == dldv[i as int]);
                        assert(out.deep_view() =~= cross(dldv.take(i as int + 1), drdv));
                    }
                    i = i + 1;
                }
                proof {
                    assert(dldv.take(dl@.len() as int) =~= dldv);
                }
                out
            },
            Expr::Id(id) => {
                let mut inner: Vec<String> = Vec::new();
                inner.push(id.clone());
                let mut out: Vec<Vec<String>> = Vec::new();
                proof {
                    assert(inner.deep_view() =~= seq![id@]);
                }
                out.push(inner);
                proof {
                    assert(out.deep_view() =~= seq![seq![id@]]);
                }
                out
            },
            Expr::USum(_) => {
                proof {
                    assert(false);
                }
                Vec::new()
            },
            Expr::UProduct(_) => {
                proof {
                    assert(false);
                }
                Vec::new()
            },
        }
    }

    /// Compiles the expression into its ordered list of test combinations:
    /// tag distribution, variation distribution, validation of every
    /// remaining name against the project's variant list, then expansion
    /// into the sum of products.
    pub fn into_sum_of_products(
        &self,
        tag_map: &NameMap,
        variation_map: &NameMap,
        variant_list: &Vec<String>,
    ) -> (r: Result<Vec<Vec<String>>, Error>)
        ensures
            match r {
                Ok(out) => {
                    &&& tags_ok(self@, tag_map@)
                    &&& all_known(
                        leaves(
                            spec_distribute_variations(
                                spec_distribute_tags(self@, tag_map@),
                                variation_map@,
                            ),
                        ),
                        strs_view(variant_list@),
                    )
                    &&& out.deep_view() == spec_sum_of_products(self@, tag_map@, variation_map@)
                },
                Err(e) => match e {
                    Error::TagHasNoMembers { tag } => !tags_ok(self@, tag_map@) && bad_tag(
                        self@,
                        tag_map@,
                        tag@,
                    ),
                    Error::UnknownVariant { variant } => {
                        &&& tags_ok(self@, tag_map@)
                        &&& !strs_view(variant_list@).contains(variant@)
                        &&& leaves(
                            spec_distribute_variations(
                                spec_distribute_tags(self@, tag_map@),
                                variation_map@,
                            ),
                        ).contains(variant@)
                    },
                    _ => false,
                },
            },
    {
        let e1 = match self.distribute_tags(tag_map) {
            Ok(x) => x,
            Err(e) => {
                return Err(e);
            },
        };
        proof {
            lemma_distribute_tags_no_unary(self@, tag_map@);
        }
        let e2 = e1.distribute_variations(variation_map);
        proof {
            lemma_distribute_variations_no_unary(e1@, variation_map@);
        }
        let mut vars: Vec<String> = Vec::new();
        e2.collect_variants(&mut vars);
        proof {
            assert(strs_view(vars@) =~= leaves(e2@));
        }
        match first_unknown(&vars, variant_list) {
            Some(v) => Err(Error::UnknownVariant { variant: v }),
            None => Ok(e2.distribute()),
        }
    }
}

/// The expression a whole selection string compiles to, end to end.
pub fn compute_mutations(
    expr: &str,
    tag_map: &NameMap,
    variation_map: &NameMap,
    variant_list: &Vec<String>,
) -> (r: Result<Vec<Vec<String>>, Error>)
    ensures
        match r {
            Ok(out) => {
                &&& spec_parse_expr(expr@) is Some
                &&& {
                    let e = spec_parse_expr(expr@)->0;
                    &&& tags_ok(e, tag_map@)
                    &&& all_known(
                        leaves(
                            spec_distribute_variations(
                                spec_distribute_tags(e, tag_map@),
                                variation_map@,
                            ),
                        ),
                        strs_view(variant_list@),
                    )
                    &&& out.deep_view() == spec_sum_of_products(e, tag_map@, variation_map@)
                }
            },
            Err(e) => match e {
                Error::Grammar { .. } => spec_parse_expr(expr@) is None,
                Error::TagHasNoMembers { tag } => spec_parse_expr(expr@) is Some && !tags_ok(
                    spec_parse_expr(expr@)->0,
                    tag_map@,
                ) && bad_tag(spec_parse_expr(expr@)->0, tag_map@, tag@),
                Error::UnknownVariant { variant } => {
                    &&& spec_parse_expr(expr@) is Some
                    &&& tags_ok(spec_parse_expr(expr@)->0, tag_map@)
                    &&& !strs_view(variant_list@).contains(variant@)
                    &&& leaves(
                        spec_distribute_variations(
                            spec_distribute_tags(spec_parse_expr(expr@)->0, tag_map@),
                            variation_map@,
                        ),
                    ).contains(variant@)
                },
                _ => false,
            },
        },
{
    let mut parser = match Parser::new(expr) {
        Ok(p) => p,
        Err(e) => {
            return Err(e);
        },
    };
    let e = match parser.parse() {
        Ok(e) => e,
        Err(e) => {
            return Err(e);
        },
    };
    e.into_sum_of_products(tag_map, variation_map, variant_list)
}

} // verus!
