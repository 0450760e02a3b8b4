//! The surface syntax: a tokenizer and a parser for fully parenthesised
//! prefix expressions.
//!
//! Both are specified as functions on the bytes of the source text:
//! `next_token_spec` says which token starts at a position and where it ends,
//! `parse_group` which tree the tokens after an opening bracket make.

use crate::ast::{
    extends, lemma_tree_of_extends, names_of, tree_of, AbstractBody, Ast, ConstExpr, Expr,
    ExprBody, Literal, Node, Tree, TreeBody,
};
use crate::error::{ParseError, ParseErrorKind};
use crate::rename::{
    binds_once, closed, lemma_rename_binds_once, lemma_rename_closed, rename_expr, rename_tree,
    trees_of, visible_names, RenameContext, RenameModel,
};
use crate::text::{ascii_string, ascii_text};
use vstd::prelude::*;
use vstd::string::StringSliceAdditionalSpecFns;

verus! {

/// A token of the surface syntax.
#[derive(Debug, PartialEq)]
pub enum Token {
    ExprBegin,
    ExprEnd,
    Lambda,
    Identifier(String),
    HostFunction(String),
    EmptyLiteral,
    IntLiteral(i64),
    /// A number written with a `.`, in the notation it was written in.
    FloatLiteral(String),
}

/// The model of a `Token`.
pub enum TokenModel {
    ExprBegin,
    ExprEnd,
    Lambda,
    Identifier(Seq<char>),
    HostFunction(Seq<char>),
    EmptyLiteral,
    IntLiteral(i64),
    FloatLiteral(Seq<char>),
}

impl View for Token {
    type V = TokenModel;

    open spec fn view(&self) -> TokenModel {
        match self {
            Token::ExprBegin => TokenModel::ExprBegin,
            Token::ExprEnd => TokenModel::ExprEnd,
            Token::Lambda => TokenModel::Lambda,
            Token::Identifier(s) => TokenModel::Identifier(s@),
            Token::HostFunction(s) => TokenModel::HostFunction(s@),
            Token::EmptyLiteral => TokenModel::EmptyLiteral,
            Token::IntLiteral(v) => TokenModel::IntLiteral(*v),
            Token::FloatLiteral(s) => TokenModel::FloatLiteral(s@),
        }
    }
}

/// Whether `b` is a decimal digit.
pub open spec fn is_digit(b: u8) -> bool {
    48 <= b <= 57
}

/// Whether `b` is a letter.
pub open spec fn is_alpha(b: u8) -> bool {
    65 <= b <= 90 || 97 <= b <= 122
}

/// Whether `b` may stand inside an identifier: a letter, a digit or `_`.
pub open spec fn is_ident_char(b: u8) -> bool {
    is_alpha(b) || is_digit(b) || b == 95
}

/// Whether `b` separates tokens: space, tab, line feed, form feed or
/// carriage return.
pub open spec fn is_space(b: u8) -> bool {
    b == 32 || b == 9 || b == 10 || b == 12 || b == 13
}

/// Whether `b` ends a line.
pub open spec fn is_eol(b: u8) -> bool {
    b == 13 || b == 10
}

/// Whether `b` may stand inside a number: a digit or `.`.
pub open spec fn is_number_char(b: u8) -> bool {
    is_digit(b) || b == 46
}

fn digit(b: u8) -> (r: bool)
    ensures
        r == is_digit(b),
{
    48 <= b && b <= 57
}

fn alpha(b: u8) -> (r: bool)
    ensures
        r == is_alpha(b),
{
    (65 <= b && b <= 90) || (97 <= b && b <= 122)
}

fn ident_char(b: u8) -> (r: bool)
    ensures
        r == is_ident_char(b),
{
    alpha(b) || digit(b) || b == 95
}

fn space(b: u8) -> (r: bool)
    ensures
        r == is_space(b),
{
    b == 32 || b == 9 || b == 10 || b == 12 || b == 13
}

fn not_space(b: u8) -> (r: bool)
    ensures
        r == !is_space(b),
{
    !space(b)
}

fn not_ident_char(b: u8) -> (r: bool)
    ensures
        r == !is_ident_char(b),
{
    !ident_char(b)
}

fn not_number_char(b: u8) -> (r: bool)
    ensures
        r == !is_number_char(b),
{
    !(digit(b) || b == 46)
}

fn eol(b: u8) -> (r: bool)
    ensures
        r == is_eol(b),
{
    b == 13 || b == 10
}

/// The first position from `begin` on whose byte meets `stop`, or the length
/// of `raw` if there is none.
pub open spec fn scan(raw: Seq<u8>, begin: int, stop: spec_fn(u8) -> bool) -> int
    decreases raw.len() - begin,
{
    if begin < 0 || begin >= raw.len() {
        raw.len() as int
    } else if stop(raw[begin]) {
        begin
    } else {
        scan(raw, begin + 1, stop)
    }
}

/// `scan` stays within the text and does not go backwards.
pub proof fn lemma_scan_bounds(raw: Seq<u8>, begin: int, stop: spec_fn(u8) -> bool)
    requires
        0 <= begin <= raw.len(),
    ensures
        begin <= scan(raw, begin, stop) <= raw.len(),
        forall|i: int| begin <= i < scan(raw, begin, stop) ==> !stop(#[trigger] raw[i]),
        scan(raw, begin, stop) < raw.len() ==> stop(raw[scan(raw, begin, stop)]),
    decreases raw.len() - begin,
{
    if begin < raw.len() && !stop(raw[begin]) {
        lemma_scan_bounds(raw, begin + 1, stop);
    }
}

/// A position is what `scan` gives if no byte before it meets `stop` and
/// its own byte does, or the text ends there.
pub proof fn lemma_scan_is(raw: Seq<u8>, begin: int, end: int, stop: spec_fn(u8) -> bool)
    requires
        0 <= begin <= end <= raw.len(),
        forall|i: int| begin <= i < end ==> !stop(#[trigger] raw[i]),
        end < raw.len() ==> stop(raw[end]),
    ensures
        scan(raw, begin, stop) == end,
    decreases end - begin,
{
    if begin < end {
        lemma_scan_is(raw, begin + 1, end, stop);
    }
}

/// The first position from `begin` on whose byte `predicate` accepts, or the
/// length of `raw`.
pub fn token_end<F: Fn(u8) -> bool>(raw: &[u8], begin: usize, predicate: F) -> (end: usize)
    requires
        begin <= raw@.len(),
        forall|b: u8| call_requires(predicate, (b,)),
    ensures
        begin <= end <= raw@.len(),
        forall|i: int| begin <= i < end ==> call_ensures(predicate, (#[trigger] raw@[i],), false),
        end < raw@.len() ==> call_ensures(predicate, (raw@[end as int],), true),
{
    let mut i: usize = begin;
    while i < raw.len()
        invariant
            begin <= i <= raw@.len(),
            forall|b: u8| call_requires(predicate, (b,)),
            forall|j: int| begin <= j < i ==> call_ensures(predicate, (#[trigger] raw@[j],), false),
        decreases raw@.len() - i,
    {
        if predicate(raw[i]) {
            return i;
        }
        i = i + 1;
    }
    i
}

/// The value of a run of digits. A byte that is no digit counts as zero.
pub open spec fn decimal_value(text: Seq<u8>) -> nat
    decreases text.len(),
{
    if text.len() == 0 {
        0
    } else {
        decimal_value(text.drop_last()) * 10 + (if is_digit(text.last()) {
            (text.last() - 48) as nat
        } else {
            0
        })
    }
}

/// How many of the bytes are `.`.
pub open spec fn count_dots(text: Seq<u8>) -> nat
    decreases text.len(),
{
    if text.len() == 0 {
        0
    } else {
        count_dots(text.drop_last()) + (if text.last() == 46 {
            1nat
        } else {
            0nat
        })
    }
}

/// The token that a run of digits and dots makes: an integer if it has no
/// dot and fits in 64 bits with a sign, a float if it has exactly one dot.
pub open spec fn number_token(text: Seq<u8>) -> Result<TokenModel, ParseErrorKind> {
    if count_dots(text) == 0 {
        if decimal_value(text) <= i64::MAX {
            Ok(TokenModel::IntLiteral(decimal_value(text) as i64))
        } else {
            Err(ParseErrorKind::InvalidNumber)
        }
    } else if count_dots(text) == 1 {
        Ok(TokenModel::FloatLiteral(ascii_text(text)))
    } else {
        Err(ParseErrorKind::InvalidNumber)
    }
}

/// The token that starts at `pos`, after white space and comments, and the
/// position behind it; or the error, and the position at which the tokenizer
/// stops.
pub open spec fn next_token_spec(raw: Seq<u8>, pos: int) -> (
    Result<TokenModel, ParseErrorKind>,
    int,
)
    decreases raw.len() - pos,
{
    if pos < 0 || pos >= raw.len() {
        (Err(ParseErrorKind::UnexpectedEnd), pos)
    } else {
        let ch = raw[pos];
        if ch == 40 {
            (Ok(TokenModel::ExprBegin), pos + 1)
        } else if ch == 41 {
            (Ok(TokenModel::ExprEnd), pos + 1)
        } else if ch == 92 {
            (Ok(TokenModel::Lambda), pos + 1)
        } else if ch == 126 {
            (Ok(TokenModel::EmptyLiteral), pos + 1)
        } else if ch == 36 {
            let end = scan(raw, pos + 1, |b: u8| !is_ident_char(b));
            (Ok(TokenModel::HostFunction(ascii_text(raw.subrange(pos + 1, end)))), end)
        } else if ch == 35 {
            let end = scan(raw, pos + 1, |b: u8| is_eol(b));
            proof {
                lemma_scan_bounds(raw, pos + 1, |b: u8| is_eol(b));
            }
            next_token_spec(raw, end)
        } else if is_alpha(ch) || ch == 95 {
            let end = scan(raw, pos + 1, |b: u8| !is_ident_char(b));
            (Ok(TokenModel::Identifier(ascii_text(raw.subrange(pos, end)))), end)
        } else if is_digit(ch) {
            let end = scan(raw, pos + 1, |b: u8| !is_number_char(b));
            (number_token(raw.subrange(pos, end)), end)
        } else if is_space(ch) {
            let end = scan(raw, pos + 1, |b: u8| !is_space(b));
            proof {
                lemma_scan_bounds(raw, pos + 1, |b: u8| !is_space(b));
            }
            next_token_spec(raw, end)
        } else {
            (Err(ParseErrorKind::InvalidToken), pos + 1)
        }
    }
}

/// A token ends behind the position at which it was looked for, and within
/// the text.
pub proof fn lemma_next_token_advances(raw: Seq<u8>, pos: int)
    requires
        0 <= pos <= raw.len(),
    ensures
        next_token_spec(raw, pos).0 is Ok ==> pos < next_token_spec(raw, pos).1 <= raw.len(),
        pos <= next_token_spec(raw, pos).1 <= raw.len(),
    decreases raw.len() - pos,
{
    if pos < raw.len() {
        let ch = raw[pos];
        lemma_scan_bounds(raw, pos + 1, |b: u8| !is_ident_char(b));
        lemma_scan_bounds(raw, pos + 1, |b: u8| is_eol(b));
        lemma_scan_bounds(raw, pos + 1, |b: u8| !is_number_char(b));
        lemma_scan_bounds(raw, pos + 1, |b: u8| !is_space(b));
        if ch == 35 {
            lemma_next_token_advances(raw, scan(raw, pos + 1, |b: u8| is_eol(b)));
        } else if is_space(ch) && ch != 40 && ch != 41 && ch != 92 && ch != 126 && ch != 36 {
            lemma_next_token_advances(raw, scan(raw, pos + 1, |b: u8| !is_space(b)));
        }
    }
}


/// The token that the bytes `raw[start..end]` make, read as a number.
fn number(raw: &[u8], start: usize, end: usize) -> (r: Result<Token, ParseError>)
    requires
        start <= end <= raw@.len(),
    ensures
        match number_token(raw@.subrange(start as int, end as int)) {
            Ok(t) => r matches Ok(tok) && tok@ == t,
            Err(k) => r matches Err(e) && e@ == k,
        },
{
    let ghost text = raw@.subrange(start as int, end as int);
    let mut dots: u8 = 0;
    let mut acc: u128 = 0;
    let mut overflow = false;
    let mut i: usize = start;
    while i < end
        invariant
            start <= i <= end <= raw@.len(),
            text == raw@.subrange(start as int, end as int),
            dots <= 2,
            dots < 2 ==> dots == count_dots(text.take(i - start)),
            dots == 2 ==> count_dots(text.take(i - start)) >= 2,
            overflow ==> decimal_value(text.take(i - start)) > i64::MAX,
            !overflow ==> acc == decimal_value(text.take(i - start)) && acc <= i64::MAX,
        decreases end - i,
    {
        let b: u8 = raw[i];
        proof {
            let grown = text.take(i - start + 1);
            assert(grown.drop_last() =~= text.take(i - start));
        }
        if b == 46 && dots < 2 {
            dots = dots + 1;
        }
        if !overflow {
            let d: u128 = if digit(b) {
                (b - 48) as u128
            } else {
                0
            };
            acc = acc * 10 + d;
            if acc > 9223372036854775807u128 {
                overflow = true;
            }
        }
        i = i + 1;
    }
    proof {
        assert(text.take(end - start) =~= text);
    }
    if dots == 0 {
        if overflow {
            Err(ParseError::InvalidNumber)
        } else {
            Ok(Token::IntLiteral(acc as i64))
        }
    } else if dots == 1 {
        Ok(Token::FloatLiteral(ascii_string(raw, start, end)))
    } else {
        Err(ParseError::InvalidNumber)
    }
}

/// A source text and a position in it.
pub struct TokenStream<'a> {
    raw: &'a [u8],
    pos: usize,
}

impl<'a> TokenStream<'a> {
    /// The bytes of the text.
    pub closed spec fn raw(&self) -> Seq<u8> {
        self.raw@
    }

    /// The position of the next byte to read.
    pub closed spec fn pos(&self) -> int {
        self.pos as int
    }

    #[verifier::type_invariant]
    spec fn inv(&self) -> bool {
        self.pos <= self.raw@.len()
    }

    /// A stream at the start of `raw`.
    pub fn new(raw: &'a str) -> (r: TokenStream<'a>)
        ensures
            r.raw() == raw.spec_bytes(),
            r.pos() == 0,
    {
        TokenStream { raw: raw.as_bytes(), pos: 0 }
    }

    /// Whether only white space is left.
    pub fn at_end(&self) -> (r: bool)
        ensures
            0 <= self.pos() <= self.raw().len(),
            r == (scan(self.raw(), self.pos(), |b: u8| !is_space(b)) == self.raw().len()),
    {
        proof {
            use_type_invariant(self);
        }
        let end = token_end(
            self.raw,
            self.pos,
            not_space,
        );
        proof {
            lemma_scan_is(self.raw@, self.pos as int, end as int, |b: u8| !is_space(b));
        }
        end == self.raw.len()
    }

    /// Reads the next token, skipping white space and comments before it.
    pub fn next_token(&mut self) -> (r: Result<Token, ParseError>)
        ensures
            final(self).raw() == old(self).raw(),
            0 <= old(self).pos() <= old(self).raw().len(),
            final(self).pos() == next_token_spec(old(self).raw(), old(self).pos()).1,
            match next_token_spec(old(self).raw(), old(self).pos()).0 {
                Ok(t) => r matches Ok(tok) && tok@ == t,
                Err(k) => r matches Err(e) && e@ == k,
            },
        decreases old(self).raw().len() - old(self).pos(),
    {
        proof {
            use_type_invariant(&*self);
        }
        if self.pos == self.raw.len() {
            return Err(ParseError::UnexpectedEnd);
        }
        let start = self.pos;
        let ch: u8 = self.raw[start];
        if ch == 40 {
            self.pos = start + 1;
            Ok(Token::ExprBegin)
        } else if ch == 41 {
            self.pos = start + 1;
            Ok(Token::ExprEnd)
        } else if ch == 92 {
            self.pos = start + 1;
            Ok(Token::Lambda)
        } else if ch == 126 {
            self.pos = start + 1;
            Ok(Token::EmptyLiteral)
        } else if ch == 36 {
            let end = token_end(
                self.raw,
                start + 1,
                not_ident_char,
            );
            proof {
                lemma_scan_is(self.raw@, start + 1, end as int, |b: u8| !is_ident_char(b));
            }
            self.pos = end;
            Ok(Token::HostFunction(ascii_string(self.raw, start + 1, end)))
        } else if ch == 35 {
            let end = token_end(
                self.raw,
                start + 1,
                eol,
            );
            proof {
                lemma_scan_is(self.raw@, start + 1, end as int, |b: u8| is_eol(b));
            }
            self.pos = end;
            self.next_token()
        } else if alpha(ch) || ch == 95 {
            let end = token_end(
                self.raw,
                start + 1,
                not_ident_char,
            );
            proof {
                lemma_scan_is(self.raw@, start + 1, end as int, |b: u8| !is_ident_char(b));
            }
            self.pos = end;
            Ok(Token::Identifier(ascii_string(self.raw, start, end)))
        } else if digit(ch) {
            let end = token_end(
                self.raw,
                start + 1,
                not_number_char,
            );
            proof {
                lemma_scan_is(self.raw@, start + 1, end as int, |b: u8| !is_number_char(b));
            }
            self.pos = end;
            number(self.raw, start, end)
        } else if space(ch) {
            let end = token_end(
                self.raw,
                start + 1,
                not_space,
            );
            proof {
                lemma_scan_is(self.raw@, start + 1, end as int, |b: u8| !is_space(b));
            }
            self.pos = end;
            self.next_token()
        } else {
            self.pos = start + 1;
            Err(ParseError::InvalidToken)
        }
    }
}


/// The tree of an identifier: `true` and `false` are constants, every other
/// identifier is a name.
pub open spec fn identifier_tree(id: Seq<char>) -> Tree {
    if id == "true"@ {
        Tree::Const(Literal::Bool(true))
    } else if id == "false"@ {
        Tree::Const(Literal::Bool(false))
    } else {
        Tree::Name(id)
    }
}

/// The parameters of a lambda: the identifiers from `pos` up to the opening
/// bracket of its body, and the position behind that bracket.
pub open spec fn parse_params(raw: Seq<u8>, pos: int) -> Result<
    (Seq<Seq<char>>, int),
    ParseErrorKind,
>
    decreases raw.len() - pos,
{
    if pos < 0 || pos > raw.len() {
        Err(ParseErrorKind::UnexpectedEnd)
    } else {
        let (tok, next) = next_token_spec(raw, pos);
        match tok {
            Err(e) => Err(e),
            Ok(TokenModel::Identifier(id)) => {
                proof {
                    lemma_next_token_advances(raw, pos);
                }
                match parse_params(raw, next) {
                    Ok((rest, end)) => Ok((seq![id] + rest, end)),
                    Err(e) => Err(e),
                }
            },
            Ok(TokenModel::ExprBegin) => Ok((Seq::empty(), next)),
            Ok(_) => Err(ParseErrorKind::ExpectingExprBegin),
        }
    }
}

/// The parameters of a lambda end behind the position at which they start.
pub proof fn lemma_parse_params_advances(raw: Seq<u8>, pos: int)
    requires
        0 <= pos <= raw.len(),
    ensures
        parse_params(raw, pos) matches Ok((_, end)) ==> pos < end <= raw.len(),
    decreases raw.len() - pos,
{
    lemma_next_token_advances(raw, pos);
    let (tok, next) = next_token_spec(raw, pos);
    match tok {
        Ok(TokenModel::Identifier(id)) => {
            lemma_parse_params_advances(raw, next);
        },
        _ => {},
    }
}

/// The terms from `pos` up to the closing bracket that matches, and the
/// position behind that bracket.
///
/// A term ends within the text and not before its first token ends
/// (`lemma_parse_advances`). The definition asks for it all the same, since
/// that is what shows that it terminates.
pub open spec fn parse_items(raw: Seq<u8>, pos: int) -> Result<(Seq<Tree>, int), ParseErrorKind>
    decreases raw.len() - pos, 0int,
{
    if pos < 0 || pos > raw.len() {
        Err(ParseErrorKind::UnexpectedEnd)
    } else {
        let (tok, next) = next_token_spec(raw, pos);
        proof {
            lemma_next_token_advances(raw, pos);
        }
        match tok {
            Err(e) => Err(e),
            Ok(TokenModel::ExprEnd) => Ok((Seq::empty(), next)),
            Ok(t) => match parse_item(raw, t, next) {
                Err(e) => Err(e),
                Ok((first, after)) => if next <= after <= raw.len() {
                    match parse_items(raw, after) {
                        Err(e) => Err(e),
                        Ok((rest, end)) => Ok((seq![first] + rest, end)),
                    }
                } else {
                    Err(ParseErrorKind::UnexpectedEnd)
                },
            },
        }
    }
}

/// The term that starts with the token `tok`, which ends at `pos`, and the
/// position behind the term.
pub open spec fn parse_item(raw: Seq<u8>, tok: TokenModel, pos: int) -> Result<
    (Tree, int),
    ParseErrorKind,
>
    decreases raw.len() - pos, 2int,
{
    if pos < 0 || pos > raw.len() {
        Err(ParseErrorKind::UnexpectedEnd)
    } else {
        match tok {
            TokenModel::Identifier(id) => Ok((identifier_tree(id), pos)),
            TokenModel::EmptyLiteral => Ok((Tree::Const(Literal::Empty), pos)),
            TokenModel::IntLiteral(v) => Ok((Tree::Const(Literal::Int(v)), pos)),
            TokenModel::FloatLiteral(s) => Ok((Tree::Const(Literal::Float(s)), pos)),
            TokenModel::ExprBegin => parse_group(raw, pos),
            TokenModel::ExprEnd => Err(ParseErrorKind::BracketMismatch),
            TokenModel::Lambda => match parse_params(raw, pos) {
                Err(e) => Err(e),
                Ok((params, start)) => {
                    proof {
                        lemma_parse_params_advances(raw, pos);
                    }
                    match parse_group(raw, start) {
                        Err(e) => Err(e),
                        Ok((body, end)) => Ok(
                            (
                                Tree::Abstract { params, body: TreeBody::Expr(Box::new(body)) },
                                end,
                            ),
                        ),
                    }
                },
            },
            TokenModel::HostFunction(name) => Ok(
                (Tree::Abstract { params: Seq::empty(), body: TreeBody::Host(name) }, pos),
            ),
        }
    }
}

/// The expression that the terms from `pos` up to the closing bracket make:
/// the term itself if there is one, else the application of the first to the
/// others.
pub open spec fn parse_group(raw: Seq<u8>, pos: int) -> Result<(Tree, int), ParseErrorKind>
    decreases raw.len() - pos, 1int,
{
    match parse_items(raw, pos) {
        Err(e) => Err(e),
        Ok((items, end)) => if items.len() == 0 {
            Err(ParseErrorKind::ExpectingExprBody)
        } else if items.len() == 1 {
            Ok((items[0], end))
        } else {
            Ok(
                (
                    Tree::Apply {
                        target: Box::new(items[0]),
                        params: items.subrange(1, items.len() as int),
                    },
                    end,
                ),
            )
        },
    }
}

/// A term, a group and a list of terms end within the text, at or behind
/// the position at which they start.
pub proof fn lemma_parse_advances(raw: Seq<u8>, pos: int, tok: TokenModel, which: int)
    requires
        0 <= pos <= raw.len(),
        0 <= which <= 2,
    ensures
        which == 0 ==> (parse_items(raw, pos) matches Ok((_, end)) ==> pos < end <= raw.len()),
        which == 1 ==> (parse_group(raw, pos) matches Ok((_, end)) ==> pos < end <= raw.len()),
        which == 2 ==> (parse_item(raw, tok, pos) matches Ok((_, end)) ==> pos <= end
            <= raw.len()),
    decreases raw.len() - pos, which,
{
    if which == 0 {
        let (t, next) = next_token_spec(raw, pos);
        lemma_next_token_advances(raw, pos);
        match t {
            Ok(TokenModel::ExprEnd) => {},
            Ok(t) => {
                lemma_parse_advances(raw, next, t, 2);
                match parse_item(raw, t, next) {
                    Ok((first, after)) => {
                        lemma_parse_advances(raw, after, t, 0);
                    },
                    Err(_) => {},
                }
            },
            Err(_) => {},
        }
    } else if which == 1 {
        lemma_parse_advances(raw, pos, tok, 0);
    } else {
        match tok {
            TokenModel::ExprBegin => {
                lemma_parse_advances(raw, pos, tok, 1);
            },
            TokenModel::Lambda => {
                lemma_parse_params_advances(raw, pos);
                match parse_params(raw, pos) {
                    Ok((params, start)) => {
                        lemma_parse_advances(raw, start, tok, 1);
                    },
                    Err(_) => {},
                }
            },
            _ => {},
        }
    }
}

/// The program that a source text holds, before renaming: one bracketed
/// expression with nothing but white space behind it.
pub open spec fn parse_plain(raw: Seq<u8>) -> Result<Tree, ParseErrorKind> {
    match next_token_spec(raw, 0) {
        (Err(e), _) => Err(e),
        (Ok(TokenModel::ExprBegin), start) => match parse_group(raw, start) {
            Err(e) => Err(e),
            Ok((t, end)) => if scan(raw, end, |b: u8| !is_space(b)) != raw.len() {
                Err(ParseErrorKind::BracketMismatch)
            } else {
                Ok(t)
            },
        },
        (Ok(_), _) => Err(ParseErrorKind::ExpectingExprBegin),
    }
}

/// The program that a source text holds: what `parse_plain` reads, renamed.
pub open spec fn parse_spec(raw: Seq<u8>) -> Result<Tree, ParseErrorKind> {
    match parse_plain(raw) {
        Err(e) => Err(e),
        Ok(t) => match rename_tree(t, RenameModel { issued: Map::empty(), scope: Seq::empty() }) {
            Err(e) => Err(e),
            Ok((renamed, _)) => Ok(renamed),
        },
    }
}

/// Adding nodes to an arena leaves the unfoldings of a list of its
/// expressions as they were.
proof fn lemma_trees_of_extends(a: Seq<Node>, b: Seq<Node>, ps: Seq<Expr>)
    requires
        extends(b, a),
        forall|j: int| 0 <= j < ps.len() ==> (#[trigger] ps[j]).id < a.len(),
    ensures
        trees_of(b, ps) == trees_of(a, ps),
{
    assert forall|j: int| 0 <= j < ps.len() implies tree_of(b, ps[j]) == tree_of(a, ps[j]) by {
        lemma_tree_of_extends(a, b, ps[j]);
    }
}

/// The node of an identifier.
fn identifier_node(id: String) -> (r: ExprBody)
    ensures
        tree_of(seq![r@], Expr { id: 0 }) == identifier_tree(id@),
        r@ is Const || r@ is Name,
{
    if id.eq(&String::from_str("true")) {
        ExprBody::Const(ConstExpr::Bool(true))
    } else if id.eq(&String::from_str("false")) {
        ExprBody::Const(ConstExpr::Bool(false))
    } else {
        ExprBody::Name(id)
    }
}

/// Reads the parameters of a lambda, up to the opening bracket of its body.
fn lambda_params(input: &mut TokenStream) -> (r: Result<Vec<String>, ParseError>)
    ensures
        final(input).raw() == old(input).raw(),
        0 <= old(input).pos() <= old(input).raw().len(),
        match parse_params(old(input).raw(), old(input).pos()) {
            Ok((names, end)) => r matches Ok(v) && names_of(v@) == names && final(input).pos()
                == end,
            Err(k) => r matches Err(e) && e@ == k,
        },
{
    let ghost raw = input.raw();
    let ghost start = input.pos();
    proof {
        use_type_invariant(&*input);
    }
    let mut names: Vec<String> = Vec::new();
    loop
        invariant
            input.raw() == raw,
            raw == old(input).raw(),
            start == old(input).pos(),
            0 <= start <= raw.len(),
            0 <= input.pos() <= raw.len(),
            match parse_params(raw, input.pos()) {
                Ok((rest, end)) => parse_params(raw, start) == Ok::<
                    (Seq<Seq<char>>, int),
                    ParseErrorKind,
                >((names_of(names@) + rest, end)),
                Err(k) => parse_params(raw, start) == Err::<
                    (Seq<Seq<char>>, int),
                    ParseErrorKind,
                >(k),
            },
        decreases raw.len() - input.pos(),
    {
        let ghost before = input.pos();
        let ghost done = names_of(names@);
        proof {
            lemma_next_token_advances(raw, before);
        }
        let tok = match input.next_token() {
            Ok(tok) => tok,
            Err(e) => {
                return Err(e);
            },
        };
        match tok {
            Token::Identifier(id) => {
                names.push(id);
                proof {
                    match parse_params(raw, input.pos()) {
                        Ok((rest, end)) => {
                            assert(done + (seq![id@] + rest) =~= names_of(names@) + rest);
                        },
                        Err(_) => {},
                    }
                }
            },
            Token::ExprBegin => {
                return Ok(names);
            },
            _ => {
                return Err(ParseError::ExpectingExprBegin);
            },
        }
    }
}

/// Parses the terms up to the closing bracket that matches, the opening one
/// having been read, and adds the expression they make to `ast`.
pub fn _parse_expr(input: &mut TokenStream, ast: &mut Ast) -> (r: Result<Expr, ParseError>)
    requires
        old(ast).wf(),
    ensures
        final(ast).wf(),
        extends(final(ast)@, old(ast)@),
        final(input).raw() == old(input).raw(),
        match parse_group(old(input).raw(), old(input).pos()) {
            Ok((t, end)) => {
                &&& r matches Ok(x)
                &&& final(ast).contains(x)
                &&& tree_of(final(ast)@, x) == t
                &&& final(input).pos() == end
            },
            Err(k) => r matches Err(e) && e@ == k,
        },
    decreases old(input).raw().len() - old(input).pos(),
{
    let ghost raw = input.raw();
    let ghost start = input.pos();
    proof {
        use_type_invariant(&*input);
    }
    let mut items: Vec<Expr> = Vec::new();
    loop
        invariant
            input.raw() == raw,
            raw == old(input).raw(),
            start == old(input).pos(),
            start <= input.pos(),
            ast.wf(),
            extends(ast@, old(ast)@),
            forall|j: int| 0 <= j < items@.len() ==> ast.contains(#[trigger] items@[j]),
            match parse_items(raw, input.pos()) {
                Ok((rest, end)) => parse_items(raw, start) == Ok::<
                    (Seq<Tree>, int),
                    ParseErrorKind,
                >((trees_of(ast@, items@) + rest, end)),
                Err(k) => parse_items(raw, start) == Err::<(Seq<Tree>, int), ParseErrorKind>(k),
            },
        decreases raw.len() - input.pos(),
    {
        let ghost before = input.pos();
        let ghost ast_before = ast@;
        let ghost done = trees_of(ast@, items@);
        let tok = match input.next_token() {
            Ok(tok) => tok,
            Err(e) => {
                return Err(e);
            },
        };
        let ghost next = input.pos();
        proof {
            lemma_next_token_advances(raw, before);
            lemma_parse_advances(raw, next, tok@, 2);
        }
        let e = match tok {
            Token::Identifier(id) => {
                let node = identifier_node(id);
                let r = ast.add(node);
                r.unwrap()
            },
            Token::EmptyLiteral => ast.add(ExprBody::Const(ConstExpr::Empty)).unwrap(),
            Token::IntLiteral(v) => ast.add(ExprBody::Const(ConstExpr::Int(v))).unwrap(),
            Token::FloatLiteral(s) => ast.add(ExprBody::Const(ConstExpr::Float(s))).unwrap(),
            Token::ExprBegin => {
                match _parse_expr(input, ast) {
                    Ok(x) => x,
                    Err(e) => {
                        return Err(e);
                    },
                }
            },
            Token::ExprEnd => {
                if items.len() == 0 {
                    return Err(ParseError::ExpectingExprBody);
                } else if items.len() == 1 {
                    return Ok(items[0]);
                } else {
                    let target = items.remove(0);
                    let r = ast.add(ExprBody::Apply { target, params: items });
                    let x = r.unwrap();
                    proof {
                        lemma_tree_of_extends(ast_before, ast@, target);
                        lemma_trees_of_extends(ast_before, ast@, items@);
                        assert(tree_of(ast@, x)->Apply_params =~= trees_of(ast@, items@));
                        assert(trees_of(ast_before, items@) =~= done.subrange(
                            1,
                            done.len() as int,
                        ));
                    }
                    return Ok(x);
                }
            },
            Token::Lambda => {
                let names = match lambda_params(input) {
                    Ok(v) => v,
                    Err(e) => {
                        return Err(e);
                    },
                };
                proof {
                    lemma_parse_params_advances(raw, next);
                }
                let body = match _parse_expr(input, ast) {
                    Ok(x) => x,
                    Err(e) => {
                        return Err(e);
                    },
                };
                let ghost ast_mid = ast@;
                let r = ast.add(
                    ExprBody::Abstract { params: names, body: AbstractBody::Expr(body) },
                );
                proof {
                    lemma_tree_of_extends(ast_mid, ast@, body);
                }
                r.unwrap()
            },
            Token::HostFunction(name) => {
                let r = ast.add(
                    ExprBody::Abstract { params: Vec::new(), body: AbstractBody::Host(name) },
                );
                proof {
                    assert(names_of(Seq::<String>::empty()) =~= Seq::<Seq<char>>::empty());
                }
                r.unwrap()
            },
        };
        let ghost items_before = items@;
        items.push(e);
        proof {
            lemma_trees_of_extends(ast_before, ast@, items_before);
            match parse_items(raw, input.pos()) {
                Ok((rest, end)) => {
                    assert(done + (seq![tree_of(ast@, e)] + rest) =~= trees_of(ast@, items@)
                        + rest);
                },
                Err(_) => {},
            }
        }
    }
}

/// Parses a program: one bracketed expression with nothing but white space
/// behind it. The result is renamed, so that every name in it is bound by an
/// abstraction that encloses it and no two abstractions bind the same name.
pub fn parse_expr(input: &str) -> (r: Result<(Ast, Expr), ParseError>)
    ensures
        match parse_spec(input.spec_bytes()) {
            Ok(t) => {
                &&& r matches Ok((ast, root))
                &&& ast.wf()
                &&& ast.contains(root)
                &&& tree_of(ast@, root) == t
                &&& closed(t, Set::empty())
                &&& binds_once(t)
            },
            Err(k) => r matches Err(e) && e@ == k,
        },
{
    let mut ts = TokenStream::new(input);
    let tok = match ts.next_token() {
        Ok(tok) => tok,
        Err(e) => {
            return Err(e);
        },
    };
    match tok {
        Token::ExprBegin => {
            let mut plain = Ast::new();
            let parsed = match _parse_expr(&mut ts, &mut plain) {
                Ok(x) => x,
                Err(e) => {
                    return Err(e);
                },
            };
            let mut ctx = RenameContext::new();
            let mut ast = Ast::new();
            let ghost st = ctx@;
            let ret = rename_expr(&plain, parsed, &mut ctx, &mut ast);
            if !ts.at_end() {
                return Err(ParseError::BracketMismatch);
            }
            proof {
                lemma_rename_binds_once(tree_of(plain@, parsed), st);
                lemma_rename_closed(tree_of(plain@, parsed), st);
                assert(visible_names(st.scope) =~= Set::<Seq<char>>::empty());
            }
            match ret {
                Ok(root) => Ok((ast, root)),
                Err(e) => Err(e),
            }
        },
        _ => Err(ParseError::ExpectingExprBegin),
    }
}

} // verus!
