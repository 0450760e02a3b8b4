//! The notation of programs: a printer that is the inverse of the parser.
//!
//! A term is printed as the parser reads it: the terms of an application in
//! brackets with one space between them, a lambda as `\`, its parameters,
//! each with a space behind it, and its body in brackets. The number that
//! renaming gave to a name is left out, so what is printed is the program as
//! it was before renaming.

use crate::ast::{
    names_of, tree_of, AbstractBody, Ast, ConstExpr, Expr, ExprBody, Literal, Node, Tree, TreeBody,
};
use crate::error::ParseErrorKind;
use crate::parser::{
    count_dots, decimal_value, is_alpha, is_digit, is_eol, is_ident_char,
    is_number_char, is_space, lemma_next_token_advances, lemma_parse_advances,
    lemma_parse_params_advances, lemma_scan_bounds, lemma_scan_is, next_token_spec,
    parse_group, parse_item, parse_items, parse_params, parse_plain, parse_spec, scan, TokenModel,
};
use crate::bindings::find_last;
use crate::rename::{bind_all, rename_list, rename_tree, renamed, renamed_params, RenameModel};
use crate::text::{ascii_text, decimal, push_decimal};
use vstd::prelude::*;
use vstd::string::StringSliceAdditionalSpecFns;

verus! {

/// The bytes with the codes of the characters given, one for one.
pub open spec fn bytes_of(s: Seq<char>) -> Seq<u8> {
    Seq::new(s.len(), |i: int| s[i] as u8)
}

/// The decimal digits of a number, without leading zeros.
pub open spec fn digits(n: nat) -> Seq<u8>
    decreases n,
{
    if n < 10 {
        seq![(48 + n) as u8]
    } else {
        digits(n / 10).push((48 + n % 10) as u8)
    }
}

/// The first position from `i` on at which `n` has a `#`, or the length of
/// `n`.
pub open spec fn first_hash(n: Seq<char>, i: int) -> int
    decreases n.len() - i,
{
    if i < 0 || i >= n.len() {
        n.len() as int
    } else if n[i] == '#' {
        i
    } else {
        first_hash(n, i + 1)
    }
}

/// A name without the number that renaming gave it: what stands before its
/// first `#`.
pub open spec fn base_of(n: Seq<char>) -> Seq<char> {
    n.take(first_hash(n, 0))
}

/// The notation of a constant.
pub open spec fn print_literal(c: Literal) -> Seq<u8> {
    match c {
        Literal::Int(v) => if v >= 0 {
            digits(v as nat)
        } else {
            seq![45u8] + digits((-v) as nat)
        },
        Literal::Float(s) => bytes_of(s),
        Literal::Bool(b) => if b {
            bytes_of("true"@)
        } else {
            bytes_of("false"@)
        },
        Literal::Empty => seq![126u8],
    }
}

/// The parameters `ps[i..]` of a lambda, each with a space behind it.
pub open spec fn print_names(ps: Seq<Seq<char>>, i: int) -> Seq<u8>
    decreases ps.len() - i,
{
    if i < 0 || i >= ps.len() {
        Seq::empty()
    } else {
        bytes_of(base_of(ps[i])).push(32u8) + print_names(ps, i + 1)
    }
}

/// The notation of a term.
pub open spec fn print_term(t: Tree) -> Seq<u8>
    decreases t,
{
    match t {
        Tree::Const(c) => print_literal(c),
        Tree::Name(n) => bytes_of(base_of(n)),
        Tree::Abstract { params, body: TreeBody::Host(h) } => seq![36u8] + bytes_of(h),
        Tree::Abstract { params, body: TreeBody::Expr(b) } => seq![92u8] + print_names(params, 0)
            + bracketed(*b, print_term(*b)),
        Tree::Apply { target, params } => seq![40u8] + print_term(*target) + print_rest(params, 0)
            + seq![41u8],
        Tree::Match => seq![63u8],
        Tree::Never => seq![33u8],
    }
}

/// The arguments `params[i..]` of an application, each with a space before
/// it.
pub open spec fn print_rest(params: Seq<Tree>, i: int) -> Seq<u8>
    decreases params, params.len() - i,
{
    if i < 0 || i >= params.len() {
        Seq::empty()
    } else {
        seq![32u8] + print_term(params[i]) + print_rest(params, i + 1)
    }
}

/// The notation `text` of the term `t`, in brackets unless it has them: an
/// application has.
pub open spec fn bracketed(t: Tree, text: Seq<u8>) -> Seq<u8> {
    if t is Apply {
        text
    } else {
        seq![40u8] + text + seq![41u8]
    }
}

/// The notation of a program: its term in brackets.
pub open spec fn print_program(t: Tree) -> Seq<u8> {
    bracketed(t, print_term(t))
}

/// Whether `c` is a character with a code below 128.
pub open spec fn is_ascii(c: char) -> bool {
    (c as u32) < 128
}

/// Whether `c` is a letter, a digit or `_`.
pub open spec fn is_word_char(c: char) -> bool {
    is_ascii(c) && is_ident_char(c as u8)
}

/// Whether `s` is made of letters, digits and `_`.
pub open spec fn is_word(s: Seq<char>) -> bool {
    forall|i: int| 0 <= i < s.len() ==> is_word_char(#[trigger] s[i])
}

/// Whether `s` is an identifier: a word that does not start with a digit.
pub open spec fn is_identifier(s: Seq<char>) -> bool {
    s.len() >= 1 && is_word(s) && !is_digit(s[0] as u8)
}

/// Whether `s` is the notation of a float: digits with one `.` among them,
/// and a digit first.
pub open spec fn is_float_text(s: Seq<char>) -> bool {
    &&& s.len() >= 1
    &&& is_digit(s[0] as u8)
    &&& forall|i: int| 0 <= i < s.len() ==> is_ascii(#[trigger] s[i]) && is_number_char(s[i] as u8)
    &&& count_dots(bytes_of(s)) == 1
}

/// Whether `t` is a tree that the parser makes, before renaming: its names
/// are identifiers other than `true` and `false`, its integers are not
/// negative, its floats are written as the tokenizer reads them, its
/// applications have arguments, and its references to host functions have
/// no parameters.
pub open spec fn canonical(t: Tree) -> bool
    decreases t,
{
    match t {
        Tree::Const(Literal::Int(v)) => v >= 0,
        Tree::Const(Literal::Float(s)) => is_float_text(s),
        Tree::Const(_) => true,
        Tree::Name(n) => is_identifier(n) && n != "true"@ && n != "false"@,
        Tree::Apply { target, params } => params.len() >= 1 && canonical(*target) && forall|
            i: int,
        | 0 <= i < params.len() ==> canonical(#[trigger] params[i]),
        Tree::Abstract { params, body: TreeBody::Host(h) } => params.len() == 0 && is_word(h),
        Tree::Abstract { params, body: TreeBody::Expr(b) } => canonical(*b) && forall|i: int|
            0 <= i < params.len() ==> is_identifier(#[trigger] params[i]),
        Tree::Match => false,
        Tree::Never => false,
    }
}

/// Whether `raw` holds `text` at `pos`.
pub open spec fn holds_at(raw: Seq<u8>, pos: int, text: Seq<u8>) -> bool {
    &&& 0 <= pos
    &&& pos + text.len() <= raw.len()
    &&& forall|i: int| 0 <= i < text.len() ==> raw[pos + i] == #[trigger] text[i]
}

/// Whether a term may end before `pos`: the text ends there, or a space or
/// a closing bracket stands there.
pub open spec fn ends_term(raw: Seq<u8>, pos: int) -> bool {
    pos == raw.len() || (0 <= pos < raw.len() && (raw[pos] == 32 || raw[pos] == 41))
}


/// A text that holds two texts in a row holds each of them.
pub proof fn lemma_holds_split(raw: Seq<u8>, pos: int, a: Seq<u8>, b: Seq<u8>)
    ensures
        holds_at(raw, pos, a + b) <==> holds_at(raw, pos, a) && holds_at(raw, pos + a.len(), b),
{
    if holds_at(raw, pos, a + b) {
        assert forall|i: int| 0 <= i < a.len() implies raw[pos + i] == #[trigger] a[i] by {
            assert((a + b)[i] == a[i]);
        }
        assert forall|i: int| 0 <= i < b.len() implies raw[pos + a.len() + i] == #[trigger] b[i] by {
            assert((a + b)[a.len() + i] == b[i]);
        }
    }
}

/// The part of a text that holds `text` is `text`.
pub proof fn lemma_holds_subrange(raw: Seq<u8>, pos: int, text: Seq<u8>)
    requires
        holds_at(raw, pos, text),
    ensures
        raw.subrange(pos, pos + text.len()) == text,
{
}

/// The digits of a number are digits, and their value is the number.
pub proof fn lemma_digits(n: nat)
    ensures
        digits(n).len() >= 1,
        forall|i: int| 0 <= i < digits(n).len() ==> is_digit(#[trigger] digits(n)[i]),
        count_dots(digits(n)) == 0,
        decimal_value(digits(n)) == n,
    decreases n,
{
    if n < 10 {
        assert(decimal_value(digits(n).drop_last()) == 0);
        assert(count_dots(digits(n).drop_last()) == 0);
    } else {
        lemma_digits(n / 10);
        assert(digits(n).drop_last() =~= digits(n / 10));
    }
}

/// A name without `#` is its own base.
pub proof fn lemma_base_of_word(n: Seq<char>)
    requires
        is_word(n),
    ensures
        base_of(n) == n,
{
    lemma_first_hash_word(n, 0);
}

proof fn lemma_first_hash_word(n: Seq<char>, i: int)
    requires
        is_word(n),
        0 <= i <= n.len(),
    ensures
        first_hash(n, i) == n.len(),
    decreases n.len() - i,
{
    if i < n.len() {
        lemma_first_hash_word(n, i + 1);
    }
}

/// The characters of the bytes of a word are the word.
pub proof fn lemma_text_of_bytes(s: Seq<char>)
    requires
        forall|i: int| 0 <= i < s.len() ==> is_ascii(#[trigger] s[i]),
    ensures
        ascii_text(bytes_of(s)) == s,
{
    assert forall|i: int| 0 <= i < s.len() implies ascii_text(bytes_of(s))[i] == s[i] by {
        lemma_char_of_byte(s[i]);
    }
}

/// The character with the code of a character below 128 is that character.
pub proof fn lemma_char_of_byte(c: char)
    requires
        is_ascii(c),
    ensures
        ((c as u8) as char) == c,
{
}

/// Where a word stands, the scan for the end of a word stops behind it.
proof fn lemma_scan_word(raw: Seq<u8>, begin: int, end: int)
    requires
        0 <= begin <= end <= raw.len(),
        forall|i: int| begin <= i < end ==> is_ident_char(#[trigger] raw[i]),
        end == raw.len() || !is_ident_char(raw[end]),
    ensures
        scan(raw, begin, |b: u8| !is_ident_char(b)) == end,
{
    lemma_scan_is(raw, begin, end, |b: u8| !is_ident_char(b));
}

/// Where an identifier stands, the tokenizer reads it.
pub proof fn lemma_token_identifier(raw: Seq<u8>, pos: int, name: Seq<char>)
    requires
        is_identifier(name),
        holds_at(raw, pos, bytes_of(name)),
        ends_term(raw, pos + name.len()),
    ensures
        next_token_spec(raw, pos) == (
            Ok::<TokenModel, ParseErrorKind>(TokenModel::Identifier(name)),
            pos + name.len(),
        ),
{
    let end = pos + name.len();
    assert forall|i: int| pos + 1 <= i < end implies is_ident_char(#[trigger] raw[i]) by {
        assert(raw[pos + (i - pos)] == bytes_of(name)[i - pos]);
    }
    lemma_scan_word(raw, pos + 1, end);
    lemma_holds_subrange(raw, pos, bytes_of(name));
    lemma_text_of_bytes(name);
}

/// Where a reference to a host function stands, the tokenizer reads it.
pub proof fn lemma_token_host(raw: Seq<u8>, pos: int, name: Seq<char>)
    requires
        is_word(name),
        holds_at(raw, pos, seq![36u8] + bytes_of(name)),
        ends_term(raw, pos + 1 + name.len()),
    ensures
        next_token_spec(raw, pos) == (
            Ok::<TokenModel, ParseErrorKind>(TokenModel::HostFunction(name)),
            pos + 1 + name.len(),
        ),
{
    let end = pos + 1 + name.len();
    lemma_holds_split(raw, pos, seq![36u8], bytes_of(name));
    assert(raw[pos + 0] == seq![36u8][0]);
    assert forall|i: int| pos + 1 <= i < end implies is_ident_char(#[trigger] raw[i]) by {
        assert(raw[pos + 1 + (i - pos - 1)] == bytes_of(name)[i - pos - 1]);
    }
    lemma_scan_word(raw, pos + 1, end);
    lemma_holds_subrange(raw, pos + 1, bytes_of(name));
    lemma_text_of_bytes(name);
}

/// Where a number stands, the tokenizer reads the run of digits and dots.
proof fn lemma_scan_number(raw: Seq<u8>, pos: int, text: Seq<u8>)
    requires
        text.len() >= 1,
        forall|i: int| 0 <= i < text.len() ==> is_number_char(#[trigger] text[i]),
        holds_at(raw, pos, text),
        ends_term(raw, pos + text.len()),
    ensures
        scan(raw, pos + 1, |b: u8| !is_number_char(b)) == pos + text.len(),
        raw.subrange(pos, pos + text.len()) == text,
{
    let end = pos + text.len();
    assert forall|i: int| pos + 1 <= i < end implies is_number_char(#[trigger] raw[i]) by {
        assert(raw[pos + (i - pos)] == text[i - pos]);
    }
    lemma_scan_is(raw, pos + 1, end, |b: u8| !is_number_char(b));
}

/// Where the digits of an integer stand, the tokenizer reads the integer.
pub proof fn lemma_token_int(raw: Seq<u8>, pos: int, v: i64)
    requires
        v >= 0,
        holds_at(raw, pos, digits(v as nat)),
        ends_term(raw, pos + digits(v as nat).len()),
    ensures
        next_token_spec(raw, pos) == (
            Ok::<TokenModel, ParseErrorKind>(TokenModel::IntLiteral(v)),
            pos + digits(v as nat).len(),
        ),
{
    let text = digits(v as nat);
    lemma_digits(v as nat);
    assert(is_digit(text[0]));
    lemma_scan_number(raw, pos, text);
}

/// Where the notation of a float stands, the tokenizer reads the float.
pub proof fn lemma_token_float(raw: Seq<u8>, pos: int, s: Seq<char>)
    requires
        is_float_text(s),
        holds_at(raw, pos, bytes_of(s)),
        ends_term(raw, pos + s.len()),
    ensures
        next_token_spec(raw, pos) == (
            Ok::<TokenModel, ParseErrorKind>(TokenModel::FloatLiteral(s)),
            pos + s.len(),
        ),
{
    let text = bytes_of(s);
    lemma_scan_number(raw, pos, text);
    lemma_text_of_bytes(s);
}

/// `true` and `false` are identifiers.
proof fn lemma_truth_words()
    ensures
        is_identifier("true"@),
        is_identifier("false"@),
        "true"@ != "false"@,
        bytes_of("true"@)[0] == 116,
        bytes_of("false"@)[0] == 102,
{
    reveal_strlit("true");
    reveal_strlit("false");
}

/// The notation of a term starts with a byte that is neither a space nor a
/// closing bracket, and the notation of an application with an opening
/// bracket.
pub proof fn lemma_first_byte(t: Tree)
    requires
        canonical(t),
    ensures
        print_term(t).len() >= 1,
        !is_space(print_term(t)[0]),
        print_term(t)[0] != 41,
        t is Apply ==> print_term(t)[0] == 40,
{
    match t {
        Tree::Const(Literal::Int(v)) => {
            lemma_digits(v as nat);
        },
        Tree::Const(Literal::Float(s)) => {},
        Tree::Const(Literal::Bool(b)) => {
            lemma_truth_words();
        },
        Tree::Const(Literal::Empty) => {},
        Tree::Name(n) => {
            lemma_base_of_word(n);
        },
        Tree::Abstract { params, body: TreeBody::Host(h) } => {},
        Tree::Abstract { params, body: TreeBody::Expr(b) } => {},
        Tree::Apply { target, params } => {},
        _ => {},
    }
}

/// Where the parameters of a lambda stand, with the opening bracket of its
/// body behind them, the parser reads them.
pub proof fn lemma_parse_names(ps: Seq<Seq<char>>, i: int, raw: Seq<u8>, pos: int)
    requires
        0 <= i <= ps.len(),
        forall|j: int| 0 <= j < ps.len() ==> is_identifier(#[trigger] ps[j]),
        holds_at(raw, pos, print_names(ps, i).push(40u8)),
    ensures
        parse_params(raw, pos) == Ok::<(Seq<Seq<char>>, int), ParseErrorKind>(
            (ps.subrange(i, ps.len() as int), pos + print_names(ps, i).len() + 1),
        ),
    decreases ps.len() - i,
{
    if i == ps.len() {
        assert(raw[pos + 0] == print_names(ps, i).push(40u8)[0]);
        assert(ps.subrange(i, ps.len() as int) =~= Seq::<Seq<char>>::empty());
    } else {
        let name = ps[i];
        let word = bytes_of(name);
        let rest = print_names(ps, i + 1).push(40u8);
        lemma_base_of_word(name);
        assert(print_names(ps, i).push(40u8) =~= (word + seq![32u8]) + rest);
        lemma_holds_split(raw, pos, word + seq![32u8], rest);
        lemma_holds_split(raw, pos, word, seq![32u8]);
        let next = pos + word.len();
        assert(raw[next + 0] == seq![32u8][0]);
        lemma_token_identifier(raw, pos, name);
        lemma_parse_names(ps, i + 1, raw, next + 1);
        assert(parse_params(raw, next) == parse_params(raw, next + 1));
        assert(seq![name] + ps.subrange(i + 1, ps.len() as int) =~= ps.subrange(
            i,
            ps.len() as int,
        ));
    }
}

/// Where the notation of an application stands, the parser reads the
/// application from behind its opening bracket.
pub proof fn lemma_parse_apply(t: Tree, raw: Seq<u8>, pos: int)
    requires
        canonical(t),
        t is Apply,
        holds_at(raw, pos, print_term(t)),
    ensures
        parse_group(raw, pos + 1) == Ok::<(Tree, int), ParseErrorKind>(
            (t, pos + print_term(t).len()),
        ),
    decreases t, 0int,
{
    let target = *t->Apply_target;
    let params = t->Apply_params;
    let head = seq![40u8] + print_term(target);
    let tail = print_rest(params, 0).push(41u8);
    assert(print_term(t) =~= head + tail);
    lemma_holds_split(raw, pos, head, tail);
    lemma_holds_split(raw, pos, seq![40u8], print_term(target));
    let after = pos + 1 + print_term(target).len();
    // The first argument follows, so a space stands behind the target.
    assert(raw[after + 0] == tail[0]);
    lemma_parse_term(target, raw, pos + 1);
    lemma_parse_rest(params, 0, raw, after);
    let (tok, next) = next_token_spec(raw, pos + 1);
    lemma_parse_advances(raw, next, tok->Ok_0, 2);
    let items = seq![target] + params.subrange(0, params.len() as int);
    assert(items.subrange(1, items.len() as int) =~= params);
}

/// Where the arguments `params[i..]` of an application stand, with the
/// closing bracket behind them, the parser reads them.
pub proof fn lemma_parse_rest(params: Seq<Tree>, i: int, raw: Seq<u8>, pos: int)
    requires
        0 <= i <= params.len(),
        forall|j: int| 0 <= j < params.len() ==> canonical(#[trigger] params[j]),
        holds_at(raw, pos, print_rest(params, i).push(41u8)),
    ensures
        parse_items(raw, pos) == Ok::<(Seq<Tree>, int), ParseErrorKind>(
            (params.subrange(i, params.len() as int), pos + print_rest(params, i).len() + 1),
        ),
    decreases params, params.len() - i,
{
    if i == params.len() {
        assert(raw[pos + 0] == print_rest(params, i).push(41u8)[0]);
        assert(params.subrange(i, params.len() as int) =~= Seq::<Tree>::empty());
    } else {
        let term = print_term(params[i]);
        let tail = print_rest(params, i + 1).push(41u8);
        lemma_holds_split(raw, pos, seq![32u8] + term, tail);
        lemma_holds_split(raw, pos, seq![32u8], term);
        assert(raw[pos + 0] == seq![32u8][0]);
        let after = pos + 1 + term.len();
        if i + 1 < params.len() {
            assert(tail[0] == 32);
        } else {
            assert(tail[0] == 41);
        }
        lemma_parse_term(params[i], raw, pos + 1);
        lemma_parse_rest(params, i + 1, raw, after);
        let (tok, next) = next_token_spec(raw, pos);
        lemma_parse_advances(raw, next, tok->Ok_0, 2);
        assert(seq![params[i]] + params.subrange(i + 1, params.len() as int)
            =~= params.subrange(i, params.len() as int));
    }
}

/// Where the notation of a term stands, with the end of the text, a space
/// or a closing bracket behind it, the parser reads the term.
pub proof fn lemma_parse_term(t: Tree, raw: Seq<u8>, pos: int)
    requires
        canonical(t),
        holds_at(raw, pos, print_term(t)),
        ends_term(raw, pos + print_term(t).len()),
    ensures
        ({
            let (tok, next) = next_token_spec(raw, pos);
            &&& tok is Ok
            &&& !(tok->Ok_0 is ExprEnd)
            &&& parse_item(raw, tok->Ok_0, next) == Ok::<(Tree, int), ParseErrorKind>(
                (t, pos + print_term(t).len()),
            )
        }),
    decreases t, 1int,
{
    lemma_first_byte(t);
    match t {
        Tree::Const(Literal::Int(v)) => {
            lemma_token_int(raw, pos, v);
        },
        Tree::Const(Literal::Float(s)) => {
            lemma_token_float(raw, pos, s);
        },
        Tree::Const(Literal::Bool(b)) => {
            lemma_truth_words();
            if b {
                lemma_token_identifier(raw, pos, "true"@);
            } else {
                lemma_token_identifier(raw, pos, "false"@);
            }
        },
        Tree::Const(Literal::Empty) => {},
        Tree::Name(n) => {
            lemma_base_of_word(n);
            lemma_token_identifier(raw, pos, n);
        },
        Tree::Abstract { params, body: TreeBody::Host(h) } => {
            lemma_token_host(raw, pos, h);
            assert(params =~= Seq::<Seq<char>>::empty());
        },
        Tree::Abstract { params, body: TreeBody::Expr(b) } => {
            let names = print_names(params, 0);
            let group = bracketed(*b, print_term(*b));
            lemma_holds_split(raw, pos, seq![92u8] + names, group);
            lemma_holds_split(raw, pos, seq![92u8], names);
            let open = pos + 1 + names.len();
            lemma_first_byte(*b);
            assert(raw[open + 0] == group[0]);
            lemma_parse_names(params, 0, raw, pos + 1);
            assert(params.subrange(0, params.len() as int) =~= params);
            lemma_parse_group(*b, raw, open);
        },
        Tree::Apply { target, params } => {
            lemma_parse_apply(t, raw, pos);
        },
        _ => {},
    }
}

/// Where the notation of a term stands in brackets, the parser reads the
/// term from behind the opening bracket.
pub proof fn lemma_parse_group(t: Tree, raw: Seq<u8>, pos: int)
    requires
        canonical(t),
        holds_at(raw, pos, bracketed(t, print_term(t))),
    ensures
        parse_group(raw, pos + 1) == Ok::<(Tree, int), ParseErrorKind>(
            (t, pos + bracketed(t, print_term(t)).len()),
        ),
    decreases t, 2int,
{
    if t is Apply {
        lemma_parse_apply(t, raw, pos);
    } else {
        let term = print_term(t);
        lemma_holds_split(raw, pos, seq![40u8] + term, seq![41u8]);
        lemma_holds_split(raw, pos, seq![40u8], term);
        let after = pos + 1 + term.len();
        assert(raw[after + 0] == seq![41u8][0]);
        lemma_parse_term(t, raw, pos + 1);
        let (tok, next) = next_token_spec(raw, pos + 1);
        lemma_parse_advances(raw, next, tok->Ok_0, 2);
    }
}

/// The parser reads what the printer writes: the notation of a tree that
/// the parser makes is read as that tree.
pub proof fn lemma_parse_print(t: Tree)
    requires
        canonical(t),
    ensures
        parse_plain(print_program(t)) == Ok::<Tree, ParseErrorKind>(t),
{
    let raw = print_program(t);
    lemma_parse_group(t, raw, 0);
}


/// A renamed name is no identifier, so it is the name of no binding that a
/// source text holds.
pub proof fn lemma_renamed_not_identifier(n: Seq<char>, k: nat)
    ensures
        !is_identifier(renamed(n, k)),
{
    let r = renamed(n, k);
    if is_identifier(r) {
        assert(is_word_char(r[n.len() as int]));
    }
}

/// The base of a renamed name is the name it was made from.
pub proof fn lemma_base_of_renamed(n: Seq<char>, k: nat)
    requires
        is_word(n),
    ensures
        base_of(renamed(n, k)) == n,
{
    lemma_first_hash_renamed(n, k, 0);
}

proof fn lemma_first_hash_renamed(n: Seq<char>, k: nat, i: int)
    requires
        is_word(n),
        0 <= i <= n.len(),
    ensures
        first_hash(renamed(n, k), i) == n.len(),
    decreases n.len() - i,
{
    if i < n.len() {
        lemma_first_hash_renamed(n, k, i + 1);
    }
}

/// Lists of parameters with the same bases are printed alike.
proof fn lemma_print_names_alike(a: Seq<Seq<char>>, b: Seq<Seq<char>>, i: int)
    requires
        a.len() == b.len(),
        0 <= i <= a.len(),
        forall|j: int| 0 <= j < a.len() ==> base_of(#[trigger] a[j]) == base_of(b[j]),
    ensures
        print_names(a, i) == print_names(b, i),
    decreases a.len() - i,
{
    if i < a.len() {
        lemma_print_names_alike(a, b, i + 1);
    }
}

/// Lists of terms that are printed alike one by one are printed alike.
proof fn lemma_print_rest_alike(a: Seq<Tree>, b: Seq<Tree>, i: int)
    requires
        a.len() == b.len(),
        0 <= i <= a.len(),
        forall|j: int| 0 <= j < a.len() ==> print_term(#[trigger] a[j]) == print_term(b[j]),
    ensures
        print_rest(a, i) == print_rest(b, i),
    decreases a.len() - i,
{
    if i < a.len() {
        lemma_print_rest_alike(a, b, i + 1);
    }
}

/// Renaming does not show in print: a renamed tree is printed as the tree it
/// was made from.
pub proof fn lemma_print_renamed(u: Tree, st: RenameModel)
    requires
        canonical(u),
    ensures
        rename_tree(u, st) matches Ok((t, _)) ==> print_term(t) == print_term(u) && (t is Apply
            <==> u is Apply),
    decreases u,
{
    match u {
        Tree::Name(n) => {
            match find_last(st.scope, n) {
                Some(k) => {
                    lemma_base_of_renamed(n, k as nat);
                    lemma_base_of_word(n);
                },
                None => {},
            }
        },
        Tree::Apply { target, params } => {
            lemma_print_renamed(*target, st);
            match rename_tree(*target, st) {
                Ok((new_target, issued)) => {
                    let mid = RenameModel { issued, scope: st.scope };
                    lemma_print_renamed_list(params, 0, mid);
                    match rename_list(params, 0, mid) {
                        Ok((new_params, _)) => {
                            lemma_print_rest_alike(new_params, params, 0);
                        },
                        Err(_) => {},
                    }
                },
                Err(_) => {},
            }
        },
        Tree::Abstract { params, body } => {
            match bind_all(st, params) {
                Some(inner) => {
                    let new_params = renamed_params(inner.scope, params);
                    assert forall|j: int| 0 <= j < params.len() implies base_of(
                        #[trigger] new_params[j],
                    ) == base_of(params[j]) by {
                        lemma_base_of_renamed(
                            params[j],
                            find_last(inner.scope, params[j])->0 as nat,
                        );
                        lemma_base_of_word(params[j]);
                    }
                    lemma_print_names_alike(new_params, params, 0);
                    match body {
                        TreeBody::Expr(b) => {
                            lemma_print_renamed(*b, inner);
                        },
                        _ => {},
                    }
                },
                None => {},
            }
        },
        _ => {},
    }
}

/// The list form of `lemma_print_renamed`.
pub proof fn lemma_print_renamed_list(us: Seq<Tree>, i: int, st: RenameModel)
    requires
        0 <= i <= us.len(),
        forall|j: int| 0 <= j < us.len() ==> canonical(#[trigger] us[j]),
    ensures
        rename_list(us, i, st) matches Ok((ts, _)) ==> ts.len() == us.len() - i && forall|j: int|
            0 <= j < ts.len() ==> print_term(#[trigger] ts[j]) == print_term(us[i + j]),
    decreases us, us.len() - i,
{
    if i < us.len() {
        lemma_print_renamed(us[i], st);
        match rename_tree(us[i], st) {
            Ok((first, issued)) => {
                lemma_print_renamed_list(us, i + 1, RenameModel { issued, scope: st.scope });
            },
            Err(_) => {},
        }
    }
}


/// Whether a token holds what the tokenizer puts in one.
pub open spec fn token_ok(tok: TokenModel) -> bool {
    match tok {
        TokenModel::Identifier(id) => is_identifier(id),
        TokenModel::HostFunction(h) => is_word(h),
        TokenModel::IntLiteral(v) => v >= 0,
        TokenModel::FloatLiteral(s) => is_float_text(s),
        _ => true,
    }
}

/// What the tokenizer reads is well formed: see `token_ok`.
pub proof fn lemma_token_ok(raw: Seq<u8>, pos: int)
    requires
        0 <= pos <= raw.len(),
    ensures
        next_token_spec(raw, pos).0 matches Ok(tok) ==> token_ok(tok),
    decreases raw.len() - pos,
{
    if pos < raw.len() {
        let ch = raw[pos];
        lemma_scan_bounds(raw, pos + 1, |b: u8| !is_ident_char(b));
        lemma_scan_bounds(raw, pos + 1, |b: u8| is_eol(b));
        lemma_scan_bounds(raw, pos + 1, |b: u8| !is_number_char(b));
        lemma_scan_bounds(raw, pos + 1, |b: u8| !is_space(b));
        if ch == 40 || ch == 41 || ch == 92 || ch == 126 {
        } else if ch == 36 {
        } else if ch == 35 {
            lemma_token_ok(raw, scan(raw, pos + 1, |b: u8| is_eol(b)));
        } else if is_alpha(ch) || ch == 95 {
        } else if is_digit(ch) {
            let end = scan(raw, pos + 1, |b: u8| !is_number_char(b));
            let text = raw.subrange(pos, end);
            if count_dots(text) == 1 {
                let s = ascii_text(text);
                assert(bytes_of(s) =~= text);
            }
        } else if is_space(ch) {
            lemma_token_ok(raw, scan(raw, pos + 1, |b: u8| !is_space(b)));
        }
    }
}

/// The parameters that the parser reads are identifiers.
pub proof fn lemma_params_canonical(raw: Seq<u8>, pos: int)
    requires
        0 <= pos <= raw.len(),
    ensures
        parse_params(raw, pos) matches Ok((ps, _)) ==> forall|j: int|
            0 <= j < ps.len() ==> is_identifier(#[trigger] ps[j]),
    decreases raw.len() - pos,
{
    lemma_next_token_advances(raw, pos);
    lemma_token_ok(raw, pos);
    let (tok, next) = next_token_spec(raw, pos);
    match tok {
        Ok(TokenModel::Identifier(id)) => {
            lemma_params_canonical(raw, next);
        },
        _ => {},
    }
}

/// What the parser reads, before renaming, is canonical: the terms up to a
/// closing bracket (`which` is 0), the expression they make (1), and the
/// term that starts with a token (2).
pub proof fn lemma_parse_canonical(raw: Seq<u8>, pos: int, tok: TokenModel, which: int)
    requires
        0 <= pos <= raw.len(),
        0 <= which <= 2,
        which == 2 ==> token_ok(tok),
    ensures
        which == 0 ==> (parse_items(raw, pos) matches Ok((items, _)) ==> forall|j: int|
            0 <= j < items.len() ==> canonical(#[trigger] items[j])),
        which == 1 ==> (parse_group(raw, pos) matches Ok((t, _)) ==> canonical(t)),
        which == 2 ==> (parse_item(raw, tok, pos) matches Ok((t, _)) ==> canonical(t)),
    decreases raw.len() - pos, which,
{
    if which == 0 {
        let (t, next) = next_token_spec(raw, pos);
        lemma_next_token_advances(raw, pos);
        lemma_token_ok(raw, pos);
        match t {
            Ok(TokenModel::ExprEnd) => {},
            Ok(t) => {
                lemma_parse_canonical(raw, next, t, 2);
                lemma_parse_advances(raw, next, t, 2);
                match parse_item(raw, t, next) {
                    Ok((first, after)) => {
                        lemma_parse_canonical(raw, after, t, 0);
                    },
                    Err(_) => {},
                }
            },
            Err(_) => {},
        }
    } else if which == 1 {
        lemma_parse_canonical(raw, pos, tok, 0);
    } else {
        match tok {
            TokenModel::Identifier(id) => {},
            TokenModel::ExprBegin => {
                lemma_parse_canonical(raw, pos, tok, 1);
            },
            TokenModel::Lambda => {
                lemma_parse_params_advances(raw, pos);
                lemma_params_canonical(raw, pos);
                match parse_params(raw, pos) {
                    Ok((params, start)) => {
                        lemma_parse_canonical(raw, start, tok, 1);
                    },
                    Err(_) => {},
                }
            },
            _ => {},
        }
    }
}

/// A program that was parsed and printed is parsed as the same program.
/// So printing what was parsed, from any source text that is a program,
/// gives a text that stays as it is when it is parsed and printed again.
pub proof fn lemma_print_parse_fixed(source: Seq<u8>)
    ensures
        parse_spec(source) matches Ok(t) ==> parse_spec(print_program(t)) == Ok::<
            Tree,
            ParseErrorKind,
        >(t),
{
    match parse_plain(source) {
        Ok(u) => {
            let st = RenameModel { issued: Map::empty(), scope: Seq::empty() };
            let (tok, start) = next_token_spec(source, 0);
            lemma_parse_canonical(source, start, TokenModel::ExprBegin, 1);
            lemma_print_renamed(u, st);
            lemma_parse_print(u);
        },
        Err(_) => {},
    }
}


/// The characters of the digits of a number are its decimal notation.
pub proof fn lemma_decimal_digits(n: nat)
    ensures
        ascii_text(digits(n)) == decimal(n),
    decreases n,
{
    if n < 10 {
    } else {
        lemma_decimal_digits(n / 10);
    }
}

/// Appends the character with the code `b`.
fn push_byte(out: &mut String, b: u8)
    ensures
        final(out)@ == old(out)@ + ascii_text(seq![b]),
{
    out.push(b as char);
}

/// Appends the characters of `s[..end]`, each cut to a byte.
fn push_chars(out: &mut String, s: &str, end: usize)
    requires
        end <= s@.len(),
    ensures
        final(out)@ == old(out)@ + ascii_text(bytes_of(s@.take(end as int))),
{
    let mut i: usize = 0;
    while i < end
        invariant
            i <= end <= s@.len(),
            out@ == old(out)@ + ascii_text(bytes_of(s@.take(i as int))),
        decreases end - i,
    {
        let c = s.get_char(i);
        let b: u8 = #[verifier::truncate]
        (c as u8);
        out.push(b as char);
        i = i + 1;
    }
}

/// The position of the first `#` in `s`, or the length of `s`.
fn hash_position(s: &str) -> (r: usize)
    ensures
        r == first_hash(s@, 0),
        r <= s@.len(),
{
    let n = s.unicode_len();
    let mut i: usize = 0;
    while i < n
        invariant
            i <= n,
            n == s@.len(),
            first_hash(s@, 0) == first_hash(s@, i as int),
        decreases n - i,
    {
        if s.get_char(i) == '#' {
            return i;
        }
        i = i + 1;
    }
    n
}

/// Appends the notation of a constant.
fn print_const(out: &mut String, c: &ConstExpr)
    ensures
        final(out)@ == old(out)@ + ascii_text(print_literal(c@)),
{
    match c {
        ConstExpr::Int(v) => {
            if *v >= 0 {
                proof {
                    lemma_decimal_digits(*v as nat);
                }
                push_decimal(out, *v as u64);
            } else {
                let wide: i128 = *v as i128;
                let size: u64 = (-wide) as u64;
                push_byte(out, 45);
                push_decimal(out, size);
                proof {
                    lemma_decimal_digits(size as nat);
                }
            }
        },
        ConstExpr::Float(s) => {
            let n = s.as_str().unicode_len();
            push_chars(out, s.as_str(), n);
        },
        ConstExpr::Bool(b) => {
            if *b {
                proof {
                    reveal_strlit("true");
                }
                push_chars(out, "true", 4);
            } else {
                proof {
                    reveal_strlit("false");
                }
                push_chars(out, "false", 5);
            }
        },
        ConstExpr::Empty => {
            push_byte(out, 126);
        },
    }
}

/// Appends the base of a name.
fn print_name(out: &mut String, name: &String)
    ensures
        final(out)@ == old(out)@ + ascii_text(bytes_of(base_of(name@))),
{
    let end = hash_position(name.as_str());
    push_chars(out, name.as_str(), end);
}

/// Appends the notation of the term `e`.
fn print_to(ast: &Ast, e: Expr, out: &mut String)
    requires
        ast.wf(),
    ensures
        final(out)@ == old(out)@ + ascii_text(print_term(tree_of(ast@, e))),
    decreases e.id, 0int,
{
    let node = match ast.get(e) {
        Some(node) => node,
        None => {
            push_byte(out, 33);
            return ;
        },
    };
    let ghost t = tree_of(ast@, e);
    match node {
        ExprBody::Const(c) => {
            print_const(out, c);
        },
        ExprBody::Name(n) => {
            print_name(out, n);
        },
        ExprBody::Abstract { params, body: AbstractBody::Host(h) } => {
            push_byte(out, 36);
            let n = h.as_str().unicode_len();
            push_chars(out, h.as_str(), n);
        },
        ExprBody::Abstract { params, body: AbstractBody::Expr(b) } => {
            push_byte(out, 92);
            let ghost names = names_of(params@);
            let mut i: usize = 0;
            let ghost mut done: Seq<u8> = Seq::empty();
            while i < params.len()
                invariant
                    i <= params@.len(),
                    names == names_of(params@),
                    out@ == old(out)@ + ascii_text(seq![92u8]) + ascii_text(done),
                    print_names(names, 0) == done + print_names(names, i as int),
                decreases params@.len() - i,
            {
                print_name(out, &params[i]);
                push_byte(out, 32);
                proof {
                    let word = bytes_of(base_of(names[i as int]));
                    let grown = done + word.push(32u8);
                    done = grown;
                }
                i = i + 1;
            }
            print_group_to(ast, *b, out);
        },
        ExprBody::Apply { target, params } => {
            push_byte(out, 40);
            print_to(ast, *target, out);
            let ghost head = seq![40u8] + print_term(tree_of(ast@, *target));
            let ghost trees = t->Apply_params;
            let ghost mut done: Seq<u8> = Seq::empty();
            let mut i: usize = 0;
            while i < params.len()
                invariant
                    i <= params@.len(),
                    ast.wf(),
                    ast.contains(e),
                    ast@[e.id as int] == (Node::Apply { target: *target, params: params@ }),
                    t == tree_of(ast@, e),
                    trees == t->Apply_params,
                    trees.len() == params@.len(),
                    out@ == old(out)@ + ascii_text(head) + ascii_text(done),
                    print_rest(trees, 0) == done + print_rest(trees, i as int),
                decreases params@.len() - i,
            {
                push_byte(out, 32);
                print_to(ast, params[i], out);
                proof {
                    let term = print_term(tree_of(ast@, params@[i as int]));
                    let grown = done + (seq![32u8] + term);
                    done = grown;
                }
                i = i + 1;
            }
            push_byte(out, 41);
        },
        ExprBody::Match { .. } => {
            push_byte(out, 63);
        },
        ExprBody::Never => {
            push_byte(out, 33);
        },
    }
}

/// Appends the notation of the term `e`, in brackets.
fn print_group_to(ast: &Ast, e: Expr, out: &mut String)
    requires
        ast.wf(),
    ensures
        final(out)@ == old(out)@ + ascii_text(
            bracketed(tree_of(ast@, e), print_term(tree_of(ast@, e))),
        ),
    decreases e.id, 1int,
{
    let applied = match ast.get(e) {
        Some(ExprBody::Apply { .. }) => true,
        _ => false,
    };
    if applied {
        print_to(ast, e, out);
    } else {
        push_byte(out, 40);
        print_to(ast, e, out);
        push_byte(out, 41);
    }
}

/// The notation of the program `e`: a text that the parser reads as the
/// program, if the program is one that the parser makes. The numbers that
/// renaming gave to the names are left out.
pub fn pretty_print(ast: &Ast, e: Expr) -> (r: String)
    requires
        ast.wf(),
    ensures
        r@ == ascii_text(print_program(tree_of(ast@, e))),
{
    let mut out = String::new();
    print_group_to(ast, e, &mut out);
    out
}


/// Whether every byte is below 128.
pub open spec fn all_plain(text: Seq<u8>) -> bool {
    forall|i: int| 0 <= i < text.len() ==> #[trigger] text[i] < 128
}

/// The parameters of a lambda are printed in bytes below 128.
proof fn lemma_plain_names(ps: Seq<Seq<char>>, i: int)
    requires
        0 <= i <= ps.len(),
        forall|j: int| 0 <= j < ps.len() ==> is_identifier(#[trigger] ps[j]),
    ensures
        all_plain(print_names(ps, i)),
    decreases ps.len() - i,
{
    if i < ps.len() {
        lemma_plain_names(ps, i + 1);
        lemma_base_of_word(ps[i]);
    }
}

/// The arguments of an application are printed in bytes below 128.
proof fn lemma_plain_rest(params: Seq<Tree>, i: int)
    requires
        0 <= i <= params.len(),
        forall|j: int| 0 <= j < params.len() ==> canonical(#[trigger] params[j]),
    ensures
        all_plain(print_rest(params, i)),
    decreases params, params.len() - i,
{
    if i < params.len() {
        lemma_plain_term(params[i]);
        lemma_plain_rest(params, i + 1);
    }
}

/// A term that the parser makes is printed in bytes below 128.
pub proof fn lemma_plain_term(t: Tree)
    requires
        canonical(t),
    ensures
        all_plain(print_term(t)),
    decreases t,
{
    match t {
        Tree::Const(Literal::Int(v)) => {
            lemma_digits(v as nat);
        },
        Tree::Const(Literal::Float(s)) => {},
        Tree::Const(Literal::Bool(b)) => {
            lemma_truth_words();
        },
        Tree::Const(Literal::Empty) => {},
        Tree::Name(n) => {
            lemma_base_of_word(n);
        },
        Tree::Abstract { params, body: TreeBody::Host(h) } => {},
        Tree::Abstract { params, body: TreeBody::Expr(b) } => {
            lemma_plain_names(params, 0);
            lemma_plain_term(*b);
        },
        Tree::Apply { target, params } => {
            lemma_plain_term(*target);
            lemma_plain_rest(params, 0);
        },
        _ => {},
    }
}

/// A string whose characters have the codes of bytes below 128 is made of
/// those bytes.
pub proof fn lemma_bytes_of_text(printed: &str, text: Seq<u8>)
    requires
        all_plain(text),
        printed@ == ascii_text(text),
    ensures
        printed.spec_bytes() == text,
{
    assert forall|i: int| 0 <= i < printed@.len() implies '\0' <= #[trigger] printed@[i]
        <= '\u{7f}' by {}
    vstd::utf8::is_ascii_chars_encode_utf8(printed@);
}

/// The law of parser and printer. Let a source text hold a program, and
/// let `printed` be what `pretty_print` makes of the program that
/// `parse_expr` reads from it. Then `parse_expr` reads the same program from
/// `printed`, so that to parse and print `printed` gives `printed` again.
pub proof fn lemma_printed_program_parses(source: Seq<u8>, printed: &str)
    requires
        parse_spec(source) matches Ok(t) && printed@ == ascii_text(print_program(t)),
    ensures
        parse_spec(printed.spec_bytes()) == parse_spec(source),
{
    let t = parse_spec(source)->Ok_0;
    let u = parse_plain(source)->Ok_0;
    let st = RenameModel { issued: Map::empty(), scope: Seq::empty() };
    let (tok, start) = next_token_spec(source, 0);
    lemma_parse_canonical(source, start, TokenModel::ExprBegin, 1);
    lemma_print_renamed(u, st);
    lemma_plain_term(u);
    lemma_bytes_of_text(printed, print_program(t));
    lemma_print_parse_fixed(source);
}

} // verus!
