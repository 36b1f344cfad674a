//! Reading invariant definitions.

use crate::error::{InvarError, InvarErrorView};
use crate::grammar::{
    and_tail, arguments_tail, ascii_text, comparison_tail, digits_end, digits_value, has_literal,
    integer_at, is_name_start, layer_at, layer_names, layers_at, layers_tail, lemma_name_end,
    name_end, operator_at, or_tail, parse_and, parse_atom, parse_comparison, parse_definition,
    parse_definition_at, parse_definitions, parse_expr, parse_file, parse_primary, parse_unary,
    skip_blank, variable_at,
};
use crate::text::push_char;
use crate::model::{BinaryOp, ExprView, Expression, Invariant, InvariantView, LogicalOp};
use crate::model::{exprs_view, lemma_call_view};
use crate::text::strings_view;
use vstd::prelude::*;
use vstd::string::*;

verus! {

/// The text that the bytes `s[from..to]` spell.
fn text_of(s: &[u8], from: usize, to: usize) -> (t: String)
    requires
        from <= to <= s.len(),
    ensures
        t@ == ascii_text(s@.subrange(from as int, to as int)),
{
    let mut t = String::new();
    let mut i: usize = from;
    while i < to
        invariant
            from <= i <= to <= s.len(),
            t@ == ascii_text(s@.subrange(from as int, i as int)),
        decreases to - i,
    {
        push_char(&mut t, s[i] as char);
        proof {
            assert(ascii_text(s@.subrange(from as int, i + 1)) =~= ascii_text(
                s@.subrange(from as int, i as int),
            ).push(s@[i as int] as char));
        }
        i += 1;
    }
    t
}

/// The text that the bytes `lit` spell.
fn text_of_all(lit: &Vec<u8>) -> (t: String)
    ensures
        t@ == ascii_text(lit@),
{
    let t = text_of(lit.as_slice(), 0, lit.len());
    assert(lit@.subrange(0, lit.len() as int) =~= lit@);
    t
}

fn skip(s: &[u8], pos: usize) -> (r: usize)
    requires
        pos <= s.len(),
    ensures
        r == skip_blank(s@, pos as int),
        pos <= r <= s.len(),
{
    let mut i: usize = pos;
    loop
        invariant
            pos <= i <= s.len(),
            skip_blank(s@, pos as int) == skip_blank(s@, i as int),
        decreases s.len() - i,
    {
        if i < s.len() && (s[i] == 32 || s[i] == 9 || s[i] == 10) {
            i += 1;
        } else if i < s.len() && s[i] == 13 && i + 1 < s.len() && s[i + 1] == 10 {
            i += 2;
        } else {
            return i;
        }
    }
}

fn name_start(b: u8) -> (r: bool)
    ensures
        r == is_name_start(b),
{
    (65 <= b && b <= 90) || (97 <= b && b <= 122) || b == 95
}

fn scan_name(s: &[u8], pos: usize) -> (r: usize)
    requires
        pos <= s.len(),
    ensures
        r == name_end(s@, pos as int),
        pos <= r <= s.len(),
{
    let mut i: usize = pos;
    while i < s.len() && (name_start(s[i]) || (48 <= s[i] && s[i] <= 57))
        invariant
            pos <= i <= s.len(),
            name_end(s@, pos as int) == name_end(s@, i as int),
        decreases s.len() - i,
    {
        i += 1;
    }
    i
}

fn byte_is(s: &[u8], pos: usize, b: u8) -> (r: bool)
    ensures
        r == (pos < s.len() && s@[pos as int] == b),
{
    pos < s.len() && s[pos] == b
}

fn lit_at(s: &[u8], pos: usize, lit: &Vec<u8>) -> (r: bool)
    ensures
        r == has_literal(s@, pos as int, lit@),
{
    if pos > s.len() || lit.len() > s.len() - pos {
        return false;
    }
    let mut k: usize = 0;
    while k < lit.len()
        invariant
            k <= lit.len(),
            pos + lit.len() <= s.len(),
            forall|j: int| 0 <= j < k ==> s@[pos + j] == lit@[j],
        decreases lit.len() - k,
    {
        if s[pos + k] != lit[k] {
            assert(s@.subrange(pos as int, pos + lit.len())[k as int] == s@[pos + k]);
            return false;
        }
        k += 1;
    }
    assert(s@.subrange(pos as int, pos + lit.len()) =~= lit@);
    true
}

fn pair_at(s: &[u8], pos: usize, a: u8, b: u8) -> (r: bool)
    ensures
        r == has_literal(s@, pos as int, seq![a, b]),
{
    if pos < s.len() && s.len() - pos >= 2 && s[pos] == a && s[pos + 1] == b {
        assert(s@.subrange(pos as int, pos + 2) =~= seq![a, b]);
        true
    } else {
        if pos < s.len() && s.len() - pos >= 2 {
            assert(s@.subrange(pos as int, pos + 2)[0] == s@[pos as int]);
            assert(s@.subrange(pos as int, pos + 2)[1] == s@[pos + 1]);
        }
        false
    }
}

fn one_at(s: &[u8], pos: usize, a: u8) -> (r: bool)
    ensures
        r == has_literal(s@, pos as int, seq![a]),
{
    if pos < s.len() && s[pos] == a {
        assert(s@.subrange(pos as int, pos + 1) =~= seq![a]);
        true
    } else {
        if pos < s.len() {
            assert(s@.subrange(pos as int, pos + 1)[0] == s@[pos as int]);
        }
        false
    }
}

fn layer_word(i: usize) -> (w: Vec<u8>)
    requires
        i < 5,
    ensures
        w@ == layer_names()[i as int],
{
    if i == 0 {
        vec![98u8, 117u8, 110u8, 100u8, 108u8, 101u8, 114u8]
    } else if i == 1 {
        vec![97u8, 99u8, 99u8, 111u8, 117u8, 110u8, 116u8]
    } else if i == 2 {
        vec![112u8, 97u8, 121u8, 109u8, 97u8, 115u8, 116u8, 101u8, 114u8]
    } else if i == 3 {
        vec![112u8, 114u8, 111u8, 116u8, 111u8, 99u8, 111u8, 108u8]
    } else {
        vec![101u8, 110u8, 116u8, 114u8, 121u8, 112u8, 111u8, 105u8, 110u8, 116u8]
    }
}

/// The layer name at `pos`, with the position after it.
fn read_layer(s: &[u8], pos: usize) -> (r: Option<(String, usize)>)
    requires
        pos <= s.len(),
    ensures
        match r {
            Some((text, after)) => layer_at(s@, pos as int, 5) matches Some(l) && text@
                == ascii_text(l) && after == pos + l.len() && after <= s.len(),
            None => layer_at(s@, pos as int, 5) is None,
        },
{
    let mut i: usize = 0;
    while i < 5
        invariant
            i <= 5,
            pos <= s.len(),
            layer_at(s@, pos as int, i as nat) is None,
        decreases 5 - i,
    {
        let w = layer_word(i);
        if lit_at(s, pos, &w) {
            proof {
                lemma_layer_found(s@, pos as int, (i + 1) as nat, 5);
            }
            let n = w.len();
            return Some((text_of_all(&w), pos + n));
        }
        i += 1;
    }
    None
}

proof fn lemma_layer_found(s: Seq<u8>, pos: int, k: nat, n: nat)
    requires
        1 <= k <= n <= 5,
        layer_at(s, pos, k) is Some,
    ensures
        layer_at(s, pos, n) == layer_at(s, pos, k),
    decreases n - k,
{
    if k < n {
        lemma_layer_found(s, pos, k, (n - 1) as nat);
    }
}

/// The comparison operator at `pos`, with its length.
fn read_operator(s: &[u8], pos: usize) -> (r: Option<(BinaryOp, usize)>)
    ensures
        match r {
            Some((op, w)) => operator_at(s@, pos as int) == Some((op, w as int)) && 1 <= w <= 2
                && pos + w <= s.len(),
            None => operator_at(s@, pos as int) is None,
        },
{
    if pair_at(s, pos, 61, 61) {
        Some((BinaryOp::Eq, 2))
    } else if pair_at(s, pos, 33, 61) {
        Some((BinaryOp::Neq, 2))
    } else if pair_at(s, pos, 60, 61) {
        Some((BinaryOp::Lte, 2))
    } else if pair_at(s, pos, 62, 61) {
        Some((BinaryOp::Gte, 2))
    } else if one_at(s, pos, 60) {
        Some((BinaryOp::Lt, 1))
    } else if one_at(s, pos, 62) {
        Some((BinaryOp::Gt, 1))
    } else {
        None
    }
}

/// The integer literal at `pos`, with the position after it, where its
/// value fits.
fn read_integer(s: &[u8], pos: usize) -> (r: Option<(i128, usize)>)
    requires
        pos < s.len(),
    ensures
        match r {
            Some((v, after)) => integer_at(s@, pos as int) == Some((v, after as int)) && pos
                < after <= s.len(),
            None => integer_at(s@, pos as int) is None,
        },
{
    let negative = s[pos] == 45;
    let start: usize = if negative {
        pos + 1
    } else {
        pos
    };
    let mut i: usize = start;
    let mut acc: u128 = 0;
    let mut over = false;
    proof {
        assert(s@.subrange(start as int, start as int) =~= Seq::<u8>::empty());
    }
    while i < s.len() && 48 <= s[i] && s[i] <= 57
        invariant
            start <= i <= s.len(),
            digits_end(s@, start as int) == digits_end(s@, i as int),
            !over ==> acc == digits_value(s@.subrange(start as int, i as int)) && acc
                <= 170141183460469231731687303715884105728u128,
            over ==> digits_value(s@.subrange(start as int, i as int))
                > 170141183460469231731687303715884105728u128,
        decreases s.len() - i,
    {
        let d: u128 = (s[i] - 48) as u128;
        proof {
            let sub = s@.subrange(start as int, i + 1);
            assert(sub.drop_last() =~= s@.subrange(start as int, i as int));
            assert(sub.last() == s@[i as int]);
        }
        if !over {
            if acc > 17014118346046923173168730371588410572u128 {
                over = true;
            } else {
                let v: u128 = acc * 10 + d;
                if v > 170141183460469231731687303715884105728u128 {
                    over = true;
                } else {
                    acc = v;
                }
            }
        }
        i += 1;
    }
    if i == start || over {
        return None;
    }
    if negative {
        if acc == 170141183460469231731687303715884105728u128 {
            Some((i128::MIN, i))
        } else {
            Some((-(acc as i128), i))
        }
    } else if acc == 170141183460469231731687303715884105728u128 {
        None
    } else {
        Some((acc as i128, i))
    }
}

/// The view of what a reader of expressions found.
pub open spec fn found(r: Option<(Expression, usize)>) -> Option<(ExprView, int)> {
    match r {
        Some((e, p)) => Some((e@, p as int)),
        None => None,
    }
}

/// The variable at `pos`, with the position after it.
fn read_variable(s: &[u8], pos: usize) -> (r: Option<(Expression, usize)>)
    requires
        pos <= s.len(),
    ensures
        found(r) == variable_at(s@, pos as int),
        r matches Some((_, p)) ==> pos < p <= s.len(),
{
    match read_layer(s, pos) {
        Some((layer, after)) => {
            let sep = skip(s, after);
            if pair_at(s, sep, 58, 58) {
                let start = skip(s, sep + 2);
                if start < s.len() && name_start(s[start]) {
                    let end = scan_name(s, start);
                    let var = text_of(s, start, end);
                    return Some((Expression::LayerVar { layer, var }, end));
                }
            }
        },
        None => {},
    }
    if pos < s.len() && name_start(s[pos]) {
        let end = scan_name(s, pos);
        proof {
            lemma_name_end(s@, pos as int);
        }
        Some((Expression::Var(text_of(s, pos, end)), end))
    } else {
        None
    }
}

/// The expression at `pos`, with the position after it.
fn read_expr(s: &[u8], pos: usize) -> (r: Option<(Expression, usize)>)
    requires
        pos <= s.len(),
    ensures
        found(r) == parse_expr(s@, pos as int),
        r matches Some((_, p)) ==> pos < p <= s.len(),
    decreases s.len() - pos, 20nat,
{
    let (mut left, mut p) = match read_and(s, pos) {
        Some(x) => x,
        None => {
            return None;
        },
    };
    loop
        invariant
            pos < p <= s.len(),
            parse_expr(s@, pos as int) == or_tail(s@, p as int, left@),
        decreases s.len() - p,
    {
        let q = skip(s, p);
        if pair_at(s, q, 124, 124) {
            let start = skip(s, q + 2);
            match read_and(s, start) {
                Some((right, p2)) => {
                    left =
                    Expression::Logical {
                        left: Box::new(left),
                        op: LogicalOp::Or,
                        right: Box::new(right),
                    };
                    p = p2;
                },
                None => {
                    return None;
                },
            }
        } else {
            return Some((left, p));
        }
    }
}

/// The conjunction at `pos`, with the position after it.
fn read_and(s: &[u8], pos: usize) -> (r: Option<(Expression, usize)>)
    requires
        pos <= s.len(),
    ensures
        found(r) == parse_and(s@, pos as int),
        r matches Some((_, p)) ==> pos < p <= s.len(),
    decreases s.len() - pos, 18nat,
{
    let (mut left, mut p) = match read_comparison(s, pos) {
        Some(x) => x,
        None => {
            return None;
        },
    };
    loop
        invariant
            pos < p <= s.len(),
            parse_and(s@, pos as int) == and_tail(s@, p as int, left@),
        decreases s.len() - p,
    {
        let q = skip(s, p);
        if pair_at(s, q, 38, 38) {
            let start = skip(s, q + 2);
            match read_comparison(s, start) {
                Some((right, p2)) => {
                    left =
                    Expression::Logical {
                        left: Box::new(left),
                        op: LogicalOp::And,
                        right: Box::new(right),
                    };
                    p = p2;
                },
                None => {
                    return None;
                },
            }
        } else {
            return Some((left, p));
        }
    }
}

/// The comparison at `pos`, with the position after it.
fn read_comparison(s: &[u8], pos: usize) -> (r: Option<(Expression, usize)>)
    requires
        pos <= s.len(),
    ensures
        found(r) == parse_comparison(s@, pos as int),
        r matches Some((_, p)) ==> pos < p <= s.len(),
    decreases s.len() - pos, 16nat,
{
    let (mut left, mut p) = match read_unary(s, pos) {
        Some(x) => x,
        None => {
            return None;
        },
    };
    loop
        invariant
            pos < p <= s.len(),
            parse_comparison(s@, pos as int) == comparison_tail(s@, p as int, left@),
        decreases s.len() - p,
    {
        let q = skip(s, p);
        match read_operator(s, q) {
            Some((op, width)) => {
                let start = skip(s, q + width);
                match read_unary(s, start) {
                    Some((right, p2)) => {
                        left =
                        Expression::BinaryOp { left: Box::new(left), op, right: Box::new(right) };
                        p = p2;
                    },
                    None => {
                        return None;
                    },
                }
            },
            None => {
                return Some((left, p));
            },
        }
    }
}

/// The primary expression at `pos` under its negations, with the position
/// after it.
fn read_unary(s: &[u8], pos: usize) -> (r: Option<(Expression, usize)>)
    requires
        pos <= s.len(),
    ensures
        found(r) == parse_unary(s@, pos as int),
        r matches Some((_, p)) ==> pos < p <= s.len(),
    decreases s.len() - pos, 14nat,
{
    if pos >= s.len() {
        None
    } else if s[pos] == 33 {
        let start = skip(s, pos + 1);
        match read_unary(s, start) {
            Some((inner, p)) => Some((Expression::Not(Box::new(inner)), p)),
            None => None,
        }
    } else {
        read_primary(s, pos)
    }
}

/// The expression in parentheses, or the atom, at `pos`, with the
/// position after it.
fn read_primary(s: &[u8], pos: usize) -> (r: Option<(Expression, usize)>)
    requires
        pos < s.len(),
    ensures
        found(r) == parse_primary(s@, pos as int),
        r matches Some((_, p)) ==> pos < p <= s.len(),
    decreases s.len() - pos, 13nat,
{
    if s[pos] == 40 {
        let start = skip(s, pos + 1);
        match read_expr(s, start) {
            Some((inner, p)) => {
                let close = skip(s, p);
                if byte_is(s, close, 41) {
                    Some((inner, close + 1))
                } else {
                    None
                }
            },
            None => None,
        }
    } else {
        read_atom(s, pos)
    }
}

/// The atom at `pos`, with the position after it.
fn read_atom(s: &[u8], pos: usize) -> (r: Option<(Expression, usize)>)
    requires
        pos < s.len(),
    ensures
        found(r) == parse_atom(s@, pos as int),
        r matches Some((_, p)) ==> pos < p <= s.len(),
    decreases s.len() - pos, 12nat,
{
    let end = scan_name(s, pos);
    let open = skip(s, end);
    if name_start(s[pos]) && byte_is(s, open, 40) {
        proof {
            lemma_name_end(s@, pos as int);
        }
        let name = text_of(s, pos, end);
        let first = skip(s, open + 1);
        if byte_is(s, first, 41) {
            let args: Vec<Expression> = Vec::new();
            proof {
                lemma_call_view(name, args);
                assert(exprs_view(args@) =~= Seq::<ExprView>::empty());
            }
            return Some((Expression::FunctionCall { name, args }, first + 1));
        }
        let (arg, mut p) = match read_expr(s, first) {
            Some(x) => x,
            None => {
                return None;
            },
        };
        let ghost start_p = p;
        let ghost first_arg = arg@;
        let mut args: Vec<Expression> = Vec::new();
        args.push(arg);
        proof {
            assert(exprs_view(args@) =~= seq![first_arg]);
        }
        loop
            invariant
                pos < p <= s.len(),
                first < start_p,
                parse_atom(s@, pos as int) == (match arguments_tail(
                    s@,
                    start_p as int,
                    seq![first_arg],
                ) {
                    Some((a, after)) => Some(
                        (ExprView::FunctionCall { name: name@, args: a }, after),
                    ),
                    None => None,
                }),
                arguments_tail(s@, start_p as int, seq![first_arg]) == arguments_tail(
                    s@,
                    p as int,
                    exprs_view(args@),
                ),
            decreases s.len() - p,
        {
            let q = skip(s, p);
            if byte_is(s, q, 44) {
                let start = skip(s, q + 1);
                match read_expr(s, start) {
                    Some((next, p2)) => {
                        proof {
                            assert(exprs_view(args@).push(next@) =~= exprs_view(args@.push(next)));
                        }
                        args.push(next);
                        p = p2;
                    },
                    None => {
                        return None;
                    },
                }
            } else if byte_is(s, q, 41) {
                proof {
                    lemma_call_view(name, args);
                }
                return Some((Expression::FunctionCall { name, args }, q + 1));
            } else {
                return None;
            }
        }
    } else if lit_at(s, pos, &vec![116u8, 114u8, 117u8, 101u8]) {
        Some((Expression::Boolean(true), pos + 4))
    } else if lit_at(s, pos, &vec![102u8, 97u8, 108u8, 115u8, 101u8]) {
        Some((Expression::Boolean(false), pos + 5))
    } else if (48 <= s[pos] && s[pos] <= 57) || (s[pos] == 45 && pos + 1 < s.len() && 48 <= s[pos
        + 1] && s[pos + 1] <= 57) {
        match read_integer(s, pos) {
            Some((value, after)) => Some((Expression::Int(value), after)),
            None => None,
        }
    } else {
        read_variable(s, pos)
    }
}

/// The layer list at `pos`, with the position after it.
fn read_layers(s: &[u8], pos: usize) -> (r: Option<(Vec<String>, usize)>)
    requires
        pos <= s.len(),
    ensures
        match r {
            Some((layers, after)) => layers_at(s@, pos as int) == Some(
                (strings_view(layers@), after as int),
            ) && pos <= after <= s.len(),
            None => layers_at(s@, pos as int) is None,
        },
{
    let mut layers: Vec<String> = Vec::new();
    if !byte_is(s, pos, 40) {
        assert(strings_view(layers@) =~= Seq::<Seq<char>>::empty());
        return Some((layers, pos));
    }
    let start = skip(s, pos + 1);
    let (layer, mut p) = match read_layer(s, start) {
        Some(x) => x,
        None => {
            return None;
        },
    };
    let ghost start_p = p;
    let ghost first = layer@;
    layers.push(layer);
    proof {
        assert(strings_view(layers@) =~= seq![first]);
    }
    loop
        invariant
            pos < p <= s.len(),
            layers_at(s@, pos as int) == layers_tail(s@, start_p as int, seq![first]),
            layers_tail(s@, start_p as int, seq![first]) == layers_tail(
                s@,
                p as int,
                strings_view(layers@),
            ),
        decreases s.len() - p,
    {
        let q = skip(s, p);
        if byte_is(s, q, 44) {
            let next_start = skip(s, q + 1);
            match read_layer(s, next_start) {
                Some((next, p2)) => {
                    proof {
                        assert(strings_view(layers@).push(next@) =~= strings_view(
                            layers@.push(next),
                        ));
                    }
                    layers.push(next);
                    p = p2;
                },
                None => {
                    return None;
                },
            }
        } else if byte_is(s, q, 41) {
            return Some((layers, q + 1));
        } else {
            return None;
        }
    }
}

/// The message of every rejection.
pub open spec fn rejection() -> InvarErrorView {
    InvarErrorView::ConfigError("invalid invariant definition"@)
}

/// What parsing owes for an input with the given UTF-8 bytes: the
/// invariant that the bytes define, or the rejection.
pub open spec fn parse_outcome(bytes: Seq<u8>) -> core::result::Result<
    InvariantView,
    InvarErrorView,
> {
    match parse_definition(bytes) {
        Some(v) => Ok(v),
        None => Err(rejection()),
    }
}

/// The view of a parse result.
pub open spec fn parse_view(r: core::result::Result<Invariant, InvarError>) -> core::result::Result<
    InvariantView,
    InvarErrorView,
> {
    match r {
        Ok(inv) => Ok(inv@),
        Err(e) => Err(e@),
    }
}

fn reject() -> (r: core::result::Result<Invariant, InvarError>)
    ensures
        parse_view(r) == Err::<InvariantView, InvarErrorView>(rejection()),
{
    Err(InvarError::ConfigError(String::from_str("invalid invariant definition")))
}

/// The definition at `pos`, with the position after it.
fn read_definition(s: &[u8], pos: usize) -> (r: Option<(Invariant, usize)>)
    requires
        pos <= s.len(),
    ensures
        match r {
            Some((inv, after)) => parse_definition_at(s@, pos as int) == Some(
                (inv@, after as int),
            ) && pos < after <= s.len(),
            None => parse_definition_at(s@, pos as int) is None,
        },
{
    let word = vec![105u8, 110u8, 118u8, 97u8, 114u8, 105u8, 97u8, 110u8, 116u8];
    if !lit_at(s, pos, &word) {
        return None;
    }
    let start = skip(s, pos + 9);
    if !(start < s.len() && name_start(s[start])) {
        return None;
    }
    let end = scan_name(s, start);
    let name = text_of(s, start, end);
    let list_start = skip(s, end);
    let (layers, after) = match read_layers(s, list_start) {
        Some(x) => x,
        None => {
            return None;
        },
    };
    let open = skip(s, after);
    if !byte_is(s, open, 123) {
        return None;
    }
    let expr_start = skip(s, open + 1);
    let (expression, p) = match read_expr(s, expr_start) {
        Some(x) => x,
        None => {
            return None;
        },
    };
    let close = skip(s, p);
    if !byte_is(s, close, 125) {
        return None;
    }
    let phases: Vec<String> = Vec::new();
    proof {
        assert(strings_view(phases@) =~= Seq::<Seq<char>>::empty());
    }
    Some(
        (
            Invariant {
                name,
                description: None,
                expression,
                severity: String::from_str("medium"),
                category: String::from_str("general"),
                is_always_true: true,
                layers,
                phases,
            },
            close + 1,
        ),
    )
}

/// What parsing owes for a file with the given UTF-8 bytes: the
/// invariants that the bytes define, or the rejection.
pub open spec fn file_outcome(bytes: Seq<u8>) -> core::result::Result<
    Seq<InvariantView>,
    InvarErrorView,
> {
    match parse_file(bytes) {
        Some(v) => Ok(v),
        None => Err(rejection()),
    }
}

/// The view of the result of parsing a file.
pub open spec fn file_view(r: core::result::Result<Vec<Invariant>, InvarError>) -> core::result::Result<
    Seq<InvariantView>,
    InvarErrorView,
> {
    match r {
        Ok(invs) => Ok(crate::generator::invariants_view(invs@)),
        Err(e) => Err(e@),
    }
}

/// Parser for invariant definitions.
pub struct InvariantParser;

impl InvariantParser {
    /// Parse a single invariant definition: the text must begin with one,
    /// and what follows it is not read.
    pub fn parse_invariant(input: &str) -> (r: core::result::Result<Invariant, InvarError>)
        ensures
            parse_view(r) == parse_outcome(input.spec_bytes()),
    {
        match read_definition(input.as_bytes(), 0) {
            Some((inv, _)) => Ok(inv),
            None => reject(),
        }
    }

    /// Parse a file of invariant definitions: one definition or more,
    /// with blanks before, between and after them and nothing else.
    pub fn parse_file(input: &str) -> (r: core::result::Result<Vec<Invariant>, InvarError>)
        ensures
            file_view(r) == file_outcome(input.spec_bytes()),
    {
        let s = input.as_bytes();
        let mut found: Vec<Invariant> = Vec::new();
        let mut pos: usize = 0;
        proof {
            assert(crate::generator::invariants_view(found@) =~= Seq::<InvariantView>::empty());
        }
        loop
            invariant
                pos <= s.len(),
                s@ == input.spec_bytes(),
                parse_file(s@) == parse_definitions(
                    s@,
                    pos as int,
                    crate::generator::invariants_view(found@),
                ),
            decreases s.len() - pos,
        {
            let start = skip(s, pos);
            if start == s.len() {
                if found.len() > 0 {
                    return Ok(found);
                }
                return Err(
                    InvarError::ConfigError(String::from_str("invalid invariant definition")),
                );
            }
            match read_definition(s, start) {
                Some((inv, after)) => {
                    proof {
                        assert(crate::generator::invariants_view(found@.push(inv))
                            =~= crate::generator::invariants_view(found@).push(inv@));
                    }
                    found.push(inv);
                    pos = after;
                },
                None => {
                    return Err(
                        InvarError::ConfigError(String::from_str("invalid invariant definition")),
                    );
                },
            }
        }
    }
}

/// Parse a complete invariant definition string.
pub fn parse_invariant(input: &str) -> (r: core::result::Result<Invariant, InvarError>)
    ensures
        parse_view(r) == parse_outcome(input.spec_bytes()),
{
    InvariantParser::parse_invariant(input)
}

/// Parsing is a function of the bytes of its input: two inputs with the
/// same bytes are owed the same invariant, or the same rejection with the
/// same message.
pub proof fn law_parse_is_deterministic(
    a: Seq<u8>,
    b: Seq<u8>,
    first: core::result::Result<Invariant, InvarError>,
    second: core::result::Result<Invariant, InvarError>,
)
    requires
        a == b,
        parse_view(first) == parse_outcome(a),
        parse_view(second) == parse_outcome(b),
    ensures
        parse_view(first) == parse_view(second),
{
}

} // verus!
