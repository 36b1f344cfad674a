//! The grammar of invariant definitions, as a reading of bytes.
//!
//! An invariant definition is the word `invariant`, a name, an optional
//! list of layers in parentheses and an expression in braces. Blanks may
//! stand between any two tokens, never inside one. A single definition
//! must begin its text, and what follows its closing brace is not read; a
//! file is definitions and blanks and nothing else.
//!
//! ```text
//! file          := invariant_def+
//! invariant_def := 'invariant' IDENT ( '(' layer (',' layer)* ')' )? '{' expr '}'
//! expr          := logical_or
//! logical_or    := logical_and ( '||' logical_and )*
//! logical_and   := comparison ( '&&' comparison )*
//! comparison    := unary ( ( '==' | '!=' | '<=' | '>=' | '<' | '>' ) unary )*
//! unary         := '!'* primary
//! primary       := '(' expr ')' | atom
//! atom          := function_call | BOOL | INT | var_id
//! function_call := IDENT '(' ( expr (',' expr)* )? ')'
//! var_id        := (layer '::')? IDENT
//! ```
//!
//! Alternatives are tried in the order written and the first that matches
//! is kept; operators and repetitions associate to the left.

use crate::model::{BinaryOp, ExprView, InvariantView, LogicalOp};
use vstd::prelude::*;

verus! {

/// The grammar of the invariant language. Its rules are the spec
/// functions of this module.
pub struct InvarGrammar;

/// A space, a tab or a line feed.
pub open spec fn is_blank(b: u8) -> bool {
    b == 32 || b == 9 || b == 10
}

/// A letter or an underscore.
pub open spec fn is_name_start(b: u8) -> bool {
    (65 <= b <= 90) || (97 <= b <= 122) || b == 95
}

/// A decimal digit.
pub open spec fn is_digit(b: u8) -> bool {
    48 <= b <= 57
}

/// A letter, a digit or an underscore.
pub open spec fn is_name_char(b: u8) -> bool {
    is_name_start(b) || is_digit(b)
}

/// The position of the first byte at or after `pos` that is not part of
/// a run of blanks. A carriage return counts only together with the line
/// feed that follows it.
pub open spec fn skip_blank(s: Seq<u8>, pos: int) -> int
    decreases s.len() - pos,
{
    if pos < 0 || pos >= s.len() {
        pos
    } else if is_blank(s[pos]) {
        skip_blank(s, pos + 1)
    } else if s[pos] == 13 && pos + 1 < s.len() && s[pos + 1] == 10 {
        skip_blank(s, pos + 2)
    } else {
        pos
    }
}

/// The position of the first byte at or after `pos` that cannot stand in
/// a name.
pub open spec fn name_end(s: Seq<u8>, pos: int) -> int
    decreases s.len() - pos,
{
    if 0 <= pos < s.len() && is_name_char(s[pos]) {
        name_end(s, pos + 1)
    } else {
        pos
    }
}

/// The position of the first byte at or after `pos` that is not a digit.
pub open spec fn digits_end(s: Seq<u8>, pos: int) -> int
    decreases s.len() - pos,
{
    if 0 <= pos < s.len() && is_digit(s[pos]) {
        digits_end(s, pos + 1)
    } else {
        pos
    }
}

/// Whether the bytes `lit` stand in `s` at `pos`.
pub open spec fn has_literal(s: Seq<u8>, pos: int, lit: Seq<u8>) -> bool {
    &&& 0 <= pos
    &&& pos + lit.len() <= s.len()
    &&& s.subrange(pos, pos + lit.len()) == lit
}

/// The text that ASCII bytes spell.
pub open spec fn ascii_text(bytes: Seq<u8>) -> Seq<char> {
    Seq::new(bytes.len(), |i: int| bytes[i] as char)
}

/// The number that a run of digits writes in base ten.
pub open spec fn digits_value(digits: Seq<u8>) -> nat
    decreases digits.len(),
{
    if digits.len() == 0 {
        0
    } else {
        digits_value(digits.drop_last()) * 10 + (digits.last() - 48) as nat
    }
}

/// The word that opens a definition.
pub open spec fn keyword() -> Seq<u8> {
    seq![105u8, 110u8, 118u8, 97u8, 114u8, 105u8, 97u8, 110u8, 116u8]
}

/// The names of the layers, in the order in which they are tried.
pub open spec fn layer_names() -> Seq<Seq<u8>> {
    seq![
        seq![98u8, 117u8, 110u8, 100u8, 108u8, 101u8, 114u8],
        seq![97u8, 99u8, 99u8, 111u8, 117u8, 110u8, 116u8],
        seq![112u8, 97u8, 121u8, 109u8, 97u8, 115u8, 116u8, 101u8, 114u8],
        seq![112u8, 114u8, 111u8, 116u8, 111u8, 99u8, 111u8, 108u8],
        seq![101u8, 110u8, 116u8, 114u8, 121u8, 112u8, 111u8, 105u8, 110u8, 116u8],
    ]
}

/// The layer name that stands at `pos`: the first of `layer_names`, among
/// its first `n`, that does. A layer name ends where its letters end,
/// whatever follows.
pub open spec fn layer_at(s: Seq<u8>, pos: int, n: nat) -> Option<Seq<u8>>
    decreases n,
{
    if n == 0 || n > layer_names().len() {
        None
    } else {
        match layer_at(s, pos, (n - 1) as nat) {
            Some(l) => Some(l),
            None => if has_literal(s, pos, layer_names()[n - 1]) {
                Some(layer_names()[n - 1])
            } else {
                None
            },
        }
    }
}

/// The comparison operator that stands at `pos`, with its length. The
/// operators of two characters are tried before those of one.
pub open spec fn operator_at(s: Seq<u8>, pos: int) -> Option<(BinaryOp, int)> {
    if has_literal(s, pos, seq![61u8, 61u8]) {
        Some((BinaryOp::Eq, 2))
    } else if has_literal(s, pos, seq![33u8, 61u8]) {
        Some((BinaryOp::Neq, 2))
    } else if has_literal(s, pos, seq![60u8, 61u8]) {
        Some((BinaryOp::Lte, 2))
    } else if has_literal(s, pos, seq![62u8, 61u8]) {
        Some((BinaryOp::Gte, 2))
    } else if has_literal(s, pos, seq![60u8]) {
        Some((BinaryOp::Lt, 1))
    } else if has_literal(s, pos, seq![62u8]) {
        Some((BinaryOp::Gt, 1))
    } else {
        None
    }
}

/// An integer literal at `pos`: an optional minus sign and digits. Gives
/// its value and the position after it, where the value fits in 128 bits
/// with a sign.
pub open spec fn integer_at(s: Seq<u8>, pos: int) -> Option<(i128, int)> {
    let negative = 0 <= pos < s.len() && s[pos] == 45;
    let start = if negative {
        pos + 1
    } else {
        pos
    };
    let end = digits_end(s, start);
    if 0 <= start <= end <= s.len() && end > start {
        let magnitude = digits_value(s.subrange(start, end));
        let value = if negative {
            -(magnitude as int)
        } else {
            magnitude as int
        };
        if i128::MIN <= value <= i128::MAX {
            Some((value as i128, end))
        } else {
            None
        }
    } else {
        None
    }
}

/// Whether an integer literal, in or out of range, stands at `pos`.
pub open spec fn integer_starts(s: Seq<u8>, pos: int) -> bool {
    ||| 0 <= pos < s.len() && is_digit(s[pos])
    ||| 0 <= pos && pos + 1 < s.len() && s[pos] == 45 && is_digit(s[pos + 1])
}

/// A variable at `pos`: a layer name, `::` and a name, or else a name
/// alone.
pub open spec fn variable_at(s: Seq<u8>, pos: int) -> Option<(ExprView, int)> {
    let qualified = match layer_at(s, pos, 5) {
        Some(layer) => {
            let sep = skip_blank(s, pos + layer.len());
            if has_literal(s, sep, seq![58u8, 58u8]) {
                let start = skip_blank(s, sep + 2);
                if 0 <= start < s.len() && is_name_start(s[start]) {
                    let end = name_end(s, start);
                    Some(
                        (
                            ExprView::LayerVar {
                                layer: ascii_text(layer),
                                var: ascii_text(s.subrange(start, end)),
                            },
                            end,
                        ),
                    )
                } else {
                    None
                }
            } else {
                None
            }
        },
        None => None,
    };
    if qualified is Some {
        qualified
    } else if 0 <= pos < s.len() && is_name_start(s[pos]) {
        let end = name_end(s, pos);
        Some((ExprView::Var(ascii_text(s.subrange(pos, end))), end))
    } else {
        None
    }
}

/// A layer name that is found stands in `s` at `pos` and is one of the
/// five.
pub proof fn lemma_layer_at(s: Seq<u8>, pos: int, n: nat)
    ensures
        layer_at(s, pos, n) matches Some(l) ==> has_literal(s, pos, l) && exists|i: int|
            0 <= i < n && i < 5 && layer_names()[i] == l,
    decreases n,
{
    if n > 0 && n <= layer_names().len() {
        lemma_layer_at(s, pos, (n - 1) as nat);
    }
}

/// `skip_blank` moves forward and stays inside `s`.
pub proof fn lemma_skip_blank(s: Seq<u8>, pos: int)
    ensures
        pos <= skip_blank(s, pos),
        pos <= s.len() ==> skip_blank(s, pos) <= s.len(),
    decreases s.len() - pos,
{
    if pos < 0 || pos >= s.len() {
    } else if is_blank(s[pos]) {
        lemma_skip_blank(s, pos + 1);
    } else if s[pos] == 13 && pos + 1 < s.len() && s[pos + 1] == 10 {
        lemma_skip_blank(s, pos + 2);
    }
}

/// `name_end` moves forward and stays inside `s`.
pub proof fn lemma_name_end(s: Seq<u8>, pos: int)
    ensures
        pos <= name_end(s, pos),
        pos <= s.len() ==> name_end(s, pos) <= s.len(),
        0 <= pos < s.len() && is_name_char(s[pos]) ==> pos < name_end(s, pos),
    decreases s.len() - pos,
{
    if 0 <= pos < s.len() && is_name_char(s[pos]) {
        lemma_name_end(s, pos + 1);
    }
}

/// An expression at `pos`, with the position after it.
pub open spec fn parse_expr(s: Seq<u8>, pos: int) -> Option<(ExprView, int)>
    decreases s.len() - pos, 20nat,
{
    if pos < 0 || pos > s.len() {
        None
    } else {
        match parse_and(s, pos) {
            Some((left, p)) => if pos < p <= s.len() {
                or_tail(s, p, left)
            } else {
                None
            },
            None => None,
        }
    }
}

/// What follows the first operand of a disjunction: any number of `||`
/// with an operand each, folded to the left onto `left`.
pub open spec fn or_tail(s: Seq<u8>, pos: int, left: ExprView) -> Option<(ExprView, int)>
    decreases s.len() - pos, 19nat,
{
    if pos < 0 || pos > s.len() {
        None
    } else {
        let q = skip_blank(s, pos);
        if has_literal(s, q, seq![124u8, 124u8]) {
            let start = skip_blank(s, q + 2);
            proof {
                lemma_skip_blank(s, pos);
                lemma_skip_blank(s, q + 2);
            }
            match parse_and(s, start) {
                Some((right, p)) => if start < p <= s.len() {
                    or_tail(
                        s,
                        p,
                        ExprView::Logical {
                            left: Box::new(left),
                            op: LogicalOp::Or,
                            right: Box::new(right),
                        },
                    )
                } else {
                    None
                },
                None => None,
            }
        } else {
            Some((left, pos))
        }
    }
}

/// A conjunction at `pos`.
pub open spec fn parse_and(s: Seq<u8>, pos: int) -> Option<(ExprView, int)>
    decreases s.len() - pos, 18nat,
{
    if pos < 0 || pos > s.len() {
        None
    } else {
        match parse_comparison(s, pos) {
            Some((left, p)) => if pos < p <= s.len() {
                and_tail(s, p, left)
            } else {
                None
            },
            None => None,
        }
    }
}

/// What follows the first operand of a conjunction: any number of `&&`
/// with an operand each, folded to the left onto `left`.
pub open spec fn and_tail(s: Seq<u8>, pos: int, left: ExprView) -> Option<(ExprView, int)>
    decreases s.len() - pos, 17nat,
{
    if pos < 0 || pos > s.len() {
        None
    } else {
        let q = skip_blank(s, pos);
        if has_literal(s, q, seq![38u8, 38u8]) {
            let start = skip_blank(s, q + 2);
            proof {
                lemma_skip_blank(s, pos);
                lemma_skip_blank(s, q + 2);
            }
            match parse_comparison(s, start) {
                Some((right, p)) => if start < p <= s.len() {
                    and_tail(
                        s,
                        p,
                        ExprView::Logical {
                            left: Box::new(left),
                            op: LogicalOp::And,
                            right: Box::new(right),
                        },
                    )
                } else {
                    None
                },
                None => None,
            }
        } else {
            Some((left, pos))
        }
    }
}

/// A comparison at `pos`.
pub open spec fn parse_comparison(s: Seq<u8>, pos: int) -> Option<(ExprView, int)>
    decreases s.len() - pos, 16nat,
{
    if pos < 0 || pos > s.len() {
        None
    } else {
        match parse_unary(s, pos) {
            Some((left, p)) => if pos < p <= s.len() {
                comparison_tail(s, p, left)
            } else {
                None
            },
            None => None,
        }
    }
}

/// What follows the first operand of a comparison: any number of
/// comparison operators with an operand each, folded to the left onto
/// `left`.
pub open spec fn comparison_tail(s: Seq<u8>, pos: int, left: ExprView) -> Option<(ExprView, int)>
    decreases s.len() - pos, 15nat,
{
    if pos < 0 || pos > s.len() {
        None
    } else {
        let q = skip_blank(s, pos);
        match operator_at(s, q) {
            Some((op, width)) => {
                let start = skip_blank(s, q + width);
                proof {
                    lemma_skip_blank(s, pos);
                    lemma_skip_blank(s, q + width);
                }
                match parse_unary(s, start) {
                    Some((right, p)) => if start < p <= s.len() {
                        comparison_tail(
                            s,
                            p,
                            ExprView::BinaryOp {
                                left: Box::new(left),
                                op,
                                right: Box::new(right),
                            },
                        )
                    } else {
                        None
                    },
                    None => None,
                }
            },
            None => Some((left, pos)),
        }
    }
}

/// A primary expression at `pos` under any number of `!`.
pub open spec fn parse_unary(s: Seq<u8>, pos: int) -> Option<(ExprView, int)>
    decreases s.len() - pos, 14nat,
{
    if pos < 0 || pos >= s.len() {
        None
    } else if s[pos] == 33 {
        let start = skip_blank(s, pos + 1);
        proof {
            lemma_skip_blank(s, pos + 1);
        }
        match parse_unary(s, start) {
            Some((inner, p)) => Some((ExprView::Not(Box::new(inner)), p)),
            None => None,
        }
    } else {
        parse_primary(s, pos)
    }
}

/// An expression in parentheses, or an atom.
pub open spec fn parse_primary(s: Seq<u8>, pos: int) -> Option<(ExprView, int)>
    decreases s.len() - pos, 13nat,
{
    if pos < 0 || pos >= s.len() {
        None
    } else if s[pos] == 40 {
        let start = skip_blank(s, pos + 1);
        proof {
            lemma_skip_blank(s, pos + 1);
        }
        match parse_expr(s, start) {
            Some((inner, p)) => {
                let close = skip_blank(s, p);
                if 0 <= close < s.len() && s[close] == 41 {
                    Some((inner, close + 1))
                } else {
                    None
                }
            },
            None => None,
        }
    } else {
        parse_atom(s, pos)
    }
}

/// A function call, a boolean, an integer or a variable, tried in that
/// order.
pub open spec fn parse_atom(s: Seq<u8>, pos: int) -> Option<(ExprView, int)>
    decreases s.len() - pos, 12nat,
{
    if pos < 0 || pos >= s.len() {
        None
    } else {
        let end = name_end(s, pos);
        let open = skip_blank(s, end);
        if is_name_start(s[pos]) && 0 <= open < s.len() && s[open] == 40 {
            // A name and an opening parenthesis: a call.
            let name = ascii_text(s.subrange(pos, end));
            let first = skip_blank(s, open + 1);
            proof {
                lemma_name_end(s, pos);
                lemma_skip_blank(s, end);
                lemma_skip_blank(s, open + 1);
            }
            if 0 <= first < s.len() && s[first] == 41 {
                Some((ExprView::FunctionCall { name, args: Seq::<ExprView>::empty() }, first + 1))
            } else {
                match parse_expr(s, first) {
                    Some((arg, p)) => if first < p <= s.len() {
                        match arguments_tail(s, p, seq![arg]) {
                            Some((args, after)) => Some(
                                (ExprView::FunctionCall { name, args }, after),
                            ),
                            None => None,
                        }
                    } else {
                        None
                    },
                    None => None,
                }
            }
        } else if has_literal(s, pos, seq![116u8, 114u8, 117u8, 101u8]) {
            Some((ExprView::Boolean(true), pos + 4))
        } else if has_literal(s, pos, seq![102u8, 97u8, 108u8, 115u8, 101u8]) {
            Some((ExprView::Boolean(false), pos + 5))
        } else if integer_starts(s, pos) {
            match integer_at(s, pos) {
                Some((value, after)) => Some((ExprView::Int(value), after)),
                None => None,
            }
        } else {
            variable_at(s, pos)
        }
    }
}

/// What follows the first argument of a call: any number of commas with
/// an argument each, and the closing parenthesis.
pub open spec fn arguments_tail(s: Seq<u8>, pos: int, args: Seq<ExprView>) -> Option<
    (Seq<ExprView>, int),
>
    decreases s.len() - pos, 11nat,
{
    if pos < 0 || pos > s.len() {
        None
    } else {
        let q = skip_blank(s, pos);
        if 0 <= q < s.len() && s[q] == 44 {
            let start = skip_blank(s, q + 1);
            proof {
                lemma_skip_blank(s, pos);
                lemma_skip_blank(s, q + 1);
            }
            match parse_expr(s, start) {
                Some((arg, p)) => if start < p <= s.len() {
                    arguments_tail(s, p, args.push(arg))
                } else {
                    None
                },
                None => None,
            }
        } else if 0 <= q < s.len() && s[q] == 41 {
            Some((args, q + 1))
        } else {
            None
        }
    }
}

/// What follows the first layer of a definition's layer list: any number
/// of commas with a layer each, and the closing parenthesis.
pub open spec fn layers_tail(s: Seq<u8>, pos: int, layers: Seq<Seq<char>>) -> Option<
    (Seq<Seq<char>>, int),
>
    decreases s.len() - pos,
{
    if pos < 0 || pos > s.len() {
        None
    } else {
        let q = skip_blank(s, pos);
        if 0 <= q < s.len() && s[q] == 44 {
            let start = skip_blank(s, q + 1);
            proof {
                lemma_skip_blank(s, pos);
                lemma_skip_blank(s, q + 1);
                lemma_layer_at(s, start, 5);
            }
            match layer_at(s, start, 5) {
                Some(layer) => layers_tail(
                    s,
                    start + layer.len(),
                    layers.push(ascii_text(layer)),
                ),
                None => None,
            }
        } else if 0 <= q < s.len() && s[q] == 41 {
            Some((layers, q + 1))
        } else {
            None
        }
    }
}

/// The layer list of a definition, if one stands at `pos`: the layers and
/// the position after the list. Without an opening parenthesis at `pos`
/// the list is empty and ends at `pos`.
pub open spec fn layers_at(s: Seq<u8>, pos: int) -> Option<(Seq<Seq<char>>, int)> {
    if 0 <= pos < s.len() && s[pos] == 40 {
        let start = skip_blank(s, pos + 1);
        match layer_at(s, start, 5) {
            Some(layer) => layers_tail(s, start + layer.len(), seq![ascii_text(layer)]),
            None => None,
        }
    } else {
        Some((Seq::<Seq<char>>::empty(), pos))
    }
}

/// The invariant whose definition stands at `pos`, with the position
/// after the definition. It has severity `medium`, category `general`, no
/// description, no phases, and is to hold always.
pub open spec fn parse_definition_at(s: Seq<u8>, pos: int) -> Option<(InvariantView, int)> {
    if !has_literal(s, pos, keyword()) {
        None
    } else {
        let start = skip_blank(s, pos + 9);
        if !(0 <= start < s.len() && is_name_start(s[start])) {
            None
        } else {
            let end = name_end(s, start);
            match layers_at(s, skip_blank(s, end)) {
                None => None,
                Some((layers, after)) => {
                    let open = skip_blank(s, after);
                    if !(0 <= open < s.len() && s[open] == 123) {
                        None
                    } else {
                        match parse_expr(s, skip_blank(s, open + 1)) {
                            None => None,
                            Some((expression, p)) => {
                                let close = skip_blank(s, p);
                                if 0 <= close < s.len() && s[close] == 125 {
                                    Some(
                                        (
                                            InvariantView {
                                                name: ascii_text(s.subrange(start, end)),
                                                description: None,
                                                expression,
                                                severity: "medium"@,
                                                category: "general"@,
                                                is_always_true: true,
                                                layers,
                                                phases: Seq::<Seq<char>>::empty(),
                                            },
                                            close + 1,
                                        ),
                                    )
                                } else {
                                    None
                                }
                            },
                        }
                    }
                },
            }
        }
    }
}

/// The invariant that the bytes `s` define, if they begin with a
/// definition. What follows the definition is not read.
pub open spec fn parse_definition(s: Seq<u8>) -> Option<InvariantView> {
    match parse_definition_at(s, 0) {
        Some((inv, _)) => Some(inv),
        None => None,
    }
}

/// The definitions that stand in `s` from `pos` on, after those of
/// `found`: one or more, with blanks before, between and after them and
/// nothing else.
pub open spec fn parse_definitions(s: Seq<u8>, pos: int, found: Seq<InvariantView>) -> Option<
    Seq<InvariantView>,
>
    decreases s.len() - pos,
{
    if pos < 0 || pos > s.len() {
        None
    } else {
        let start = skip_blank(s, pos);
        proof {
            lemma_skip_blank(s, pos);
        }
        if start == s.len() {
            if found.len() > 0 {
                Some(found)
            } else {
                None
            }
        } else {
            match parse_definition_at(s, start) {
                Some((inv, after)) => if start < after <= s.len() {
                    parse_definitions(s, after, found.push(inv))
                } else {
                    None
                },
                None => None,
            }
        }
    }
}

/// The invariants that a file defines: the bytes `s` must be one
/// definition or more and nothing else but blanks.
pub open spec fn parse_file(s: Seq<u8>) -> Option<Seq<InvariantView>> {
    parse_definitions(s, 0, Seq::<InvariantView>::empty())
}

/// An integer literal is read only if the number that it writes fits in
/// 128 bits with a sign, and then it is read as that number: a literal
/// outside that range is rejected.
pub proof fn law_integer_literals_fit(s: Seq<u8>, pos: int)
    ensures
        match integer_at(s, pos) {
            Some((value, end)) => {
                let negative = s[pos] == 45;
                let start = if negative {
                    pos + 1
                } else {
                    pos
                };
                &&& start < end <= s.len()
                &&& value == (if negative {
                    -(digits_value(s.subrange(start, end)) as int)
                } else {
                    digits_value(s.subrange(start, end)) as int
                })
            },
            None => true,
        },
        integer_starts(s, pos) && integer_at(s, pos) is None ==> parse_atom(s, pos) is None,
{
    if integer_starts(s, pos) {
        assert(!is_name_start(s[pos]));
        assert(!has_literal(s, pos, seq![116u8, 114u8, 117u8, 101u8])) by {
            if has_literal(s, pos, seq![116u8, 114u8, 117u8, 101u8]) {
                assert(s.subrange(pos, pos + 4)[0] == s[pos]);
            }
        }
        assert(!has_literal(s, pos, seq![102u8, 97u8, 108u8, 115u8, 101u8])) by {
            if has_literal(s, pos, seq![102u8, 97u8, 108u8, 115u8, 101u8]) {
                assert(s.subrange(pos, pos + 5)[0] == s[pos]);
            }
        }
    }
}

} // verus!
