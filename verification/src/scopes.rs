//! The layers and phases that an expression may name.

use crate::account_abstraction::{AALayer, ExecutionPhase};
use crate::grammar::{
    and_tail, arguments_tail, ascii_text, comparison_tail, layer_at, layer_names, layers_at,
    layers_tail, lemma_layer_at, lemma_name_end, lemma_skip_blank, name_end, operator_at,
    or_tail, parse_and, parse_atom, parse_comparison, parse_definition_at, parse_expr,
    parse_primary, parse_unary, skip_blank, variable_at,
};
use crate::model::{exprs_view, lemma_call_view, lemma_tuple_view};
use crate::model::{ExprView, Expression, Invariant, InvariantView};
use crate::text::strings_view;
use vstd::prelude::*;
use vstd::string::*;

verus! {

/// Whether a text is the name of a layer.
pub open spec fn is_layer(name: Seq<char>) -> bool {
    AALayer::named(name) is Some
}

/// Whether a text is the name of a phase.
pub open spec fn is_phase(name: Seq<char>) -> bool {
    ExecutionPhase::named(name) is Some
}

/// Whether every layer that an expression names is one of the five
/// layers, and every phase one of the three phases.
pub open spec fn scopes_known(e: ExprView) -> bool
    decreases e,
{
    match e {
        ExprView::Boolean(_) => true,
        ExprView::Int(_) => true,
        ExprView::Var(_) => true,
        ExprView::LayerVar { layer, var } => is_layer(layer),
        ExprView::PhaseQualifiedVar { phase, layer, var } => is_phase(phase) && is_layer(layer),
        ExprView::PhaseConstraint { phase, constraint } => is_phase(phase) && scopes_known(
            *constraint,
        ),
        ExprView::CrossPhaseRelation { phase1, expr1, phase2, expr2, op } => is_phase(phase1)
            && is_phase(phase2) && scopes_known(*expr1) && scopes_known(*expr2),
        ExprView::BinaryOp { left, op, right } => scopes_known(*left) && scopes_known(*right),
        ExprView::Logical { left, op, right } => scopes_known(*left) && scopes_known(*right),
        ExprView::Not(inner) => scopes_known(*inner),
        ExprView::FunctionCall { name, args } => all_scopes_known(args),
        ExprView::Tuple(items) => all_scopes_known(items),
    }
}

/// Whether the scopes of every expression of a list are known.
pub open spec fn all_scopes_known(es: Seq<ExprView>) -> bool
    decreases es,
{
    forall|i: int| 0 <= i < es.len() ==> scopes_known(#[trigger] es[i])
}

/// Whether every text of a list is the name of a layer.
pub open spec fn all_layers(names: Seq<Seq<char>>) -> bool {
    forall|i: int| 0 <= i < names.len() ==> is_layer(#[trigger] names[i])
}

/// Whether every text of a list is the name of a phase.
pub open spec fn all_phases(names: Seq<Seq<char>>) -> bool {
    forall|i: int| 0 <= i < names.len() ==> is_phase(#[trigger] names[i])
}

/// Whether an invariant names only known layers and phases, in its lists
/// and in its condition.
pub open spec fn invariant_scopes_known(inv: InvariantView) -> bool {
    &&& all_layers(inv.layers)
    &&& all_phases(inv.phases)
    &&& scopes_known(inv.expression)
}

fn known_layer(name: &str) -> (r: bool)
    ensures
        r == is_layer(name@),
{
    AALayer::parse(name).is_some()
}

fn known_phase(name: &str) -> (r: bool)
    ensures
        r == is_phase(name@),
{
    ExecutionPhase::parse(name).is_some()
}

impl Expression {
    /// Whether every layer that the expression names is one of the five
    /// layers, and every phase one of the three phases.
    pub fn scopes_are_known(&self) -> (r: bool)
        ensures
            r == scopes_known(self@),
        decreases self, 1nat,
    {
        match self {
            Expression::Boolean(_) | Expression::Int(_) | Expression::Var(_) => true,
            Expression::LayerVar { layer, var: _ } => known_layer(layer.as_str()),
            Expression::PhaseQualifiedVar { phase, layer, var: _ } => known_phase(phase.as_str())
                && known_layer(layer.as_str()),
            Expression::PhaseConstraint { phase, constraint } => known_phase(phase.as_str())
                && constraint.scopes_are_known(),
            Expression::CrossPhaseRelation { phase1, expr1, phase2, expr2, op: _ } => {
                known_phase(phase1.as_str()) && known_phase(phase2.as_str())
                    && expr1.scopes_are_known() && expr2.scopes_are_known()
            },
            Expression::BinaryOp { left, op: _, right } => left.scopes_are_known()
                && right.scopes_are_known(),
            Expression::Logical { left, op: _, right } => left.scopes_are_known()
                && right.scopes_are_known(),
            Expression::Not(inner) => inner.scopes_are_known(),
            Expression::FunctionCall { name, args } => {
                proof {
                    lemma_call_view(*name, *args);
                }
                all_known(args)
            },
            Expression::Tuple(items) => {
                proof {
                    lemma_tuple_view(*items);
                }
                all_known(items)
            },
        }
    }
}

fn all_known(items: &Vec<Expression>) -> (r: bool)
    ensures
        r == all_scopes_known(exprs_view(items@)),
    decreases items, 0nat,
{
    let ghost es = exprs_view(items@);
    let mut i: usize = 0;
    while i < items.len()
        invariant
            i <= items.len(),
            es == exprs_view(items@),
            forall|k: int| 0 <= k < i ==> scopes_known(#[trigger] es[k]),
        decreases items.len() - i,
    {
        proof {
            assert(es[i as int] == items@[i as int]@);
        }
        if !items[i].scopes_are_known() {
            return false;
        }
        i += 1;
    }
    true
}

fn names_known(names: &Vec<String>, layers: bool) -> (r: bool)
    ensures
        r == (if layers {
            all_layers(strings_view(names@))
        } else {
            all_phases(strings_view(names@))
        }),
{
    let ghost texts = strings_view(names@);
    let mut i: usize = 0;
    while i < names.len()
        invariant
            i <= names.len(),
            texts == strings_view(names@),
            layers ==> forall|k: int| 0 <= k < i ==> is_layer(#[trigger] texts[k]),
            !layers ==> forall|k: int| 0 <= k < i ==> is_phase(#[trigger] texts[k]),
        decreases names.len() - i,
    {
        proof {
            assert(texts[i as int] == names@[i as int]@);
        }
        let known = if layers {
            known_layer(names[i].as_str())
        } else {
            known_phase(names[i].as_str())
        };
        if !known {
            return false;
        }
        i += 1;
    }
    true
}

impl Invariant {
    /// Whether the invariant names only known layers and phases, in its
    /// lists and in its condition.
    pub fn scopes_are_known(&self) -> (r: bool)
        ensures
            r == invariant_scopes_known(self@),
    {
        names_known(&self.layers, true) && names_known(&self.phases, false)
            && self.expression.scopes_are_known()
    }
}

/// The names of the grammar's layers are the names of the five layers.
pub proof fn lemma_grammar_layers(i: int)
    requires
        0 <= i < 5,
    ensures
        is_layer(ascii_text(layer_names()[i])),
{
    reveal_strlit("bundler");
    reveal_strlit("account");
    reveal_strlit("paymaster");
    reveal_strlit("protocol");
    reveal_strlit("entrypoint");
    let t = ascii_text(layer_names()[i]);
    if i == 0 {
        assert(t =~= "bundler"@);
    } else if i == 1 {
        assert(t =~= "account"@);
    } else if i == 2 {
        assert(t =~= "paymaster"@);
    } else if i == 3 {
        assert(t =~= "protocol"@);
    } else {
        assert(t =~= "entrypoint"@);
    }
}

proof fn lemma_layer_at_known(s: Seq<u8>, pos: int)
    ensures
        layer_at(s, pos, 5) matches Some(l) ==> is_layer(ascii_text(l)),
{
    lemma_layer_at(s, pos, 5);
    match layer_at(s, pos, 5) {
        Some(l) => {
            let i = choose|i: int| 0 <= i < 5 && layer_names()[i] == l;
            lemma_grammar_layers(i);
        },
        None => {},
    }
}

proof fn lemma_variable_scopes(s: Seq<u8>, pos: int)
    ensures
        variable_at(s, pos) matches Some((e, _)) ==> scopes_known(e),
{
    lemma_layer_at_known(s, pos);
}

proof fn lemma_expr_scopes(s: Seq<u8>, pos: int)
    ensures
        parse_expr(s, pos) matches Some((e, _)) ==> scopes_known(e),
    decreases s.len() - pos, 20nat,
{
    if 0 <= pos <= s.len() {
        lemma_and_scopes(s, pos);
        match parse_and(s, pos) {
            Some((left, p)) => {
                if pos < p <= s.len() {
                    lemma_or_tail_scopes(s, p, left);
                }
            },
            None => {},
        }
    }
}

proof fn lemma_or_tail_scopes(s: Seq<u8>, pos: int, left: ExprView)
    requires
        scopes_known(left),
    ensures
        or_tail(s, pos, left) matches Some((e, _)) ==> scopes_known(e),
    decreases s.len() - pos, 19nat,
{
    if 0 <= pos <= s.len() {
        let q = skip_blank(s, pos);
        lemma_skip_blank(s, pos);
        lemma_skip_blank(s, q + 2);
        let start = skip_blank(s, q + 2);
        if crate::grammar::has_literal(s, q, seq![124u8, 124u8]) {
            lemma_and_scopes(s, start);
            match parse_and(s, start) {
                Some((right, p)) => {
                    if start < p <= s.len() {
                        lemma_or_tail_scopes(
                            s,
                            p,
                            ExprView::Logical {
                                left: Box::new(left),
                                op: crate::model::LogicalOp::Or,
                                right: Box::new(right),
                            },
                        );
                    }
                },
                None => {},
            }
        }
    }
}

proof fn lemma_and_scopes(s: Seq<u8>, pos: int)
    ensures
        parse_and(s, pos) matches Some((e, _)) ==> scopes_known(e),
    decreases s.len() - pos, 18nat,
{
    if 0 <= pos <= s.len() {
        lemma_comparison_scopes(s, pos);
        match parse_comparison(s, pos) {
            Some((left, p)) => {
                if pos < p <= s.len() {
                    lemma_and_tail_scopes(s, p, left);
                }
            },
            None => {},
        }
    }
}

proof fn lemma_and_tail_scopes(s: Seq<u8>, pos: int, left: ExprView)
    requires
        scopes_known(left),
    ensures
        and_tail(s, pos, left) matches Some((e, _)) ==> scopes_known(e),
    decreases s.len() - pos, 17nat,
{
    if 0 <= pos <= s.len() {
        let q = skip_blank(s, pos);
        lemma_skip_blank(s, pos);
        lemma_skip_blank(s, q + 2);
        let start = skip_blank(s, q + 2);
        if crate::grammar::has_literal(s, q, seq![38u8, 38u8]) {
            lemma_comparison_scopes(s, start);
            match parse_comparison(s, start) {
                Some((right, p)) => {
                    if start < p <= s.len() {
                        lemma_and_tail_scopes(
                            s,
                            p,
                            ExprView::Logical {
                                left: Box::new(left),
                                op: crate::model::LogicalOp::And,
                                right: Box::new(right),
                            },
                        );
                    }
                },
                None => {},
            }
        }
    }
}

proof fn lemma_comparison_scopes(s: Seq<u8>, pos: int)
    ensures
        parse_comparison(s, pos) matches Some((e, _)) ==> scopes_known(e),
    decreases s.len() - pos, 16nat,
{
    if 0 <= pos <= s.len() {
        lemma_unary_scopes(s, pos);
        match parse_unary(s, pos) {
            Some((left, p)) => {
                if pos < p <= s.len() {
                    lemma_comparison_tail_scopes(s, p, left);
                }
            },
            None => {},
        }
    }
}

proof fn lemma_comparison_tail_scopes(s: Seq<u8>, pos: int, left: ExprView)
    requires
        scopes_known(left),
    ensures
        comparison_tail(s, pos, left) matches Some((e, _)) ==> scopes_known(e),
    decreases s.len() - pos, 15nat,
{
    if 0 <= pos <= s.len() {
        let q = skip_blank(s, pos);
        lemma_skip_blank(s, pos);
        match operator_at(s, q) {
            Some((op, width)) => {
                lemma_skip_blank(s, q + width);
                let start = skip_blank(s, q + width);
                lemma_unary_scopes(s, start);
                match parse_unary(s, start) {
                    Some((right, p)) => {
                        if start < p <= s.len() {
                            lemma_comparison_tail_scopes(
                                s,
                                p,
                                ExprView::BinaryOp {
                                    left: Box::new(left),
                                    op,
                                    right: Box::new(right),
                                },
                            );
                        }
                    },
                    None => {},
                }
            },
            None => {},
        }
    }
}

proof fn lemma_unary_scopes(s: Seq<u8>, pos: int)
    ensures
        parse_unary(s, pos) matches Some((e, _)) ==> scopes_known(e),
    decreases s.len() - pos, 14nat,
{
    if 0 <= pos < s.len() {
        if s[pos] == 33 {
            lemma_skip_blank(s, pos + 1);
            lemma_unary_scopes(s, skip_blank(s, pos + 1));
        } else {
            lemma_primary_scopes(s, pos);
        }
    }
}

proof fn lemma_primary_scopes(s: Seq<u8>, pos: int)
    ensures
        parse_primary(s, pos) matches Some((e, _)) ==> scopes_known(e),
    decreases s.len() - pos, 13nat,
{
    if 0 <= pos < s.len() {
        if s[pos] == 40 {
            lemma_skip_blank(s, pos + 1);
            lemma_expr_scopes(s, skip_blank(s, pos + 1));
        } else {
            lemma_atom_scopes(s, pos);
        }
    }
}

proof fn lemma_atom_scopes(s: Seq<u8>, pos: int)
    ensures
        parse_atom(s, pos) matches Some((e, _)) ==> scopes_known(e),
    decreases s.len() - pos, 12nat,
{
    if 0 <= pos < s.len() {
        let end = name_end(s, pos);
        let open = skip_blank(s, end);
        lemma_name_end(s, pos);
        lemma_skip_blank(s, end);
        lemma_skip_blank(s, open + 1);
        lemma_variable_scopes(s, pos);
        if crate::grammar::is_name_start(s[pos]) && 0 <= open < s.len() && s[open] == 40 {
            let first = skip_blank(s, open + 1);
            if 0 <= first < s.len() && s[first] == 41 {
                assert(all_scopes_known(Seq::<ExprView>::empty()));
            } else {
                lemma_expr_scopes(s, first);
                match parse_expr(s, first) {
                    Some((arg, p)) => {
                        if first < p <= s.len() {
                            assert(seq![arg][0] == arg);
                            assert(all_scopes_known(seq![arg]));
                            lemma_arguments_scopes(s, p, seq![arg]);
                        }
                    },
                    None => {},
                }
            }
        }
    }
}

proof fn lemma_arguments_scopes(s: Seq<u8>, pos: int, args: Seq<ExprView>)
    requires
        all_scopes_known(args),
    ensures
        arguments_tail(s, pos, args) matches Some((all, _)) ==> all_scopes_known(all),
    decreases s.len() - pos, 11nat,
{
    if 0 <= pos <= s.len() {
        let q = skip_blank(s, pos);
        lemma_skip_blank(s, pos);
        if 0 <= q < s.len() && s[q] == 44 {
            lemma_skip_blank(s, q + 1);
            let start = skip_blank(s, q + 1);
            lemma_expr_scopes(s, start);
            match parse_expr(s, start) {
                Some((arg, p)) => {
                    if start < p <= s.len() {
                        let more = args.push(arg);
                        assert forall|i: int| 0 <= i < more.len() implies scopes_known(
                            #[trigger] more[i],
                        ) by {
                            if i < args.len() {
                                assert(more[i] == args[i]);
                            }
                        }
                        lemma_arguments_scopes(s, p, more);
                    }
                },
                None => {},
            }
        }
    }
}

proof fn lemma_layers_tail_known(s: Seq<u8>, pos: int, layers: Seq<Seq<char>>)
    requires
        all_layers(layers),
    ensures
        layers_tail(s, pos, layers) matches Some((all, _)) ==> all_layers(all),
    decreases s.len() - pos,
{
    if 0 <= pos <= s.len() {
        let q = skip_blank(s, pos);
        lemma_skip_blank(s, pos);
        if 0 <= q < s.len() && s[q] == 44 {
            lemma_skip_blank(s, q + 1);
            let start = skip_blank(s, q + 1);
            lemma_layer_at(s, start, 5);
            lemma_layer_at_known(s, start);
            match layer_at(s, start, 5) {
                Some(layer) => {
                    let more = layers.push(ascii_text(layer));
                    assert forall|i: int| 0 <= i < more.len() implies is_layer(
                        #[trigger] more[i],
                    ) by {
                        if i < layers.len() {
                            assert(more[i] == layers[i]);
                        }
                    }
                    lemma_layers_tail_known(s, start + layer.len(), more);
                },
                None => {},
            }
        }
    }
}

/// What the parser reads names only known layers and phases: the layers
/// of a definition's list are among the five layers, and so is the layer
/// of every qualified variable of its condition.
pub proof fn law_parsed_scopes_are_known(s: Seq<u8>, pos: int)
    ensures
        parse_definition_at(s, pos) matches Some((inv, _)) ==> invariant_scopes_known(inv),
{
    match parse_definition_at(s, pos) {
        Some((inv, _)) => {
            let start = skip_blank(s, pos + 9);
            let end = name_end(s, start);
            let list = skip_blank(s, end);
            if 0 <= list < s.len() && s[list] == 40 {
                let first = skip_blank(s, list + 1);
                lemma_layer_at_known(s, first);
                match layer_at(s, first, 5) {
                    Some(layer) => {
                        lemma_layers_tail_known(
                            s,
                            first + layer.len(),
                            seq![ascii_text(layer)],
                        );
                    },
                    None => {},
                }
            }
            match layers_at(s, list) {
                Some((layers, after)) => {
                    let open = skip_blank(s, after);
                    lemma_expr_scopes(s, skip_blank(s, open + 1));
                },
                None => {},
            }
        },
        None => {},
    }
}

} // verus!
