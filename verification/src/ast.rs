//! What analysis keeps beside the program model: the context of an
//! analysis, the graph of calls and mutations, and the names that an
//! expression may refer to.

use crate::model::{exprs_view, lemma_call_view, lemma_tuple_view};
use crate::model::{ExprView, Expression, FunctionModel, ProgramModel, StateVar};
use crate::attack_patterns::list_contains;
use crate::ordmap::{OrderedMap, OrderedSet};
use crate::text::strictly_sorted;
use crate::text::{join2, strings_view};
use vstd::prelude::*;
use vstd::string::*;

verus! {

/// Context information from the analysis phase.
#[derive(Debug, Clone)]
pub struct AnalysisContext {
    /// The analyzed program model.
    pub program: ProgramModel,
    /// Whether analysis completed successfully.
    pub is_valid: bool,
    /// Any warnings encountered during analysis.
    pub warnings: Vec<String>,
}

impl AnalysisContext {
    /// Create a new analysis context: valid, without warnings.
    pub fn new(program: ProgramModel) -> (c: Self)
        ensures
            c.program == program,
            c.is_valid,
            c.warnings@.len() == 0,
    {
        AnalysisContext { program, is_valid: true, warnings: Vec::new() }
    }

    /// Add a warning.
    pub fn add_warning(&mut self, warning: String)
        ensures
            final(self).warnings@ == old(self).warnings@.push(warning),
            final(self).is_valid == old(self).is_valid,
            final(self).program == old(self).program,
    {
        self.warnings.push(warning);
    }

    /// Mark analysis as invalid.
    pub fn mark_invalid(&mut self)
        ensures
            !final(self).is_valid,
            final(self).warnings == old(self).warnings,
            final(self).program == old(self).program,
    {
        self.is_valid = false;
    }
}

/// The names that an expression may refer to.
#[derive(Debug, Clone)]
pub struct ExpressionContext {
    /// Available state variables in scope.
    pub available_vars: OrderedMap<StateVar>,
    /// Available functions.
    pub available_functions: OrderedMap<FunctionModel>,
}

/// What validation says of an expression: nothing if every variable and
/// function that it names is available, else the message for the first
/// that is not, operands and arguments taken from left to right and a
/// call's name before its arguments. Qualified variables are looked up
/// by their bare name.
pub open spec fn names_verdict(vars: Set<Seq<char>>, funcs: Set<Seq<char>>, e: ExprView) -> Result<
    (),
    Seq<char>,
>
    decreases e, 0nat,
{
    match e {
        ExprView::Boolean(_) => Ok(()),
        ExprView::Int(_) => Ok(()),
        ExprView::Var(name) => if vars.contains(name) {
            Ok(())
        } else {
            Err("Undefined variable: "@ + name)
        },
        ExprView::LayerVar { layer, var } => if vars.contains(var) {
            Ok(())
        } else {
            Err("Undefined layer variable: "@ + var)
        },
        ExprView::PhaseQualifiedVar { phase, layer, var } => if vars.contains(var) {
            Ok(())
        } else {
            Err("Undefined phase-qualified variable: "@ + var)
        },
        ExprView::PhaseConstraint { phase, constraint } => names_verdict(vars, funcs, *constraint),
        ExprView::CrossPhaseRelation { phase1, expr1, phase2, expr2, op } => match names_verdict(
            vars,
            funcs,
            *expr1,
        ) {
            Err(m) => Err(m),
            Ok(_) => names_verdict(vars, funcs, *expr2),
        },
        ExprView::BinaryOp { left, op, right } => match names_verdict(vars, funcs, *left) {
            Err(m) => Err(m),
            Ok(_) => names_verdict(vars, funcs, *right),
        },
        ExprView::Logical { left, op, right } => match names_verdict(vars, funcs, *left) {
            Err(m) => Err(m),
            Ok(_) => names_verdict(vars, funcs, *right),
        },
        ExprView::Not(inner) => names_verdict(vars, funcs, *inner),
        ExprView::FunctionCall { name, args } => if !funcs.contains(name) {
            Err("Undefined function: "@ + name)
        } else {
            names_verdict_list(vars, funcs, args, args.len())
        },
        ExprView::Tuple(items) => names_verdict_list(vars, funcs, items, items.len()),
    }
}

/// What validation says of the first `n` expressions of `es`: the first
/// message met from left to right, if any.
pub open spec fn names_verdict_list(
    vars: Set<Seq<char>>,
    funcs: Set<Seq<char>>,
    es: Seq<ExprView>,
    n: nat,
) -> Result<(), Seq<char>>
    decreases es, n,
{
    if n == 0 || n > es.len() {
        Ok(())
    } else {
        match names_verdict_list(vars, funcs, es, (n - 1) as nat) {
            Err(m) => Err(m),
            Ok(_) => names_verdict(vars, funcs, es[n - 1]),
        }
    }
}

/// The view of a validation result.
pub open spec fn names_result(r: Result<(), String>) -> Result<(), Seq<char>> {
    match r {
        Ok(_) => Ok(()),
        Err(m) => Err(m@),
    }
}

proof fn lemma_names_list_error(
    vars: Set<Seq<char>>,
    funcs: Set<Seq<char>>,
    es: Seq<ExprView>,
    k: nat,
    n: nat,
)
    requires
        1 <= k <= n <= es.len(),
        names_verdict_list(vars, funcs, es, k) is Err,
    ensures
        names_verdict_list(vars, funcs, es, n) == names_verdict_list(vars, funcs, es, k),
    decreases n - k,
{
    if k < n {
        lemma_names_list_error(vars, funcs, es, k, (n - 1) as nat);
    }
}

impl ExpressionContext {
    /// Create a new expression context, with nothing available.
    pub fn new() -> (c: Self)
        ensures
            c.available_vars@ == Map::<Seq<char>, StateVar>::empty(),
            c.available_functions@ == Map::<Seq<char>, FunctionModel>::empty(),
    {
        ExpressionContext { available_vars: OrderedMap::new(), available_functions: OrderedMap::new() }
    }

    /// Validate that an expression only references available identifiers.
    pub fn validate_expression(&self, expr: &Expression) -> (r: Result<(), String>)
        ensures
            names_result(r) == names_verdict(
                self.available_vars@.dom(),
                self.available_functions@.dom(),
                expr@,
            ),
        decreases expr, 1nat,
    {
        match expr {
            Expression::Boolean(_) | Expression::Int(_) => Ok(()),
            Expression::Var(name) => {
                if self.available_vars.contains_key(name.as_str()) {
                    Ok(())
                } else {
                    Err(join2("Undefined variable: ", name.as_str()))
                }
            },
            Expression::LayerVar { layer: _, var } => {
                if self.available_vars.contains_key(var.as_str()) {
                    Ok(())
                } else {
                    Err(join2("Undefined layer variable: ", var.as_str()))
                }
            },
            Expression::PhaseQualifiedVar { phase: _, layer: _, var } => {
                if self.available_vars.contains_key(var.as_str()) {
                    Ok(())
                } else {
                    Err(join2("Undefined phase-qualified variable: ", var.as_str()))
                }
            },
            Expression::PhaseConstraint { phase: _, constraint } => self.validate_expression(
                constraint,
            ),
            Expression::CrossPhaseRelation { phase1: _, expr1, phase2: _, expr2, op: _ } => {
                match self.validate_expression(expr1) {
                    Ok(_) => {},
                    Err(m) => {
                        return Err(m);
                    },
                }
                self.validate_expression(expr2)
            },
            Expression::BinaryOp { left, op: _, right } => {
                match self.validate_expression(left) {
                    Ok(_) => {},
                    Err(m) => {
                        return Err(m);
                    },
                }
                self.validate_expression(right)
            },
            Expression::Logical { left, op: _, right } => {
                match self.validate_expression(left) {
                    Ok(_) => {},
                    Err(m) => {
                        return Err(m);
                    },
                }
                self.validate_expression(right)
            },
            Expression::Not(e) => self.validate_expression(e),
            Expression::FunctionCall { name, args } => {
                proof {
                    lemma_call_view(*name, *args);
                }
                if !self.available_functions.contains_key(name.as_str()) {
                    return Err(join2("Undefined function: ", name.as_str()));
                }
                self.validate_all(args)
            },
            Expression::Tuple(exprs) => {
                proof {
                    lemma_tuple_view(*exprs);
                }
                self.validate_all(exprs)
            },
        }
    }

    fn validate_all(&self, items: &Vec<Expression>) -> (r: Result<(), String>)
        ensures
            names_result(r) == names_verdict_list(
                self.available_vars@.dom(),
                self.available_functions@.dom(),
                exprs_view(items@),
                items.len() as nat,
            ),
        decreases items, 0nat,
    {
        let ghost es = exprs_view(items@);
        let ghost vars = self.available_vars@.dom();
        let ghost funcs = self.available_functions@.dom();
        let mut i: usize = 0;
        while i < items.len()
            invariant
                i <= items.len(),
                es == exprs_view(items@),
                vars == self.available_vars@.dom(),
                funcs == self.available_functions@.dom(),
                names_verdict_list(vars, funcs, es, i as nat) == Ok::<(), Seq<char>>(()),
            decreases items.len() - i,
        {
            proof {
                assert(es[i as int] == items@[i as int]@);
            }
            match self.validate_expression(&items[i]) {
                Ok(_) => {},
                Err(m) => {
                    proof {
                        lemma_names_list_error(vars, funcs, es, (i + 1) as nat, es.len());
                    }
                    return Err(m);
                },
            }
            i += 1;
        }
        Ok(())
    }
}

impl Default for ExpressionContext {
    fn default() -> (c: Self)
        ensures
            c.available_vars@ == Map::<Seq<char>, StateVar>::empty(),
            c.available_functions@ == Map::<Seq<char>, FunctionModel>::empty(),
    {
        Self::new()
    }
}

/// A directed dependency graph for tracking state mutation dependencies.
#[derive(Debug, Clone)]
pub struct DependencyGraph {
    /// For each function, the functions that it calls.
    pub call_graph: OrderedMap<Vec<String>>,
    /// For each state variable, the functions that mutate it.
    pub mutation_sources: OrderedMap<Vec<String>>,
    /// For each function, the state variables that it reads.
    pub read_deps: OrderedMap<Vec<String>>,
}

/// A table of lists with each list as a sequence of texts.
pub open spec fn lists_view(m: Map<Seq<char>, Vec<String>>) -> Map<Seq<char>, Seq<Seq<char>>> {
    Map::new(|k: Seq<char>| m.contains_key(k), |k: Seq<char>| strings_view(m[k]@))
}

/// The table after `item` has been put at the end of the list of `key`.
pub open spec fn appended(
    table: Map<Seq<char>, Seq<Seq<char>>>,
    key: Seq<char>,
    item: Seq<char>,
) -> Map<Seq<char>, Seq<Seq<char>>> {
    table.insert(
        key,
        (if table.contains_key(key) {
            table[key]
        } else {
            Seq::empty()
        }).push(item),
    )
}

/// Whether `a` calls `b`.
pub open spec fn calls(graph: Map<Seq<char>, Seq<Seq<char>>>, a: Seq<char>, b: Seq<char>) -> bool {
    graph.contains_key(a) && graph[a].contains(b)
}

/// Whether each function of `path` calls the next.
pub open spec fn is_call_chain(graph: Map<Seq<char>, Seq<Seq<char>>>, path: Seq<Seq<char>>) -> bool {
    forall|i: int| 0 <= i < path.len() - 1 ==> calls(graph, #[trigger] path[i], path[i + 1])
}

/// Whether `path` is a chain of calls that leads from `a` to `b`.
pub open spec fn leads(
    graph: Map<Seq<char>, Seq<Seq<char>>>,
    path: Seq<Seq<char>>,
    a: Seq<char>,
    b: Seq<char>,
) -> bool {
    &&& path.len() > 0
    &&& path[0] == a
    &&& path.last() == b
    &&& is_call_chain(graph, path)
}

/// Whether a chain of calls, possibly empty, leads from `a` to `b`.
pub open spec fn reaches(graph: Map<Seq<char>, Seq<Seq<char>>>, a: Seq<char>, b: Seq<char>) -> bool {
    exists|path: Seq<Seq<char>>| leads(graph, path, a, b)
}

/// What `a` reaches, it reaches the callees of.
pub proof fn lemma_reaches_callee(
    graph: Map<Seq<char>, Seq<Seq<char>>>,
    a: Seq<char>,
    m: Seq<char>,
    b: Seq<char>,
)
    requires
        reaches(graph, a, m),
        calls(graph, m, b),
    ensures
        reaches(graph, a, b),
{
    let path = choose|path: Seq<Seq<char>>| leads(graph, path, a, m);
    let longer = path.push(b);
    assert forall|i: int| 0 <= i < longer.len() - 1 implies calls(
        graph,
        #[trigger] longer[i],
        longer[i + 1],
    ) by {
        if i < path.len() - 1 {
            assert(longer[i] == path[i]);
            assert(longer[i + 1] == path[i + 1]);
        }
    }
    assert(leads(graph, longer, a, b));
}

/// Every function reaches itself.
pub proof fn lemma_reaches_itself(graph: Map<Seq<char>, Seq<Seq<char>>>, a: Seq<char>)
    ensures
        reaches(graph, a, a),
{
    assert(leads(graph, seq![a], a, a));
}

/// Among the first `n` state variables, in order, those that `function`
/// is a source of.
pub open spec fn mutated_by(
    function: Seq<char>,
    vars: Seq<Seq<char>>,
    sources: Seq<Vec<String>>,
    n: nat,
) -> Seq<Seq<char>>
    decreases n,
{
    if n == 0 || n > vars.len() || n > sources.len() {
        Seq::<Seq<char>>::empty()
    } else if strings_view(sources[n - 1]@).contains(function) {
        mutated_by(function, vars, sources, (n - 1) as nat).push(vars[n - 1])
    } else {
        mutated_by(function, vars, sources, (n - 1) as nat)
    }
}

/// For the first `n` functions, one after another, the state variables
/// that each is a source of.
pub open spec fn mutated_by_all(
    functions: Seq<Seq<char>>,
    vars: Seq<Seq<char>>,
    sources: Seq<Vec<String>>,
    n: nat,
) -> Seq<Seq<char>>
    decreases n,
{
    if n == 0 || n > functions.len() {
        Seq::<Seq<char>>::empty()
    } else {
        mutated_by_all(functions, vars, sources, (n - 1) as nat) + mutated_by(
            functions[n - 1],
            vars,
            sources,
            vars.len(),
        )
    }
}

/// The calls that are still to be followed: those of the functions,
/// among the first `n` callers, that have not been visited.
spec fn pending(callers: Seq<Seq<char>>, callees: Seq<Vec<String>>, visited: Set<Seq<char>>, n: nat) -> nat
    decreases n,
{
    if n == 0 || n > callers.len() || n > callees.len() {
        0
    } else if visited.contains(callers[n - 1]) {
        pending(callers, callees, visited, (n - 1) as nat)
    } else {
        pending(callers, callees, visited, (n - 1) as nat) + callees[n - 1]@.len()
    }
}

/// Visiting a function takes its calls out of those still to be
/// followed.
proof fn lemma_pending_visit(
    callers: Seq<Seq<char>>,
    callees: Seq<Vec<String>>,
    visited: Set<Seq<char>>,
    c: Seq<char>,
    n: nat,
)
    requires
        strictly_sorted(callers),
        callers.len() == callees.len(),
        n <= callers.len(),
        !visited.contains(c),
    ensures
        pending(callers, callees, visited.insert(c), n) + (if exists|i: int|
            0 <= i < n && callers[i] == c {
            callees[choose|i: int| 0 <= i < n && callers[i] == c]@.len()
        } else {
            0
        }) == pending(callers, callees, visited, n),
    decreases n,
{
    if n > 0 {
        lemma_pending_visit(callers, callees, visited, c, (n - 1) as nat);
        crate::ordmap::lemma_sorted_distinct(callers);
        if callers[n - 1] == c {
            assert(!(exists|i: int| 0 <= i < n - 1 && callers[i] == c));
            let w = choose|i: int| 0 <= i < n && callers[i] == c;
            assert(w == n - 1);
        } else if exists|i: int| 0 <= i < n - 1 && callers[i] == c {
            let w1 = choose|i: int| 0 <= i < n - 1 && callers[i] == c;
            let w = choose|i: int| 0 <= i < n && callers[i] == c;
            assert(w == w1);
        } else {
            assert(!(exists|i: int| 0 <= i < n && callers[i] == c));
        }
    }
}

/// A set that holds `a` and, with each function, the functions that it
/// calls, holds everything that `a` reaches.
proof fn lemma_closed_holds_reached(
    graph: Map<Seq<char>, Seq<Seq<char>>>,
    set: Set<Seq<char>>,
    path: Seq<Seq<char>>,
    a: Seq<char>,
    b: Seq<char>,
)
    requires
        set.contains(a),
        forall|v: Seq<char>, w: Seq<char>| set.contains(v) && calls(graph, v, w) ==> set.contains(w),
        leads(graph, path, a, b),
    ensures
        set.contains(b),
    decreases path.len(),
{
    if path.len() > 1 {
        let shorter = path.drop_last();
        let m = shorter.last();
        assert forall|i: int| 0 <= i < shorter.len() - 1 implies calls(
            graph,
            #[trigger] shorter[i],
            shorter[i + 1],
        ) by {
            assert(shorter[i] == path[i]);
            assert(shorter[i + 1] == path[i + 1]);
        }
        assert(shorter[0] == path[0]);
        lemma_closed_holds_reached(graph, set, shorter, a, m);
        assert(m == path[path.len() - 2]);
        assert(calls(graph, path[path.len() - 2], path[path.len() - 2 + 1]));
    }
}

impl DependencyGraph {
    /// Who calls whom.
    pub open spec fn call_edges(self) -> Map<Seq<char>, Seq<Seq<char>>> {
        lists_view(self.call_graph@)
    }

    /// Create a new empty dependency graph.
    pub fn new() -> (g: Self)
        ensures
            g.call_graph@ == Map::<Seq<char>, Vec<String>>::empty(),
            g.mutation_sources@ == Map::<Seq<char>, Vec<String>>::empty(),
            g.read_deps@ == Map::<Seq<char>, Vec<String>>::empty(),
    {
        DependencyGraph {
            call_graph: OrderedMap::new(),
            mutation_sources: OrderedMap::new(),
            read_deps: OrderedMap::new(),
        }
    }

    /// Add a call relationship: caller → callee.
    pub fn add_call(&mut self, caller: String, callee: String)
        ensures
            lists_view(final(self).call_graph@) == appended(
                lists_view(old(self).call_graph@),
                caller@,
                callee@,
            ),
            final(self).mutation_sources == old(self).mutation_sources,
            final(self).read_deps == old(self).read_deps,
    {
        append_to(&mut self.call_graph, caller, callee);
    }

    /// Add a mutation: function mutates state_var.
    pub fn add_mutation(&mut self, state_var: String, function: String)
        ensures
            lists_view(final(self).mutation_sources@) == appended(
                lists_view(old(self).mutation_sources@),
                state_var@,
                function@,
            ),
            final(self).call_graph == old(self).call_graph,
            final(self).read_deps == old(self).read_deps,
    {
        append_to(&mut self.mutation_sources, state_var, function);
    }

    /// Add a read dependency.
    pub fn add_read(&mut self, function: String, state_var: String)
        ensures
            lists_view(final(self).read_deps@) == appended(
                lists_view(old(self).read_deps@),
                function@,
                state_var@,
            ),
            final(self).call_graph == old(self).call_graph,
            final(self).mutation_sources == old(self).mutation_sources,
    {
        append_to(&mut self.read_deps, function, state_var);
    }

    /// The functions that `func` reaches through calls, itself among
    /// them, in increasing order.
    pub fn reachable_from(&self, func: &str) -> (visited: OrderedSet)
        ensures
            forall|f: Seq<char>| visited@.contains(f) <==> reaches(self.call_edges(), func@, f),
    {
        let ghost graph = self.call_edges();
        let ghost callers = self.call_graph.keys();
        let ghost callees = self.call_graph.values();
        let known = self.call_graph.len();
        let mut visited = OrderedSet::new();
        let mut queue: Vec<String> = Vec::new();
        queue.push(String::from_str(func));
        proof {
            lemma_reaches_itself(graph, func@);
            assert(strings_view(queue@)[0] == func@);
        }
        while queue.len() > 0
            invariant
                graph == self.call_edges(),
                callers == self.call_graph.keys(),
                callees == self.call_graph.values(),
                strictly_sorted(callers),
                callers.len() == callees.len(),
                forall|i: int|
                    0 <= i < callers.len() ==> self.call_graph@.contains_key(#[trigger] callers[i])
                        && self.call_graph@[callers[i]] == callees[i],
                self.call_graph@.dom() == callers.to_set(),
                forall|v: Seq<char>| visited@.contains(v) ==> reaches(graph, func@, v),
                forall|i: int|
                    0 <= i < queue.len() ==> reaches(graph, func@, #[trigger] strings_view(queue@)[i]),
                visited@.contains(func@) || strings_view(queue@).contains(func@),
                forall|v: Seq<char>, w: Seq<char>|
                    visited@.contains(v) && calls(graph, v, w) ==> visited@.contains(w)
                        || strings_view(queue@).contains(w),
            decreases pending(callers, callees, visited@, callers.len()) + queue.len(),
        {
            let ghost old_queue = strings_view(queue@);
            let ghost old_visited = visited@;
            let current = queue.pop().unwrap();
            proof {
                assert(old_queue[queue.len() as int] == current@);
                assert(strings_view(queue@) =~= old_queue.drop_last());
                assert forall|w: Seq<char>| old_queue.contains(w) implies w == current@
                    || strings_view(queue@).contains(w) by {
                    let k = old_queue.index_of(w);
                    if k < queue.len() {
                        assert(strings_view(queue@)[k] == w);
                    }
                }
            }
            let ghost left = pending(callers, callees, old_visited, callers.len());
            let fresh = visited.insert(current.clone());
            if !fresh {
                proof {
                    assert(visited@ =~= old_visited);
                }
            }
            if fresh {
                proof {
                    lemma_pending_visit(callers, callees, old_visited, current@, callers.len());
                }
                match self.call_graph.get(current.as_str()) {
                    Some(list) => {
                        proof {
                            assert(callers.to_set().contains(current@));
                            assert(callers.contains(current@));
                            let w = choose|i: int| 0 <= i < callers.len() && callers[i] == current@;
                            assert(callees[w] == *list);
                            assert(pending(callers, callees, visited@, callers.len()) + list@.len()
                                == left);
                        }
                        let ghost queue_before = strings_view(queue@);
                        let mut j: usize = 0;
                        while j < list.len()
                            invariant
                                j <= list.len(),
                                graph == self.call_edges(),
                                self.call_graph@.contains_key(current@),
                                self.call_graph@[current@] == *list,
                                reaches(graph, func@, current@),
                                queue.len() == queue_before.len() + j,
                                forall|i: int|
                                    0 <= i < queue_before.len() ==> strings_view(queue@)[i]
                                        == queue_before[i],
                                forall|i: int|
                                    0 <= i < j ==> strings_view(queue@)[queue_before.len() + i]
                                        == list@[i]@,
                                forall|i: int|
                                    0 <= i < queue.len() ==> reaches(
                                        graph,
                                        func@,
                                        #[trigger] strings_view(queue@)[i],
                                    ),
                            decreases list.len() - j,
                        {
                            let callee = list[j].clone();
                            proof {
                                assert(strings_view(list@)[j as int] == callee@);
                                assert(calls(graph, current@, callee@));
                                lemma_reaches_callee(graph, func@, current@, callee@);
                                assert(strings_view(queue@.push(callee)) =~= strings_view(
                                    queue@,
                                ).push(callee@));
                            }
                            queue.push(callee);
                            j += 1;
                        }
                        proof {
                            assert forall|v: Seq<char>, w: Seq<char>|
                                visited@.contains(v) && calls(graph, v, w) implies visited@.contains(
                                w,
                            ) || strings_view(queue@).contains(w) by {
                                if v == current@ {
                                    let k = strings_view(list@).index_of(w);
                                    assert(strings_view(queue@)[queue_before.len() + k] == w);
                                } else {
                                    if !old_visited.contains(w) && w != current@ {
                                        assert(old_queue.contains(w));
                                        let k = queue_before.index_of(w);
                                        assert(strings_view(queue@)[k] == w);
                                    }
                                }
                            }
                            if !visited@.contains(func@) {
                                let k = queue_before.index_of(func@);
                                assert(strings_view(queue@)[k] == func@);
                            }
                        }
                    },
                    None => {
                        proof {
                            assert(!callers.to_set().contains(current@));
                            assert forall|i: int| 0 <= i < callers.len() implies callers[i]
                                != current@ by {
                                assert(callers.contains(callers[i]));
                            }
                            assert(pending(callers, callees, visited@, callers.len()) == left);
                        }
                    },
                }
            }
        }
        proof {
            assert(!strings_view(queue@).contains(func@));
            assert forall|f: Seq<char>| reaches(graph, func@, f) implies visited@.contains(f) by {
                let path = choose|path: Seq<Seq<char>>| leads(graph, path, func@, f);
                assert forall|v: Seq<char>, w: Seq<char>|
                    visited@.contains(v) && calls(graph, v, w) implies visited@.contains(w) by {
                    assert(!strings_view(queue@).contains(w));
                }
                lemma_closed_holds_reached(graph, visited@, path, func@, f);
            }
        }
        visited
    }

    /// Get all transitive mutations caused by a function: for each
    /// function that it reaches through calls, itself among them and in
    /// increasing order, the state variables that the function is a
    /// source of, in the order of their names.
    pub fn transitive_mutations(&self, func: &str) -> (mutations: Vec<String>)
        ensures
            exists|functions: Seq<Seq<char>>|
                {
                    &&& strictly_sorted(functions)
                    &&& forall|f: Seq<char>|
                        functions.contains(f) <==> reaches(self.call_edges(), func@, f)
                    &&& strings_view(mutations@) == #[trigger] mutated_by_all(
                        functions,
                        self.mutation_sources.keys(),
                        self.mutation_sources.values(),
                        functions.len(),
                    )
                },
    {
        let visited = self.reachable_from(func);
        let count = visited.len();
        let vars = self.mutation_sources.len();
        let ghost functions = visited.members();
        let ghost names = self.mutation_sources.keys();
        let ghost sources = self.mutation_sources.values();
        let mut mutations: Vec<String> = Vec::new();
        let mut i: usize = 0;
        proof {
            assert(strings_view(mutations@) =~= mutated_by_all(functions, names, sources, 0));
        }
        while i < count
            invariant
                i <= count,
                count == functions.len(),
                functions == visited.members(),
                vars == names.len(),
                names == self.mutation_sources.keys(),
                sources == self.mutation_sources.values(),
                names.len() == sources.len(),
                strings_view(mutations@) == mutated_by_all(functions, names, sources, i as nat),
            decreases count - i,
        {
            let function = visited.member_at(i);
            let ghost before = strings_view(mutations@);
            let mut k: usize = 0;
            proof {
                assert(before + mutated_by(function@, names, sources, 0) =~= before);
            }
            while k < vars
                invariant
                    k <= vars,
                    vars == names.len(),
                    names == self.mutation_sources.keys(),
                    sources == self.mutation_sources.values(),
                    names.len() == sources.len(),
                    strings_view(mutations@) == before + mutated_by(
                        function@,
                        names,
                        sources,
                        k as nat,
                    ),
                decreases vars - k,
            {
                let list = self.mutation_sources.value_at(k);
                if list_contains(list, function.as_str()) {
                    let name = self.mutation_sources.key_at(k).clone();
                    proof {
                        let prev = mutated_by(function@, names, sources, k as nat);
                        assert(strings_view(mutations@.push(name)) =~= strings_view(
                            mutations@,
                        ).push(name@));
                        assert((before + prev).push(name@) =~= before + prev.push(name@));
                    }
                    mutations.push(name);
                }
                k += 1;
            }
            i += 1;
        }
        proof {
            assert forall|f: Seq<char>| functions.contains(f) <==> reaches(
                self.call_edges(),
                func@,
                f,
            ) by {
                assert(functions.contains(f) <==> visited@.contains(f));
            }
        }
        mutations
    }
}

impl Default for DependencyGraph {
    fn default() -> (g: Self)
        ensures
            g.call_graph@ == Map::<Seq<char>, Vec<String>>::empty(),
            g.mutation_sources@ == Map::<Seq<char>, Vec<String>>::empty(),
            g.read_deps@ == Map::<Seq<char>, Vec<String>>::empty(),
    {
        Self::new()
    }
}

/// Puts `item` at the end of the list of `key`, which is made if it is
/// not there.
fn append_to(table: &mut OrderedMap<Vec<String>>, key: String, item: String)
    ensures
        lists_view(final(table)@) == appended(lists_view(old(table)@), key@, item@),
{
    let ghost before = table@;
    let mut list = match table.remove(key.as_str()) {
        Some(l) => l,
        None => Vec::new(),
    };
    let ghost old_list = strings_view(list@);
    list.push(item);
    table.insert(key, list);
    proof {
        assert(strings_view(list@) =~= old_list.push(item@));
        if !before.contains_key(key@) {
            assert(old_list =~= Seq::<Seq<char>>::empty());
        }
        assert(lists_view(table@) =~= appended(lists_view(before), key@, item@));
    }
}

} // verus!
