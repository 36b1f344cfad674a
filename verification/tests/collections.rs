use invar::ast::{AnalysisContext, DependencyGraph, ExpressionContext};
use invar::error::InvarError;
use invar::library::{InvariantEntry, InvariantLibrary, LibraryLoader};
use invar::model::{Expression, FunctionModel, Invariant, ProgramModel, StateVar};
use invar::ordmap::{OrderedMap, OrderedSet};
use invar::report::Report;
use invar::simulator::SimulationEngine;

#[test]
fn an_ordered_map_is_walked_in_the_order_of_its_keys() {
    let mut m: OrderedMap<u32> = OrderedMap::new();
    assert!(m.is_empty());
    for (k, v) in [("pear", 1), ("apple", 2), ("Zebra", 3), ("é", 4), ("apple", 5), ("", 6)] {
        m.insert(k.to_string(), v);
    }
    assert_eq!(m.len(), 5);
    let keys: Vec<&str> = (0..m.len()).map(|i| m.key_at(i).as_str()).collect();
    assert_eq!(keys, vec!["", "Zebra", "apple", "pear", "é"]);
    let values: Vec<u32> = (0..m.len()).map(|i| *m.value_at(i)).collect();
    assert_eq!(values, vec![6, 3, 5, 1, 4]);
    assert_eq!(m.get("apple"), Some(&5));
    assert_eq!(m.get("appl"), None);
    assert!(m.contains_key("é"));
    assert_eq!(m.remove("apple"), Some(5));
    assert_eq!(m.remove("apple"), None);
    assert_eq!(m.len(), 4);
    m.push_last("éé".to_string(), 9);
    assert_eq!(m.key_at(4), "éé");
    let copy = m.clone();
    assert_eq!(copy.len(), 5);
    assert_eq!(copy.get("pear"), Some(&1));
}

#[test]
fn an_ordered_set_holds_each_member_once() {
    let mut s = OrderedSet::new();
    assert!(s.is_empty());
    assert!(s.insert("b".to_string()));
    assert!(s.insert("a".to_string()));
    assert!(!s.insert("b".to_string()));
    assert_eq!(s.len(), 2);
    assert_eq!(s.member_at(0), "a");
    assert_eq!(s.member_at(1), "b");
    assert!(s.contains("a") && !s.contains("c"));
    let copy = s.clone();
    assert_eq!(copy.len(), 2);
    assert!(copy.contains("b"));
}

fn function(name: &str, mutates: &[&str]) -> FunctionModel {
    let mut set = OrderedSet::new();
    for m in mutates {
        set.insert(m.to_string());
    }
    FunctionModel {
        name: name.to_string(),
        parameters: vec![],
        return_type: None,
        mutates: set,
        reads: OrderedSet::new(),
        is_entry_point: false,
        is_pure: false,
    }
}

#[test]
fn a_program_model_keeps_its_tables_by_name() {
    let mut p = ProgramModel::new("Token".to_string(), "evm".to_string(), "t.sol".to_string());
    assert_eq!((p.name.as_str(), p.chain.as_str(), p.source_path.as_str()), ("Token", "evm", "t.sol"));
    assert!(p.state_vars.is_empty() && p.functions.is_empty() && p.mutation_graph.is_empty());
    for (name, ty) in [("supply", "u64"), ("balance", "u128"), ("supply", "i64")] {
        p.add_state_var(StateVar {
            name: name.to_string(),
            declared_type: ty.to_string(),
            is_mutable: true,
            visibility: None,
        });
    }
    assert_eq!(p.state_vars.len(), 2);
    assert_eq!(p.state_vars.key_at(0), "balance");
    assert_eq!(p.state_vars.get("supply").unwrap().declared_type, "i64");
    p.add_function(function("mint", &["supply", "balance"]));
    p.add_function(function("burn", &["supply"]));
    assert_eq!(p.functions.len(), 2);
    assert_eq!(p.functions.key_at(0), "burn");
    let mutated = p.mutation_graph.get("mint").unwrap();
    assert_eq!(mutated.len(), 2);
    assert_eq!(mutated.member_at(0), "balance");
    assert_eq!(p.mutation_graph.get("burn").unwrap().len(), 1);
    let copy = p.clone();
    assert_eq!(copy.functions.len(), 2);
}

#[test]
fn transitive_mutations_follow_calls() {
    let mut g = DependencyGraph::new();
    g.add_call("a".to_string(), "c".to_string());
    g.add_call("a".to_string(), "b".to_string());
    g.add_call("b".to_string(), "a".to_string());
    g.add_call("c".to_string(), "d".to_string());
    g.add_call("x".to_string(), "a".to_string());
    g.add_mutation("total".to_string(), "d".to_string());
    g.add_mutation("total".to_string(), "a".to_string());
    g.add_mutation("balance".to_string(), "b".to_string());
    g.add_mutation("owner".to_string(), "x".to_string());
    g.add_read("a".to_string(), "owner".to_string());
    assert_eq!(g.read_deps.get("a").unwrap(), &vec!["owner".to_string()]);
    assert_eq!(g.call_graph.get("a").unwrap(), &vec!["c".to_string(), "b".to_string()]);

    // a reaches a, b, c, d; in that order: a -> total, b -> balance, d -> total.
    assert_eq!(g.transitive_mutations("a"), vec!["total", "balance", "total"]);
    assert_eq!(g.transitive_mutations("c"), vec!["total"]);
    assert_eq!(g.transitive_mutations("x"), vec!["total", "balance", "total", "owner"]);
    assert!(g.transitive_mutations("unknown").is_empty());
    let reached = g.reachable_from("b");
    let names: Vec<&str> = (0..reached.len()).map(|i| reached.member_at(i).as_str()).collect();
    assert_eq!(names, vec!["a", "b", "c", "d"]);
    assert!(DependencyGraph::default().transitive_mutations("a").is_empty());
}

#[test]
fn an_expression_may_name_only_what_is_available() {
    let mut ctx = ExpressionContext::new();
    ctx.available_vars.insert(
        "balance".to_string(),
        StateVar {
            name: "balance".to_string(),
            declared_type: "u64".to_string(),
            is_mutable: true,
            visibility: None,
        },
    );
    ctx.available_functions.insert("sum".to_string(), function("sum", &[]));
    let var = |n: &str| Expression::Var(n.to_string());
    let call = |n: &str, args| Expression::FunctionCall { name: n.to_string(), args };
    assert_eq!(ctx.validate_expression(&call("sum", vec![var("balance")])), Ok(()));
    assert_eq!(
        ctx.validate_expression(&call("sum", vec![var("balance"), var("x"), var("y")])),
        Err("Undefined variable: x".to_string())
    );
    assert_eq!(
        ctx.validate_expression(&call("max", vec![var("x")])),
        Err("Undefined function: max".to_string())
    );
    assert_eq!(
        ctx.validate_expression(&Expression::LayerVar {
            layer: "account".to_string(),
            var: "nonce".to_string()
        }),
        Err("Undefined layer variable: nonce".to_string())
    );
    assert_eq!(
        ctx.validate_expression(&Expression::PhaseQualifiedVar {
            phase: "validation".to_string(),
            layer: "account".to_string(),
            var: "nonce".to_string()
        }),
        Err("Undefined phase-qualified variable: nonce".to_string())
    );
    assert_eq!(
        ctx.validate_expression(&Expression::LayerVar {
            layer: "anything".to_string(),
            var: "balance".to_string()
        }),
        Ok(())
    );
    assert_eq!(
        ExpressionContext::default().validate_expression(&Expression::Tuple(vec![
            Expression::Int(1),
            var("z")
        ])),
        Err("Undefined variable: z".to_string())
    );
}

#[test]
fn an_analysis_context_collects_warnings() {
    let p = ProgramModel::new("P".to_string(), "move".to_string(), "p.move".to_string());
    let mut ctx = AnalysisContext::new(p);
    assert!(ctx.is_valid && ctx.warnings.is_empty());
    ctx.add_warning("first".to_string());
    ctx.add_warning("second".to_string());
    ctx.mark_invalid();
    assert!(!ctx.is_valid);
    assert_eq!(ctx.warnings, vec!["first", "second"]);
    assert_eq!(ctx.program.name, "P");
}

fn named(name: &str) -> Invariant {
    Invariant {
        name: name.to_string(),
        description: None,
        expression: Expression::Boolean(true),
        severity: "low".to_string(),
        category: "x".to_string(),
        is_always_true: true,
        layers: vec![],
        phases: vec![],
    }
}

#[test]
fn a_library_keeps_invariants_by_category() {
    let mut lib = InvariantLibrary::new();
    assert_eq!(lib.count(), 0);
    lib.add("defi".to_string(), named("one"));
    lib.add("core".to_string(), named("two"));
    lib.add("defi".to_string(), named("three"));
    assert_eq!(lib.count(), 3);
    let names: Vec<&str> = lib.all().iter().map(|i| i.name.as_str()).collect();
    assert_eq!(names, vec!["two", "one", "three"]);
    let defi: Vec<&str> =
        lib.get_category("defi").unwrap().iter().map(|i| i.name.as_str()).collect();
    assert_eq!(defi, vec!["one", "three"]);
    assert!(lib.get_category("bridge").is_none());
    assert_eq!(InvariantLibrary::default().all().len(), 0);
}

fn entry(name: Option<&str>, expression: Option<&str>) -> InvariantEntry {
    InvariantEntry {
        is_table: true,
        name: name.map(str::to_string),
        expression: expression.map(str::to_string),
        severity: None,
        category: None,
        description: None,
    }
}

#[test]
fn a_library_entry_needs_a_name_and_an_expression() {
    let config = |m: &str| Err(InvarError::ConfigError(m.to_string()));
    let name_of = |e: &InvariantEntry| LibraryLoader::parse_invariant_table(e).map(|i| i.name);
    assert_eq!(
        name_of(&InvariantEntry { is_table: false, ..entry(Some("n"), Some("e")) }),
        config("Invariant must be a table")
    );
    assert_eq!(name_of(&entry(None, None)), config("Invariant must have a 'name' field"));
    assert_eq!(
        name_of(&entry(Some("n"), None)),
        config("Invariant must have an 'expression' field")
    );
    let inv = LibraryLoader::parse_invariant_table(&entry(Some("n"), Some("a >= b"))).unwrap();
    assert_eq!(inv.name, "n");
    assert_eq!(inv.severity, "medium");
    assert_eq!(inv.category, "general");
    assert_eq!(inv.description, None);
    assert_eq!(inv.expression, Expression::Boolean(true));
    assert!(inv.is_always_true && inv.layers.is_empty() && inv.phases.is_empty());
    let full = InvariantEntry {
        severity: Some("critical".to_string()),
        category: Some("defi".to_string()),
        description: Some("why".to_string()),
        ..entry(Some("m"), Some("x"))
    };
    let inv = LibraryLoader::parse_invariant_table(&full).unwrap();
    assert_eq!(
        (inv.severity.as_str(), inv.category.as_str(), inv.description.as_deref()),
        ("critical", "defi", Some("why"))
    );
}

#[test]
fn entries_are_loaded_in_file_order_and_bad_ones_passed_over() {
    let entries = vec![
        entry(Some("first"), Some("x")),
        entry(None, Some("x")),
        entry(Some("second"), Some("y")),
        entry(Some("third"), None),
    ];
    let names: Vec<String> =
        LibraryLoader::load_entries(&entries).into_iter().map(|i| i.name).collect();
    assert_eq!(names, vec!["first", "second"]);
}

#[test]
fn a_report_starts_blank_and_stamped() {
    let r = Report::stamped("Audit".to_string(), "Vault".to_string(), "now".to_string());
    assert_eq!((r.title.as_str(), r.program.as_str()), ("Audit", "Vault"));
    assert_eq!((r.invariants_checked, r.violations_found, r.coverage_percent), (0, 0, 0));
    assert!(r.protected_functions.is_empty() && r.unprotected_functions.is_empty());
    assert_eq!(r.severity_breakdown.critical + r.severity_breakdown.high, 0);
    assert_eq!(r.severity_breakdown.medium + r.severity_breakdown.low, 0);
    assert_eq!(r.generated_at, "now");
    let s = Report::stamped("A".to_string(), "B".to_string(), "2024-01-01T00:00:00Z".to_string());
    assert_eq!(s.generated_at, "2024-01-01T00:00:00Z");
}

#[test]
fn the_simulation_engine_keeps_its_seed() {
    assert_eq!(SimulationEngine::new(7).seed, 7);
    assert_eq!(SimulationEngine::default().seed, 42);
}

#[test]
fn errors_read_as_sentences() {
    assert_eq!(InvarError::custom("plain").to_string(), "plain");
    assert_eq!(InvarError::custom(String::from("owned")), InvarError::Custom("owned".to_string()));
    assert_eq!(InvarError::invalid_invariant("x").to_string(), "Invalid invariant: x");
    assert_eq!(InvarError::undefined_identifier("x").to_string(), "Undefined identifier: x");
    assert_eq!(InvarError::type_mismatch("x").to_string(), "Type mismatch: x");
    assert_eq!(InvarError::unsupported("x").to_string(), "Unsupported: x");
    assert_eq!(InvarError::IoError("x".to_string()).to_string(), "IO error: x");
    assert_eq!(InvarError::AnalysisFailed("x".to_string()).to_string(), "Analysis failed: x");
    assert_eq!(InvarError::GenerationFailed("x".to_string()).to_string(), "Generation failed: x");
    assert_eq!(InvarError::SimulationFailed("x".to_string()).to_string(), "Simulation failed: x");
    assert_eq!(InvarError::ConfigError("x".to_string()).to_string(), "Configuration error: x");
}
