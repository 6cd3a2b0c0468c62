use etdl_compiler::gate_order::topological_sort_gates;
use etdl_compiler::fault_tree::{enumerate_minimal_cut_sets, generate_combinations, minimize_rows, override_key};
use etdl_compiler::model::{
    BasicEvent, BasicEventEntry, FaultTree, Gate, GateEntry, GateType, Measure, TopEvent,
};

fn measure(x: f64) -> Measure {
    Measure {
        text: format!("{}", x),
        finite: x.is_finite(),
        negative: x < 0.0,
        positive: x > 0.0,
        above_one: x > 1.0,
        below_one: x < 1.0,
    }
}

fn basic_event(id: &str, probability: f64) -> BasicEventEntry {
    BasicEventEntry {
        id: id.to_string(),
        event: BasicEvent {
            probability: Some(measure(probability)),
            failure_rate: None,
            mission_time: None,
            is_house: false,
            message: None,
            declares_reliability_source: false,
            reliability_source: None,
            reliability_estimate: None,
        },
    }
}

fn gate(id: &str, gate_type: GateType, inputs: &[&str]) -> GateEntry {
    GateEntry {
        id: id.to_string(),
        gate: Gate {
            gate_type,
            inputs: inputs.iter().map(|s| s.to_string()).collect(),
            k: None,
            has_inhibit_condition: false,
        },
    }
}

fn tree(root: &str, gates: Option<Vec<GateEntry>>, events: &[&str]) -> FaultTree {
    FaultTree {
        top_event: TopEvent { id: "Top".to_string(), message: None, root_cause: root.to_string() },
        gates,
        basic_events: events.iter().map(|e| basic_event(e, 0.01)).collect(),
        transfers: None,
    }
}

fn strings(xs: &[&str]) -> Vec<String> {
    xs.iter().map(|s| s.to_string()).collect()
}

#[test]
fn or_gate_produces_one_cut_set_per_input() {
    let ft = tree("Gate", Some(vec![gate("Gate", GateType::Or, &["A", "B"])]), &["A", "B"]);
    let mut cut_sets = enumerate_minimal_cut_sets(&ft).expect("coherent tree");
    for row in &mut cut_sets {
        row.sort();
    }
    cut_sets.sort();
    assert_eq!(cut_sets, vec![vec!["A".to_string()], vec!["B".to_string()]]);
}

#[test]
fn and_gate_produces_one_cut_set_with_both_inputs() {
    let ft = tree("Gate", Some(vec![gate("Gate", GateType::And, &["A", "B"])]), &["A", "B"]);
    let cut_sets = enumerate_minimal_cut_sets(&ft).expect("coherent tree");
    assert_eq!(cut_sets.len(), 1, "got {cut_sets:?}");
    let mut only = cut_sets[0].clone();
    only.sort();
    assert_eq!(only, vec!["A".to_string(), "B".to_string()]);
}

#[test]
fn tree_without_gates_has_the_root_cause_as_its_only_cut_set() {
    let ft = tree("A", None, &["A"]);
    assert_eq!(enumerate_minimal_cut_sets(&ft).unwrap(), vec![strings(&["A"])]);
}

#[test]
fn absorbed_cut_set_is_dropped() {
    // Top = OR(A, AND(A, B)): {A, B} is implied by {A}.
    let ft = tree(
        "G1",
        Some(vec![gate("G1", GateType::Or, &["A", "G2"]), gate("G2", GateType::And, &["A", "B"])]),
        &["A", "B"],
    );
    assert_eq!(enumerate_minimal_cut_sets(&ft).unwrap(), vec![strings(&["A"])]);
}

#[test]
fn not_gate_makes_cut_set_enumeration_an_error() {
    let ft = tree("G", Some(vec![gate("G", GateType::Not, &["A"])]), &["A"]);
    let e = enumerate_minimal_cut_sets(&ft).unwrap_err();
    assert!(e.contains("non-coherent"), "{e}");
}

#[test]
fn combinations_of_three_taken_two() {
    let rows = generate_combinations(&strings(&["A", "B", "C"]), 2);
    assert_eq!(rows, vec![strings(&["A", "B"]), strings(&["A", "C"]), strings(&["B", "C"])]);
}

#[test]
fn combinations_count_is_binomial() {
    let rows = generate_combinations(&strings(&["A", "B", "C", "D", "E"]), 3);
    assert_eq!(rows.len(), 10);
    assert!(generate_combinations(&strings(&["A"]), 2).is_empty());
    assert_eq!(generate_combinations(&strings(&["A", "B"]), 0), vec![Vec::<String>::new()]);
}

#[test]
fn minimize_rows_sorts_dedups_and_drops_supersets() {
    let rows = vec![strings(&["B", "A", "B"]), strings(&["A", "B", "C"]), strings(&["C"]), strings(&["A", "B"])];
    assert_eq!(minimize_rows(rows), vec![strings(&["A", "B"]), strings(&["C"])]);
}

#[test]
fn override_keys_are_compound() {
    assert_eq!(override_key("FT1", "BE1"), "FT1::BE1");
    assert_ne!(override_key("FT1", "BE1"), override_key("FT2", "BE1"));
}

#[test]
fn gates_are_ordered_after_the_gates_that_feed_them() {
    let gates = vec![gate("G1", GateType::Or, &["A", "G2"]), gate("G2", GateType::And, &["B", "C"])];
    assert_eq!(topological_sort_gates(&gates, "G1").unwrap(), strings(&["G2", "G1"]));
    let chain = vec![
        gate("G1", GateType::Or, &["G3", "G2"]),
        gate("G2", GateType::Or, &["G3", "A"]),
        gate("G3", GateType::And, &["A", "B"]),
    ];
    assert_eq!(topological_sort_gates(&chain, "G1").unwrap(), strings(&["G3", "G2", "G1"]));
}

#[test]
fn a_root_that_is_no_gate_is_appended() {
    assert_eq!(topological_sort_gates(&vec![], "A").unwrap(), strings(&["A"]));
    let gates = vec![gate("G", GateType::Or, &["A", "B"])];
    assert_eq!(topological_sort_gates(&gates, "X").unwrap(), strings(&["G", "X"]));
}

#[test]
fn gates_feeding_each_other_are_a_cycle() {
    let gates = vec![gate("G1", GateType::Or, &["A", "G2"]), gate("G2", GateType::Or, &["G1", "B"])];
    assert_eq!(
        topological_sort_gates(&gates, "G1").unwrap_err(),
        "cycle detected in fault tree gates (V-403)"
    );
    let self_loop = vec![gate("G", GateType::And, &["G", "A"])];
    assert!(topological_sort_gates(&self_loop, "G").is_err());
}
