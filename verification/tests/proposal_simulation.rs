//! Simulated governance proposals and their recorded effects.

#[allow(dead_code)]
#[derive(Clone, Debug, PartialEq)]
enum GovernanceOperationType {
    ParameterChange,
    SourceAdd,
    SourceRemove,
    ContractUpgrade,
}

#[allow(dead_code)]
#[derive(Clone, Debug)]
struct SimulationResult {
    op_type: GovernanceOperationType,
    pre_state: String,
    post_state: String,
    events_emitted: Vec<String>,
    estimated_gas: u64,
    side_effects_count: u32,
}

#[test]
fn test_parameter_change_simulation() {
    let old_fee = 100;
    let new_fee = 150;

    let result = SimulationResult {
        op_type: GovernanceOperationType::ParameterChange,
        pre_state: format!("fee: {}", old_fee),
        post_state: format!("fee: {}", new_fee),
        events_emitted: vec!["ParameterChanged".to_string()],
        estimated_gas: 45000,
        side_effects_count: 0,
    };

    assert_eq!(result.op_type, GovernanceOperationType::ParameterChange);
    assert_eq!(result.side_effects_count, 0);
    assert_eq!(result.estimated_gas, 45000);
}

#[test]
fn test_source_add_simulation() {
    let result = SimulationResult {
        op_type: GovernanceOperationType::SourceAdd,
        pre_state: "sources: [source1, source2]".to_string(),
        post_state: "sources: [source1, source2, source3]".to_string(),
        events_emitted: vec!["SourceAdded".to_string()],
        estimated_gas: 55000,
        side_effects_count: 0,
    };

    assert_eq!(result.op_type, GovernanceOperationType::SourceAdd);
    assert!(!result.events_emitted.is_empty());
    assert_eq!(result.events_emitted[0], "SourceAdded");
}

#[test]
fn test_source_remove_simulation() {
    let result = SimulationResult {
        op_type: GovernanceOperationType::SourceRemove,
        pre_state: "sources: [source1, source2, source3]".to_string(),
        post_state: "sources: [source1, source3]".to_string(),
        events_emitted: vec!["SourceRemoved".to_string()],
        estimated_gas: 50000,
        side_effects_count: 0,
    };

    assert_eq!(result.op_type, GovernanceOperationType::SourceRemove);
    assert!(result.post_state.contains("source1"));
    assert!(!result.post_state.contains("source2"));
}

#[test]
fn test_contract_upgrade_simulation() {
    let result = SimulationResult {
        op_type: GovernanceOperationType::ContractUpgrade,
        pre_state: "version: 1.0.0".to_string(),
        post_state: "version: 1.1.0".to_string(),
        events_emitted: vec!["ContractUpgraded".to_string(), "MigrationExecuted".to_string()],
        estimated_gas: 200000,
        side_effects_count: 1,
    };

    assert_eq!(result.op_type, GovernanceOperationType::ContractUpgrade);
    assert_eq!(result.events_emitted.len(), 2);
    assert!(result.estimated_gas > 100000);
}

#[test]
fn test_simulation_side_effect_detection() {
    let clean_simulation = SimulationResult {
        op_type: GovernanceOperationType::ParameterChange,
        pre_state: "state".to_string(),
        post_state: "state_changed".to_string(),
        events_emitted: vec![],
        estimated_gas: 50000,
        side_effects_count: 0,
    };

    assert_eq!(clean_simulation.side_effects_count, 0);
    assert!(clean_simulation.events_emitted.is_empty());
}

#[test]
fn test_simulation_gas_estimation() {
    let simulations = vec![
        SimulationResult {
            op_type: GovernanceOperationType::ParameterChange,
            pre_state: "state".to_string(),
            post_state: "state".to_string(),
            events_emitted: vec![],
            estimated_gas: 45000,
            side_effects_count: 0,
        },
        SimulationResult {
            op_type: GovernanceOperationType::SourceAdd,
            pre_state: "state".to_string(),
            post_state: "state".to_string(),
            events_emitted: vec![],
            estimated_gas: 55000,
            side_effects_count: 0,
        },
        SimulationResult {
            op_type: GovernanceOperationType::ContractUpgrade,
            pre_state: "state".to_string(),
            post_state: "state".to_string(),
            events_emitted: vec![],
            estimated_gas: 200000,
            side_effects_count: 0,
        },
    ];

    let average_gas = simulations.iter().map(|s| s.estimated_gas).sum::<u64>() / simulations.len() as u64;
    assert_eq!(average_gas, 100000);

    let max_gas = simulations.iter().map(|s| s.estimated_gas).max().unwrap();
    assert_eq!(max_gas, 200000);
}

#[test]
fn test_simulation_state_transition() {
    let initial_state = "enabled: true, fee: 100";
    let final_state = "enabled: true, fee: 150";

    let changed = initial_state != final_state;
    assert!(changed);
}

#[test]
fn test_multi_parameter_simulation() {
    let changes = vec![("fee", "100", "150"), ("timeout", "3600", "7200"), ("max_sources", "10", "20")];

    let result = SimulationResult {
        op_type: GovernanceOperationType::ParameterChange,
        pre_state: format!(
            "fee: {}, timeout: {}, max_sources: {}",
            changes[0].1, changes[1].1, changes[2].1
        ),
        post_state: format!(
            "fee: {}, timeout: {}, max_sources: {}",
            changes[0].2, changes[1].2, changes[2].2
        ),
        events_emitted: vec!["ParameterChanged".to_string(), "ParameterChanged".to_string(), "ParameterChanged".to_string()],
        estimated_gas: 75000,
        side_effects_count: 0,
    };

    assert_eq!(result.events_emitted.len(), 3);
    assert_eq!(result.estimated_gas, 75000);
}

#[test]
fn test_simulation_read_only_guarantee() {
    let result = SimulationResult {
        op_type: GovernanceOperationType::ParameterChange,
        pre_state: "state_before".to_string(),
        post_state: "state_after".to_string(),
        events_emitted: vec![],
        estimated_gas: 50000,
        side_effects_count: 0,
    };

    assert_eq!(result.side_effects_count, 0);
    assert_eq!(result.pre_state, "state_before");
}

#[test]
fn test_event_emission_verification() {
    let mut result = SimulationResult {
        op_type: GovernanceOperationType::SourceAdd,
        pre_state: "state".to_string(),
        post_state: "state".to_string(),
        events_emitted: vec![],
        estimated_gas: 55000,
        side_effects_count: 0,
    };

    result.events_emitted.push("SourceAdded".to_string());
    assert_eq!(result.events_emitted.len(), 1);
    assert!(result.events_emitted.contains(&"SourceAdded".to_string()));
}

#[test]
fn test_simulation_result_accuracy() {
    let pre_value = 100;
    let post_value = 150;
    let expected_change = 50;

    let actual_change = post_value - pre_value;
    assert_eq!(actual_change, expected_change);

    let result = SimulationResult {
        op_type: GovernanceOperationType::ParameterChange,
        pre_state: pre_value.to_string(),
        post_state: post_value.to_string(),
        events_emitted: vec!["Changed".to_string()],
        estimated_gas: 45000,
        side_effects_count: 0,
    };

    assert_eq!(result.estimated_gas, 45000);
}
