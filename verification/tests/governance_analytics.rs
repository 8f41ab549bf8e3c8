//! Arithmetic of the governance analytics dashboard.
#[test]
fn test_participation_rate_calculation() {
    let total_voters = 1000;
    let votes_cast = 600;
    let expected_participation = 60;

    let actual_participation = (votes_cast * 100) / total_voters;
    assert_eq!(actual_participation, expected_participation);
}

#[test]
fn test_voting_power_distribution() {
    let voters = vec![
        ("voter_a", 100),
        ("voter_b", 50),
        ("voter_c", 30),
        ("voter_d", 20),
    ];
    let total_power: u64 = voters.iter().map(|(_, power)| power).sum();

    assert_eq!(total_power, 200);

    let voter_a_share = (100 * 100) / total_power;
    assert_eq!(voter_a_share, 50);

    let voter_b_share = (50 * 100) / total_power;
    assert_eq!(voter_b_share, 25);
}

#[test]
fn test_top_holder_power_share() {
    let holdings = vec![1000, 500, 300, 150, 50];
    let total: u64 = holdings.iter().sum();
    let top_holder = *holdings.iter().max().unwrap();

    let top_holder_share = (top_holder * 100) / total;
    assert_eq!(top_holder_share, 50);
}

#[test]
fn test_quorum_threshold() {
    let total_eligible_voters = 1000;
    let quorum_percentage = 50;
    let required_votes = (total_eligible_voters * quorum_percentage) / 100;

    assert_eq!(required_votes, 500);

    let votes_received = 450;
    assert!(votes_received < required_votes);

    let votes_received = 500;
    assert!(votes_received >= required_votes);
}

#[test]
fn test_approval_trend_tracking() {
    let proposals = vec![
        ("prop_1", 60, true),
        ("prop_2", 55, true),
        ("prop_3", 45, false),
        ("prop_4", 70, true),
    ];

    let approved = proposals.iter().filter(|(_, _, status)| *status).count();
    assert_eq!(approved, 3);

    let approval_rate = (approved * 100) / proposals.len();
    assert_eq!(approval_rate, 75);
}

#[test]
fn test_historical_participation_trend() {
    let historical_participation = vec![30, 35, 40, 45, 50, 55, 60];
    let average_participation = historical_participation.iter().sum::<i32>() / historical_participation.len() as i32;

    assert_eq!(average_participation, 45);
    assert!(historical_participation[6] > historical_participation[0]);
}

#[test]
fn test_centralization_detection() {
    let power_distribution = vec![60, 20, 10, 5, 5];
    let largest_holder = power_distribution[0];
    let total_power: i32 = power_distribution.iter().sum();

    let centralization_ratio = (largest_holder * 100) / total_power;
    assert_eq!(centralization_ratio, 60);

    assert!(centralization_ratio > 50);
}

#[test]
fn test_voter_turnout_metrics() {
    let registered_voters = 5000;
    let voting_participants = 3000;

    let turnout_percentage = (voting_participants * 100) / registered_voters;
    assert_eq!(turnout_percentage, 60);
}

#[test]
fn test_proposal_outcome_summary() {
    let proposals_passed = 15;
    let proposals_failed = 5;
    let proposals_pending = 2;

    let total_proposals = proposals_passed + proposals_failed + proposals_pending;
    assert_eq!(total_proposals, 22);

    let success_rate = (proposals_passed * 100) / (proposals_passed + proposals_failed);
    assert_eq!(success_rate, 75);
}

#[test]
fn test_dashboard_data_aggregation() {
    let participation_rate = 60;
    let centralization_score = 45;
    let avg_quorum_met = 85;
    let approval_rate = 75;

    let dashboard_health = (participation_rate + avg_quorum_met + approval_rate) / 3;
    assert_eq!(dashboard_health, 73);

    assert!(centralization_score < 50);
}
