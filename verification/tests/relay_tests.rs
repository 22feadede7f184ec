use realtime_results_scraper::relay_handler::{is_relay_team_line, parse_relay_team_section};

#[test]
fn test_parse_dq_relay_team() {
    let lines = vec![
        "-- Missouri                           3:06.12         DQ",
        "      Early take-off swimmer #4",
        "    1) Bochenski, Grant SR           2) r:-0.01 Ottke, Logan SO",
        "    3) r:0.00 Zubik, Jan JR          4) r:-0.04 Nebrich, Lucas FR",
        "    r:+0.71  21.81        45.58 (45.58)",
    ];

    let team = parse_relay_team_section(&lines).expect("Should parse DQ team");

    assert_eq!(team.place, None);
    assert_eq!(team.team_name, "Missouri");
    assert_eq!(team.final_time, "DQ");
    assert_eq!(team.seed_time, Some("3:06.12".to_string()));
    assert_eq!(team.dq_description, Some("Early take-off swimmer #4".to_string()));
    assert_eq!(team.swimmers.len(), 4);
    assert_eq!(team.swimmers[0].name, "Bochenski, Grant");
}

#[test]
fn test_parse_dfs_relay_team() {
    let lines = vec![
        "-- Wisconsin                          3:06.22        DFS",
        "      Declared false start - Misc",
        "    1) Lorenz, Sam FR                2) Wiegand, Ben SR",
        "    3) Jones, Charles JR             4) Morris, Christopher SR",
    ];

    let team = parse_relay_team_section(&lines).expect("Should parse DFS team");

    assert_eq!(team.place, None);
    assert_eq!(team.team_name, "Wisconsin");
    assert_eq!(team.final_time, "DFS");
    assert_eq!(team.dq_description, Some("Declared false start - Misc".to_string()));
}

#[test]
fn test_parse_normal_relay_team() {
    let lines = vec![
        "1 Florida                             1:21.66    1:20.15N  40",
        "    1) Chaney, Adam SR               2) r:0.18 Smith, Julian JR",
        "    3) r:0.19 Liendo, Josh SO        4) r:0.07 McDuff, Macguire JR",
    ];

    let team = parse_relay_team_section(&lines).expect("Should parse normal team");

    assert_eq!(team.place, Some(1));
    assert_eq!(team.team_name, "Florida");
    assert_eq!(team.final_time, "1:20.15N");
    assert_eq!(team.dq_description, None);
}

#[test]
fn test_is_relay_team_line_with_dq() {
    assert!(is_relay_team_line("-- Missouri                           3:06.12         DQ"));
    assert!(is_relay_team_line("1 Florida                             1:21.66    1:20.15N  40"));
    assert!(!is_relay_team_line("    1) Bochenski, Grant SR           2) r:-0.01 Ottke, Logan SO"));
    assert!(!is_relay_team_line("      Early take-off swimmer #4"));
}

#[test]
fn test_relay_roster_years_and_reactions() {
    let lines = vec![
        "1 Florida                             1:21.66    1:20.15N  40",
        "    1) Chaney, Adam SR               2) r:0.18 Smith, Julian JR",
        "    3) r:0.19 Liendo, Josh SO        4) r:0.07 McDuff, Macguire JR",
        "    r:+0.66  20.50        41.77 (21.27)",
    ];

    let team = parse_relay_team_section(&lines).expect("Should parse team");

    assert_eq!(team.swimmers.len(), 4);
    assert_eq!(team.swimmers[0].name, "Chaney, Adam");
    assert_eq!(team.swimmers[0].year, "SR");
    // The lead-off leg's reaction time comes from the split lines.
    assert_eq!(team.swimmers[0].reaction_time, Some("r:+0.66".to_string()));
    assert_eq!(team.swimmers[1].name, "Smith, Julian");
    assert_eq!(team.swimmers[1].year, "JR");
    assert_eq!(team.swimmers[1].reaction_time, Some("r:0.18".to_string()));
    assert_eq!(team.swimmers[3].name, "McDuff, Macguire");
    assert_eq!(team.swimmers[3].reaction_time, Some("r:0.07".to_string()));
    // Cumulative times only; the parenthesized interval is never stored.
    assert_eq!(team.splits.len(), 2);
    assert_eq!(team.splits[0].distance, 50);
    assert_eq!(team.splits[0].time, "20.50");
    assert_eq!(team.splits[1].distance, 100);
    assert_eq!(team.splits[1].time, "41.77");
}

#[test]
fn test_relay_missing_leg_stays_empty() {
    let lines = vec![
        "2 Georgia                             1:22.00    1:21.00   34",
        "    1) Smith, Alex SR                3) Brown, Casey SO",
    ];

    let team = parse_relay_team_section(&lines).expect("Should parse team");

    assert_eq!(team.swimmers.len(), 4);
    assert_eq!(team.swimmers[0].name, "Smith, Alex");
    assert_eq!(team.swimmers[2].name, "Brown, Casey");
    // The markers 2) and 4) never appear: those legs stay at their empty
    // default rather than failing the team.
    assert_eq!(team.swimmers[1].name, "");
    assert_eq!(team.swimmers[1].year, "");
    assert_eq!(team.swimmers[3].name, "");
}

#[test]
fn test_relay_too_few_header_tokens_rejected() {
    let lines = vec!["1 Florida"];
    assert!(parse_relay_team_section(&lines).is_none());
}
