use realtime_results_scraper::detect_url_type;
use realtime_results_scraper::event_handler::{is_swimmer_line, parse_swimmer_section};
use realtime_results_scraper::metadata::{parse_event_metadata_text, parse_race_info};
use realtime_results_scraper::utils::{
    extract_session_from_url, is_dq_status, is_valid_time_format, is_year_pattern,
};
use realtime_results_scraper::UrlType;

const NCAA_D1_MEN_2024_URL: &str = "https://swimmeetresults.tech/NCAA-Division-I-Men-2024";
const EVENT_500_FREE_FINALS_URL: &str =
    "https://swimmeetresults.tech/NCAA-Division-I-Men-2024/240327F003.htm";

#[test]
fn test_url_detection() {
    // Meet URL
    assert_eq!(detect_url_type(NCAA_D1_MEN_2024_URL), UrlType::Meet);

    // Meet URL with trailing slash
    assert_eq!(detect_url_type(&format!("{}/", NCAA_D1_MEN_2024_URL)), UrlType::Meet);

    // Event URL
    assert_eq!(detect_url_type(EVENT_500_FREE_FINALS_URL), UrlType::Event);

    // Any .htm URL is detected as event
    assert_eq!(detect_url_type("https://example.com/foo.htm"), UrlType::Event);
}

#[test]
fn test_session_extraction() {
    assert_eq!(extract_session_from_url(EVENT_500_FREE_FINALS_URL), Some('F'));
    assert_eq!(
        extract_session_from_url("https://swimmeetresults.tech/Meet/240327P012.htm"),
        Some('P')
    );
    assert_eq!(extract_session_from_url("https://example.com/evtindex.htm"), None);
    assert_eq!(extract_session_from_url("htm"), None);
}

#[test]
fn test_dq_status_tokens() {
    assert!(is_dq_status("DQ"));
    assert!(is_dq_status("DSQ"));
    assert!(is_dq_status("DFS"));
    assert!(is_dq_status("DNS"));
    // Case-sensitive and exact.
    assert!(!is_dq_status("dq"));
    assert!(!is_dq_status("DNF"));
    assert!(!is_dq_status(""));
}

#[test]
fn test_year_pattern_tokens() {
    assert!(is_year_pattern("FR"));
    assert!(is_year_pattern("so"));
    assert!(is_year_pattern("Jr"));
    assert!(is_year_pattern("5Y"));
    assert!(is_year_pattern("17"));
    // Fixed length is a hard requirement: longer tokens never match, even
    // with a valid two-character piece inside.
    assert!(!is_year_pattern("JRX"));
    assert!(!is_year_pattern("J"));
    assert!(!is_year_pattern(""));
    assert!(!is_year_pattern("FRFR"));
    assert!(!is_year_pattern("1"));
    assert!(!is_year_pattern("123"));
}

#[test]
fn test_time_token_boundaries() {
    // Ambiguous partial tokens are rejected.
    assert!(!is_valid_time_format("10."));
    assert!(!is_valid_time_format("1."));
    assert!(!is_valid_time_format("10"));
    assert!(!is_valid_time_format(""));
    // A single digit after the dot is ambiguous too: at least two are
    // required.
    assert!(!is_valid_time_format("10.5"));
    // Well-formed times are accepted, trailing record annotations included.
    assert!(is_valid_time_format("21.09"));
    assert!(is_valid_time_format("1:08.61"));
    assert!(is_valid_time_format("4:02.31N"));
}

#[test]
fn test_parse_individual_header() {
    let lines = vec!["1 Marchand, Leon JR ASU 1:40.22 1:38.19 20"];
    let swimmer = parse_swimmer_section(&lines).expect("Should parse header");
    assert_eq!(swimmer.place, Some(1));
    assert_eq!(swimmer.name, "Marchand, Leon");
    assert_eq!(swimmer.year, "JR");
    assert_eq!(swimmer.school, "ASU");
    assert_eq!(swimmer.seed_time, Some("1:40.22".to_string()));
    assert_eq!(swimmer.final_time, "1:38.19");
    assert_eq!(swimmer.reaction_time, None);
    assert!(swimmer.splits.is_empty());
}

#[test]
fn test_parse_individual_with_splits() {
    let lines = vec![
        "3 Smith, Jordan SO Texas A&M 1:41.00 1:39.50 16",
        "    r:+0.62  21.80        45.90 (24.10)",
        "    1:12.33 (26.43)",
    ];
    let swimmer = parse_swimmer_section(&lines).expect("Should parse");
    assert_eq!(swimmer.reaction_time, Some("r:+0.62".to_string()));
    assert_eq!(swimmer.splits.len(), 3);
    assert_eq!(swimmer.splits[0].distance, 50);
    assert_eq!(swimmer.splits[0].time, "21.80");
    assert_eq!(swimmer.splits[1].distance, 100);
    assert_eq!(swimmer.splits[1].time, "45.90");
    assert_eq!(swimmer.splits[2].distance, 150);
    assert_eq!(swimmer.splits[2].time, "1:12.33");
    // No parenthesized token is ever stored as a split time.
    for sp in &swimmer.splits {
        assert!(!sp.time.contains('('));
    }
}

#[test]
fn test_splits_extractor_idempotent() {
    let lines = vec![
        "2 Doe, Sam FR Cal 1:41.00 1:39.50 17",
        "    r:+0.70  22.00        46.00 (24.00)",
    ];
    let first = parse_swimmer_section(&lines).expect("parses");
    let second = parse_swimmer_section(&lines).expect("parses");
    assert_eq!(first.splits, second.splits);
    assert_eq!(first.reaction_time, second.reaction_time);
}

#[test]
fn test_individual_without_year_token_dropped() {
    // No class-year token in the scan window: the section fails to parse.
    let lines = vec!["1 Marchand, Leon ASU 1:40.22 1:38.19 20"];
    assert!(parse_swimmer_section(&lines).is_none());
}

#[test]
fn test_individual_dq_entry() {
    let lines = vec!["-- Jones, Pat SR Stanford 1:41.00 DQ"];
    let swimmer = parse_swimmer_section(&lines).expect("Should parse DQ entry");
    assert_eq!(swimmer.place, None);
    assert_eq!(swimmer.name, "Jones, Pat");
    assert_eq!(swimmer.final_time, "DQ");
    assert_eq!(swimmer.seed_time, Some("1:41.00".to_string()));
}

#[test]
fn test_swimmer_line_detection() {
    assert!(is_swimmer_line("1 Marchand, Leon JR ASU 1:40.22 1:38.19 20"));
    assert!(is_swimmer_line("-- Jones, Pat SR Stanford 1:41.00 DQ"));
    assert!(!is_swimmer_line("    r:+0.62  21.80"));
    assert!(!is_swimmer_line(""));
    assert!(!is_swimmer_line("Event 10  Men 200 Yard IM"));
}

#[test]
fn test_race_info_classification() {
    let info = parse_race_info("Event 10  Men 200 Yard IM").expect("Should classify");
    assert_eq!(info.event_number, 10);
    assert_eq!(info.gender, Some("Men".to_string()));
    assert_eq!(info.distance, Some(200));
    assert_eq!(info.course, Some("Yard".to_string()));
    assert_eq!(info.stroke, Some("IM".to_string()));
    assert!(!info.is_relay);
    assert!(info.other.is_empty());
}

#[test]
fn test_race_info_unclassified_tokens() {
    let info = parse_race_info("Event 5  Girls 13-14 100 Yard Freestyle").expect("Should classify");
    assert_eq!(info.event_number, 5);
    assert_eq!(info.gender, Some("Girls".to_string()));
    assert_eq!(info.distance, Some(100));
    assert_eq!(info.other, vec!["13-14".to_string()]);
}

#[test]
fn test_race_info_relay_and_multiword() {
    let info = parse_race_info("Event 1  Women 400 LC Meter Medley Relay").expect("classifies");
    assert!(info.is_relay);
    assert_eq!(info.course, Some("LC Meter".to_string()));
    assert_eq!(info.stroke, Some("Medley Relay".to_string()));
}

#[test]
fn test_race_info_requires_event_number() {
    assert!(parse_race_info("Men 200 Yard IM").is_none());
    assert!(parse_race_info("Event ten Men 200 Yard IM").is_none());
    assert!(parse_race_info("Event").is_none());
}

#[test]
fn test_course_codes() {
    let mk = |course: Option<&str>| realtime_results_scraper::metadata::RaceInfo {
        event_number: 1,
        gender: None,
        distance: None,
        course: course.map(|c| c.to_string()),
        stroke: None,
        is_relay: false,
        other: Vec::new(),
    };
    assert_eq!(mk(Some("Yard")).course_code(), Some("SCY"));
    assert_eq!(mk(Some("LC Meter")).course_code(), Some("LCM"));
    assert_eq!(mk(Some("Long Course")).course_code(), Some("LCM"));
    assert_eq!(mk(Some("SC Meters")).course_code(), Some("SCM"));
    assert_eq!(mk(Some("Short")).course_code(), Some("SCM"));
    assert_eq!(mk(Some("Meters")).course_code(), Some("LCM"));
    assert_eq!(mk(Some("Open Water")).course_code(), None);
    assert_eq!(mk(None).course_code(), None);
}

#[test]
fn test_metadata_with_license_line() {
    let text = "\
Licensed to Timing Vendor - Site License\n\
NCAA Championships 2024\n\
Main Aquatic Center\n\
\n\
Event 3  Men 500 Yard Freestyle\n\
=======================================\n\
  NCAA: N 4:06.32  3/24/2022 Some Person\n\
  Pool: P 4:08.40  2/17/2018 Other Person\n\
=======================================\n\
1 Marchand, Leon JR ASU 1:40.22 1:38.19 20\n";
    let meta = parse_event_metadata_text(text);
    assert_eq!(meta.meet_name, Some("NCAA Championships 2024".to_string()));
    assert_eq!(meta.venue, Some("Main Aquatic Center".to_string()));
    assert_eq!(meta.event_headline, "Event 3  Men 500 Yard Freestyle");
    assert_eq!(
        meta.records,
        vec![
            "NCAA: N 4:06.32  3/24/2022 Some Person".to_string(),
            "Pool: P 4:08.40  2/17/2018 Other Person".to_string(),
        ]
    );
}

#[test]
fn test_metadata_fallback_ordering() {
    // Without a license line the first header-region line is taken as the
    // venue and the second as the meet name.
    let text = "\
Main Aquatic Center\n\
NCAA Championships 2024\n\
Event 3  Men 500 Yard Freestyle\n";
    let meta = parse_event_metadata_text(text);
    assert_eq!(meta.venue, Some("Main Aquatic Center".to_string()));
    assert_eq!(meta.meet_name, Some("NCAA Championships 2024".to_string()));
    assert_eq!(meta.records.len(), 0);
}
