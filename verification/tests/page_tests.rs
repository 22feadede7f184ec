use realtime_results_scraper::event_handler::parse_individual_event_html;
use realtime_results_scraper::meet_handler::{Event, Meet};
use realtime_results_scraper::output::{include_place, OutputOptions};
use realtime_results_scraper::{parse_event_page, ParsedEvent, ParsedResults};

// A bogus header-shaped line stands outside the preformatted block: only
// the block's own content may be parsed.
const INDIVIDUAL_PAGE: &str = "\
<html><head><title>Results</title></head><body>\
<p>9 Fake, Person JR Nowhere 1:00.00 59.00 5</p>\
<pre>\
Licensed to Timing Vendor - Site License\n\
NCAA Championships 2024\n\
Main Aquatic Center\n\
\n\
Event 3  Men 500 Yard Freestyle\n\
=======================================\n\
  NCAA: N 4:06.32  3/24/2022 Some Person\n\
=======================================\n\
1 Marchand, Leon JR ASU 1:40.22 1:38.19 20\n\
    r:+0.62  21.80        45.90 (24.10)\n\
2 Smith, Jordan SO Texas 1:41.00 1:39.50 17\n\
</pre></body></html>";

const RELAY_PAGE: &str = "\
<html><body><pre>\
Licensed to Timing Vendor - Site License\n\
NCAA Championships 2024\n\
Main Aquatic Center\n\
\n\
Event 1  Men 200 Yard Medley Relay\n\
1 Florida                             1:21.66    1:20.15N  40\n\
    1) Chaney, Adam SR               2) r:0.18 Smith, Julian JR\n\
    3) r:0.19 Liendo, Josh SO        4) r:0.07 McDuff, Macguire JR\n\
</pre></body></html>";

#[test]
fn test_parse_individual_event_html_uses_pre_block() {
    let results = parse_individual_event_html(INDIVIDUAL_PAGE, "Event 3", 'F', None, None);
    assert_eq!(results.event_name, "Event 3");
    assert_eq!(results.session, 'F');
    // Exactly the two swimmers inside the <pre> block; the decoy outside
    // it is not parsed.
    assert_eq!(results.swimmers.len(), 2);
    assert_eq!(results.swimmers[0].name, "Marchand, Leon");
    assert_eq!(results.swimmers[0].splits.len(), 2);
    assert_eq!(results.swimmers[1].name, "Smith, Jordan");
}

#[test]
fn test_parse_individual_event_html_without_pre() {
    let results = parse_individual_event_html("<html><body>nothing</body></html>", "E", 'P', None, None);
    assert!(results.swimmers.is_empty());
}

#[test]
fn test_parse_event_page_individual() {
    let parsed = parse_event_page(INDIVIDUAL_PAGE, 'F').expect("Should parse page");
    match parsed {
        ParsedEvent::Individual(results) => {
            assert_eq!(results.event_name, "Event 3  Men 500 Yard Freestyle");
            let meta = results.metadata.expect("metadata");
            assert_eq!(meta.meet_name, Some("NCAA Championships 2024".to_string()));
            assert_eq!(meta.venue, Some("Main Aquatic Center".to_string()));
            let race = results.race_info.expect("race info");
            assert_eq!(race.event_number, 3);
            assert_eq!(race.distance, Some(500));
            assert!(!race.is_relay);
            assert_eq!(results.swimmers.len(), 2);
        },
        ParsedEvent::Relay(_) => panic!("expected an individual event"),
    }
}

#[test]
fn test_parse_event_page_relay() {
    let parsed = parse_event_page(RELAY_PAGE, 'F').expect("Should parse page");
    match parsed {
        ParsedEvent::Relay(results) => {
            assert_eq!(results.event_name, "Event 1  Men 200 Yard Medley Relay");
            assert_eq!(results.teams.len(), 1);
            assert_eq!(results.teams[0].team_name, "Florida");
            let race = results.race_info.expect("race info");
            assert!(race.is_relay);
        },
        ParsedEvent::Individual(_) => panic!("expected a relay event"),
    }
}

#[test]
fn test_parse_event_page_without_pre() {
    assert!(parse_event_page("<html><body><h2>x</h2></body></html>", 'P').is_none());
}

#[test]
fn test_parsed_results_from_event() {
    let parsed = parse_event_page(INDIVIDUAL_PAGE, 'F').expect("Should parse page");
    let results = ParsedResults::from_event(parsed);
    assert_eq!(results.individual_results.len(), 1);
    assert_eq!(results.relay_results.len(), 0);
    assert_eq!(results.meet_title, Some("NCAA Championships 2024".to_string()));
}

#[test]
fn test_meet_events_insert_and_update() {
    let mut meet = Meet::new("https://example.com/meet".to_string());
    assert!(meet.title.is_none());
    meet.set_title("Big Meet".to_string());
    assert_eq!(meet.title, Some("Big Meet".to_string()));

    let mut e = Event::new("200 Medley Relay".to_string(), 1);
    e.set_link("https://example.com/meet/240327P001.htm".to_string(), 'P');
    meet.add_event("200 Medley Relay".to_string(), e);
    assert_eq!(meet.events.len(), 1);

    // Filling in the finals link for the same event keeps one entry.
    match meet.get_event_mut("200 Medley Relay") {
        Some(ev) => ev.set_link("https://example.com/meet/240327F001.htm".to_string(), 'F'),
        None => panic!("event should be found"),
    }
    assert_eq!(meet.events.len(), 1);
    assert_eq!(
        meet.events[0].1.prelims_link,
        Some("https://example.com/meet/240327P001.htm".to_string())
    );
    assert_eq!(
        meet.events[0].1.finals_link,
        Some("https://example.com/meet/240327F001.htm".to_string())
    );

    // Inserting under the same name replaces the entry.
    let other = Event::new("200 Medley Relay".to_string(), 1);
    meet.add_event("200 Medley Relay".to_string(), other);
    assert_eq!(meet.events.len(), 1);
    assert_eq!(meet.events[0].1.finals_link, None);

    // A different name appends.
    meet.add_event("500 Freestyle".to_string(), Event::new("500 Freestyle".to_string(), 3));
    assert_eq!(meet.events.len(), 2);
    assert!(meet.get_event_mut("nonexistent").is_none());
}

#[test]
fn test_output_options() {
    let opts = OutputOptions::default();
    assert!(opts.metadata);
    assert!(opts.top_n.is_none());

    // No cap: everything included, placed or not.
    assert!(include_place(Some(200), None));
    assert!(include_place(None, None));
    // Capped: only placed results at or under the cap.
    assert!(include_place(Some(16), Some(16)));
    assert!(!include_place(Some(17), Some(16)));
    assert!(!include_place(None, Some(16)));
}
