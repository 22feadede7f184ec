//! Parsing engine for plain-text swim meet result sheets.
//!
//! The input is a monospaced text dump embedded in an HTML page: one header
//! line per competitor or relay team, followed by continuation lines holding
//! splits, reaction times and disqualification commentary.  The library
//! segments such a block into record sections, tokenizes header lines into
//! typed fields, classifies continuation lines, and extracts event
//! classification and header metadata from free-form headline and banner
//! text.
pub mod event_handler;
pub mod html;
pub mod meet_handler;
pub mod metadata;
pub mod output;
pub mod relay_handler;
pub mod splits;
pub mod text;
pub mod utils;

use vstd::prelude::*;

verus! {

/// URL type for routing to the appropriate parser.
#[derive(Debug, PartialEq, Eq, Structural)]
pub enum UrlType {
    Meet,
    Event,
}

/// Detects whether a URL points to a meet index or an individual event page:
/// after trailing `/` characters are dropped, event pages end in `.htm`.
#[verifier::loop_isolation(false)]
pub fn detect_url_type(url: &str) -> (t: UrlType)
    ensures
        t == (if text::ends_htm(text::strip_trailing_slashes(url@)) {
            UrlType::Event
        } else {
            UrlType::Meet
        }),
{
    let cs = text::str_to_chars(url);
    let stripped = text::strip_slashes_chars(&cs);
    if text::ends_htm_chars(&stripped) {
        UrlType::Event
    } else {
        UrlType::Meet
    }
}


/// Complete parsed results with optional meet info.
#[derive(Debug)]
pub struct ParsedResults {
    pub individual_results: Vec<event_handler::EventResults>,
    pub relay_results: Vec<relay_handler::RelayResults>,
    pub meet_title: Option<String>,
}

/// Parsed event result (individual or relay).
#[derive(Debug)]
pub enum ParsedEvent {
    Individual(event_handler::EventResults),
    Relay(relay_handler::RelayResults),
}

pub open spec fn opt_race_view(o: Option<metadata::RaceInfo>) -> Option<metadata::RaceInfoModel> {
    match o {
        Some(i) => Some(i@),
        None => None,
    }
}

pub open spec fn opt_meta_view(o: Option<metadata::EventMetadata>) -> Option<
    metadata::EventMetadataModel,
> {
    match o {
        Some(m) => Some(m@),
        None => None,
    }
}

/// The meet name of a page's metadata, if both are present.
pub open spec fn title_of_meta(m: Option<metadata::EventMetadata>) -> Option<Seq<char>> {
    match m {
        Some(mm) => splits::opt_string_view(mm.meet_name),
        None => None,
    }
}

/// Parses a single event page, dispatching to the individual or relay
/// parser: the page's metadata names the event, its headline is
/// classified, and the relay flag routes the result block.  A page
/// without a preformatted block yields nothing.
pub fn parse_event_page(html: &str, session: char) -> (r: Option<ParsedEvent>)
    ensures
        (match (html::tag_text_of(html@, "pre"@), r) {
            (None, None) => true,
            (Some(content), Some(ParsedEvent::Relay(rr))) => {
                let meta = metadata::metadata_of_text(content);
                let ri = metadata::parse_race_info_spec(meta.event_headline);
                &&& (ri matches Some(i) && i.is_relay)
                &&& rr.event_name@ == meta.event_headline
                &&& rr.session == session
                &&& opt_meta_view(rr.metadata) == Some(meta)
                &&& opt_race_view(rr.race_info) == ri
                &&& relay_handler::team_views(rr.teams@) == relay_handler::teams_of_text(content)
            },
            (Some(content), Some(ParsedEvent::Individual(er))) => {
                let meta = metadata::metadata_of_text(content);
                let ri = metadata::parse_race_info_spec(meta.event_headline);
                &&& !(ri matches Some(i) && i.is_relay)
                &&& er.event_name@ == meta.event_headline
                &&& er.session == session
                &&& opt_meta_view(er.metadata) == Some(meta)
                &&& opt_race_view(er.race_info) == ri
                &&& event_handler::swimmer_views(er.swimmers@) == event_handler::swimmers_of_text(
                    content,
                )
            },
            _ => false,
        }),
{
    let metadata = match metadata::parse_event_metadata(html) {
        Some(m) => m,
        None => {
            return None;
        },
    };
    let event_name = metadata.event_headline.clone();
    let race_info = metadata::parse_race_info(event_name.as_str());
    let is_relay = match &race_info {
        Some(info) => info.is_relay,
        None => false,
    };
    if is_relay {
        let res = relay_handler::parse_relay_event_html(
            html,
            event_name.as_str(),
            session,
            Some(metadata),
            race_info,
        );
        Some(ParsedEvent::Relay(res))
    } else {
        let res = event_handler::parse_individual_event_html(
            html,
            event_name.as_str(),
            session,
            Some(metadata),
            race_info,
        );
        Some(ParsedEvent::Individual(res))
    }
}

impl ParsedResults {
    /// Wraps a single parsed event: the result set holds just that event,
    /// and the meet title is the page's meet name, if any.
    pub fn from_event(ev: ParsedEvent) -> (r: ParsedResults)
        ensures
            (match ev {
                ParsedEvent::Individual(er) => {
                    &&& r.individual_results@ == seq![er]
                    &&& r.relay_results@.len() == 0
                    &&& splits::opt_string_view(r.meet_title) == title_of_meta(er.metadata)
                },
                ParsedEvent::Relay(rr) => {
                    &&& r.individual_results@.len() == 0
                    &&& r.relay_results@ == seq![rr]
                    &&& splits::opt_string_view(r.meet_title) == title_of_meta(rr.metadata)
                },
            }),
{
        match ev {
            ParsedEvent::Individual(er) => {
                let meet_title: Option<String> = match &er.metadata {
                    Some(m) => match &m.meet_name {
                        Some(s) => Some(s.clone()),
                        None => None,
                    },
                    None => None,
                };
                let mut v: Vec<event_handler::EventResults> = Vec::new();
                v.push(er);
                proof {
                    assert(v@ =~= seq![v@[0]]);
                }
                ParsedResults { individual_results: v, relay_results: Vec::new(), meet_title }
            },
            ParsedEvent::Relay(rr) => {
                let meet_title: Option<String> = match &rr.metadata {
                    Some(m) => match &m.meet_name {
                        Some(s) => Some(s.clone()),
                        None => None,
                    },
                    None => None,
                };
                let mut v: Vec<relay_handler::RelayResults> = Vec::new();
                v.push(rr);
                proof {
                    assert(v@ =~= seq![v@[0]]);
                }
                ParsedResults { individual_results: Vec::new(), relay_results: v, meet_title }
            },
        }
    }
}

} // verus!
