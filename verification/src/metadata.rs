//! Race classifier and header metadata extractor: turns an event's
//! free-text headline into a structured race descriptor, and scans the
//! banner text around the headline for venue, meet name and standing
//! records.
use vstd::prelude::*;

use crate::html;
use crate::text;

verus! {

// ---------------------------------------------------------------------------
// Data structures
// ---------------------------------------------------------------------------

/// Metadata extracted from an event page header.
#[derive(Debug, Clone, PartialEq)]
pub struct EventMetadata {
    pub venue: Option<String>,
    pub meet_name: Option<String>,
    pub event_headline: String,
    pub records: Vec<String>,
}

/// Mathematical model of the extracted metadata.
#[verifier::ext_equal]
pub struct EventMetadataModel {
    pub venue: Option<Seq<char>>,
    pub meet_name: Option<Seq<char>>,
    pub event_headline: Seq<char>,
    pub records: Seq<Seq<char>>,
}

impl View for EventMetadata {
    type V = EventMetadataModel;

    open spec fn view(&self) -> EventMetadataModel {
        EventMetadataModel {
            venue: crate::splits::opt_string_view(self.venue),
            meet_name: crate::splits::opt_string_view(self.meet_name),
            event_headline: self.event_headline@,
            records: text::string_views(self.records@),
        }
    }
}

/// Race type information parsed from an event headline.
#[derive(Debug, Clone, PartialEq)]
pub struct RaceInfo {
    pub event_number: u32,
    pub gender: Option<String>,
    pub distance: Option<u16>,
    pub course: Option<String>,
    pub stroke: Option<String>,
    pub is_relay: bool,
    pub other: Vec<String>,
}

/// Mathematical model of a race descriptor.
#[verifier::ext_equal]
pub struct RaceInfoModel {
    pub event_number: u32,
    pub gender: Option<Seq<char>>,
    pub distance: Option<u16>,
    pub course: Option<Seq<char>>,
    pub stroke: Option<Seq<char>>,
    pub is_relay: bool,
    pub other: Seq<Seq<char>>,
}

impl View for RaceInfo {
    type V = RaceInfoModel;

    open spec fn view(&self) -> RaceInfoModel {
        RaceInfoModel {
            event_number: self.event_number,
            gender: crate::splits::opt_string_view(self.gender),
            distance: self.distance,
            course: crate::splits::opt_string_view(self.course),
            stroke: crate::splits::opt_string_view(self.stroke),
            is_relay: self.is_relay,
            other: text::string_views(self.other@),
        }
    }
}

// ---------------------------------------------------------------------------
// Course code
// ---------------------------------------------------------------------------

/// The short code of a course string, by case-insensitive substring
/// containment, checked in this fixed order: yards first, then long-course
/// meters, then short-course meters, with a bare `meter` defaulting to
/// long-course meters.
pub open spec fn course_code_spec(course: Option<Seq<char>>) -> Option<Seq<char>> {
    match course {
        None => None,
        Some(c) => {
            if text::contains_ci(c, "yard"@) {
                Some("SCY"@)
            } else if text::contains_ci(c, "lc"@) || text::contains_ci(c, "long"@) {
                Some("LCM"@)
            } else if text::contains_ci(c, "sc"@) || text::contains_ci(c, "short"@) {
                Some("SCM"@)
            } else if text::contains_ci(c, "meter"@) {
                Some("LCM"@)
            } else {
                None
            }
        },
    }
}

impl RaceInfo {
    /// Returns course code (SCY, SCM, LCM) based on course string.
    pub fn course_code(&self) -> (r: Option<&'static str>)
        ensures
            (match r {
                Some(code) => course_code_spec(self@.course) == Some(code@),
                None => course_code_spec(self@.course) is None,
            }),
    {
        match &self.course {
            None => None,
            Some(c) => {
                let cs = text::str_to_chars(c.as_str());
                if text::contains_ci_str(&cs, "yard") {
                    Some("SCY")
                } else if text::contains_ci_str(&cs, "lc") || text::contains_ci_str(&cs, "long") {
                    Some("LCM")
                } else if text::contains_ci_str(&cs, "sc") || text::contains_ci_str(&cs, "short") {
                    Some("SCM")
                } else if text::contains_ci_str(&cs, "meter") {
                    Some("LCM")
                } else {
                    None
                }
            },
        }
    }
}

// ---------------------------------------------------------------------------
// Token vocabularies
// ---------------------------------------------------------------------------

/// A gender word, compared case-insensitively.
pub open spec fn is_gender_tok(t: Seq<char>) -> bool {
    ||| text::seq_eqi(t, "Men"@)
    ||| text::seq_eqi(t, "Women"@)
    ||| text::seq_eqi(t, "Boys"@)
    ||| text::seq_eqi(t, "Girls"@)
    ||| text::seq_eqi(t, "Mixed"@)
    ||| text::seq_eqi(t, "Male"@)
    ||| text::seq_eqi(t, "Female"@)
}

/// A course-unit word, compared case-insensitively.
pub open spec fn is_course_tok(t: Seq<char>) -> bool {
    ||| text::seq_eqi(t, "Yard"@)
    ||| text::seq_eqi(t, "Yards"@)
    ||| text::seq_eqi(t, "Meter"@)
    ||| text::seq_eqi(t, "Meters"@)
    ||| text::seq_eqi(t, "LC"@)
    ||| text::seq_eqi(t, "SC"@)
    ||| text::seq_eqi(t, "LCM"@)
    ||| text::seq_eqi(t, "SCM"@)
    ||| text::seq_eqi(t, "SCY"@)
    ||| text::seq_eqi(t, "Long"@)
    ||| text::seq_eqi(t, "Short"@)
}

/// A stroke or relay word, compared case-insensitively.
pub open spec fn is_stroke_tok(t: Seq<char>) -> bool {
    ||| text::seq_eqi(t, "Freestyle"@)
    ||| text::seq_eqi(t, "Free"@)
    ||| text::seq_eqi(t, "Backstroke"@)
    ||| text::seq_eqi(t, "Back"@)
    ||| text::seq_eqi(t, "Breaststroke"@)
    ||| text::seq_eqi(t, "Breast"@)
    ||| text::seq_eqi(t, "Butterfly"@)
    ||| text::seq_eqi(t, "Fly"@)
    ||| text::seq_eqi(t, "Individual"@)
    ||| text::seq_eqi(t, "Medley"@)
    ||| text::seq_eqi(t, "IM"@)
    ||| text::seq_eqi(t, "Relay"@)
}

fn is_gender_word(t: &Vec<char>) -> (r: bool)
    ensures
        r == is_gender_tok(t@),
{
    text::chars_eqi_str(t, "Men") || text::chars_eqi_str(t, "Women") || text::chars_eqi_str(
        t,
        "Boys",
    ) || text::chars_eqi_str(t, "Girls") || text::chars_eqi_str(t, "Mixed") || text::chars_eqi_str(
        t,
        "Male",
    ) || text::chars_eqi_str(t, "Female")
}

fn is_course_word(t: &Vec<char>) -> (r: bool)
    ensures
        r == is_course_tok(t@),
{
    text::chars_eqi_str(t, "Yard") || text::chars_eqi_str(t, "Yards") || text::chars_eqi_str(
        t,
        "Meter",
    ) || text::chars_eqi_str(t, "Meters") || text::chars_eqi_str(t, "LC") || text::chars_eqi_str(
        t,
        "SC",
    ) || text::chars_eqi_str(t, "LCM") || text::chars_eqi_str(t, "SCM") || text::chars_eqi_str(
        t,
        "SCY",
    ) || text::chars_eqi_str(t, "Long") || text::chars_eqi_str(t, "Short")
}

fn is_stroke_word(t: &Vec<char>) -> (r: bool)
    ensures
        r == is_stroke_tok(t@),
{
    text::chars_eqi_str(t, "Freestyle") || text::chars_eqi_str(t, "Free") || text::chars_eqi_str(
        t,
        "Backstroke",
    ) || text::chars_eqi_str(t, "Back") || text::chars_eqi_str(t, "Breaststroke")
        || text::chars_eqi_str(t, "Breast") || text::chars_eqi_str(t, "Butterfly")
        || text::chars_eqi_str(t, "Fly") || text::chars_eqi_str(t, "Individual")
        || text::chars_eqi_str(t, "Medley") || text::chars_eqi_str(t, "IM") || text::chars_eqi_str(
        t,
        "Relay",
    )
}

// ---------------------------------------------------------------------------
// Race classification
// ---------------------------------------------------------------------------

/// Accumulator of the token classification pass: the last gender and
/// distance seen, and the course, stroke and unclassified tokens in
/// encounter order.
#[verifier::ext_equal]
pub struct RaceAcc {
    pub gender: Option<Seq<char>>,
    pub distance: Option<u16>,
    pub course: Seq<Seq<char>>,
    pub stroke: Seq<Seq<char>>,
    pub other: Seq<Seq<char>>,
}

pub open spec fn empty_race_acc() -> RaceAcc {
    RaceAcc {
        gender: None,
        distance: None,
        course: Seq::<Seq<char>>::empty(),
        stroke: Seq::<Seq<char>>::empty(),
        other: Seq::<Seq<char>>::empty(),
    }
}

/// Classification of one token, in priority order: gender word, standalone
/// integer (distance), course word, stroke word, else unclassified.
pub open spec fn race_step(st: RaceAcc, t: Seq<char>) -> RaceAcc {
    if is_gender_tok(t) {
        RaceAcc { gender: Some(t), ..st }
    } else if text::parses_uint(t, 65535) {
        RaceAcc { distance: Some(text::digits_val(text::uint_body(t)) as u16), ..st }
    } else if is_course_tok(t) {
        RaceAcc { course: st.course.push(t), ..st }
    } else if is_stroke_tok(t) {
        RaceAcc { stroke: st.stroke.push(t), ..st }
    } else {
        RaceAcc { other: st.other.push(t), ..st }
    }
}

pub open spec fn race_fold(st: RaceAcc, toks: Seq<Seq<char>>) -> RaceAcc
    decreases toks.len(),
{
    if toks.len() == 0 {
        st
    } else {
        race_fold(race_step(st, toks[0]), toks.drop_first())
    }
}

pub proof fn lemma_race_fold_push(st: RaceAcc, toks: Seq<Seq<char>>, t: Seq<char>)
    ensures
        race_fold(st, toks.push(t)) == race_step(race_fold(st, toks), t),
    decreases toks.len(),
{
    if toks.len() == 0 {
        reveal_with_fuel(race_fold, 2);
        assert(toks.push(t)[0] == t);
        assert(toks.push(t).drop_first() =~= Seq::<Seq<char>>::empty());
    } else {
        assert(toks.push(t).drop_first() =~= toks.drop_first().push(t));
        assert(toks.push(t)[0] == toks[0]);
        lemma_race_fold_push(race_step(st, toks[0]), toks.drop_first(), t);
    }
}

/// Index of the first headline token equal (case-insensitively) to
/// `Event`, scanning from `from`.
pub open spec fn event_idx_scan(toks: Seq<Seq<char>>, from: int) -> Option<int>
    decreases toks.len() - from,
{
    if from < 0 || from >= toks.len() {
        None
    } else if text::seq_eqi(toks[from], "Event"@) {
        Some(from)
    } else {
        event_idx_scan(toks, from + 1)
    }
}

/// The race descriptor of a headline: the token after the literal `Event`
/// must parse as the event number, and every later token is classified
/// against the fixed vocabularies; the relay flag is a separate
/// case-insensitive search for `relay` in the whole headline.
pub open spec fn parse_race_info_spec(headline: Seq<char>) -> Option<RaceInfoModel> {
    let toks = text::split_ws(headline);
    match event_idx_scan(toks, 0) {
        None => None,
        Some(k) => {
            if k + 1 >= toks.len() || !text::parses_uint(toks[k + 1], 0xffff_ffff) {
                None
            } else {
                let acc = race_fold(empty_race_acc(), toks.skip(k + 2));
                Some(
                    RaceInfoModel {
                        event_number: text::digits_val(text::uint_body(toks[k + 1])) as u32,
                        gender: acc.gender,
                        distance: acc.distance,
                        course: if acc.course.len() == 0 {
                            None
                        } else {
                            Some(text::join_sp(acc.course))
                        },
                        stroke: if acc.stroke.len() == 0 {
                            None
                        } else {
                            Some(text::join_sp(acc.stroke))
                        },
                        is_relay: text::contains_ci(headline, "relay"@),
                        other: acc.other,
                    },
                )
            }
        },
    }
}

/// Parses race information from an event headline using token
/// classification.
#[verifier::loop_isolation(false)]
pub fn parse_race_info(headline: &str) -> (r: Option<RaceInfo>)
    ensures
        (match r {
            Some(info) => parse_race_info_spec(headline@) == Some(info@),
            None => parse_race_info_spec(headline@) is None,
        }),
{
    let hcs = text::str_to_chars(headline);
    let toks = text::split_ws_chars(&hcs);
    let ghost tv = text::views_of(toks@);
    let n = toks.len();
    let mut ei: usize = 0;
    while ei < n && !text::chars_eqi_str(&toks[ei], "Event")
        invariant
            ei <= n == toks@.len(),
            event_idx_scan(tv, 0) == event_idx_scan(tv, ei as int),
        decreases n - ei,
    {
        ei = ei + 1;
    }
    if ei >= n {
        return None;
    }
    if ei + 1 >= n {
        return None;
    }
    let num = match text::parse_uint(&toks[ei + 1], 4294967295) {
        Some(v) => v as u32,
        None => {
            return None;
        },
    };
    let mut gender: Option<String> = None;
    let mut distance: Option<u16> = None;
    let mut course_parts: Vec<Vec<char>> = Vec::new();
    let mut stroke_parts: Vec<Vec<char>> = Vec::new();
    let mut other: Vec<String> = Vec::new();
    let ghost mut acc: RaceAcc = empty_race_acc();
    let mut i: usize = ei + 2;
    while i < n
        invariant
            ei + 2 <= i <= n == toks@.len(),
            tv == text::views_of(toks@),
            acc == race_fold(empty_race_acc(), tv.skip(ei + 2).take(i - ei - 2)),
            crate::splits::opt_string_view(gender) == acc.gender,
            distance == acc.distance,
            text::views_of(course_parts@) == acc.course,
            text::views_of(stroke_parts@) == acc.stroke,
            text::string_views(other@) == acc.other,
        decreases n - i,
    {
        let t = &toks[i];
        proof {
            assert(tv.skip(ei + 2).take(i - ei - 2 + 1) =~= tv.skip(ei + 2).take(i - ei - 2).push(
                t@,
            ));
            lemma_race_fold_push(empty_race_acc(), tv.skip(ei + 2).take(i - ei - 2), t@);
        }
        if is_gender_word(t) {
            gender = Some(text::chars_to_string(t));
        } else {
            let parsed = text::parse_uint(t, 65535);
            if let Some(d) = parsed {
                distance = Some(d as u16);
            } else if is_course_word(t) {
                let ghost old_parts = course_parts@;
                course_parts.push(text::subvec(t, 0, t.len()));
                proof {
                    assert(t@.subrange(0, t@.len() as int) =~= t@);
                    assert(text::views_of(course_parts@) =~= text::views_of(old_parts).push(t@));
                }
            } else if is_stroke_word(t) {
                let ghost old_parts = stroke_parts@;
                stroke_parts.push(text::subvec(t, 0, t.len()));
                proof {
                    assert(t@.subrange(0, t@.len() as int) =~= t@);
                    assert(text::views_of(stroke_parts@) =~= text::views_of(old_parts).push(t@));
                }
            } else {
                let ghost old_other = other@;
                other.push(text::chars_to_string(t));
                proof {
                    assert(text::string_views(other@) =~= text::string_views(old_other).push(t@));
                }
            }
        }
        proof {
            acc = race_step(acc, t@);
        }
        i = i + 1;
    }
    proof {
        assert(tv.skip(ei + 2).take(n - ei - 2) =~= tv.skip(ei + 2));
    }
    let course: Option<String> = if course_parts.len() == 0 {
        None
    } else {
        let nparts = course_parts.len();
        let joined = text::join_range(&course_parts, 0, nparts);
        proof {
            assert(text::views_of(course_parts@).subrange(0, nparts as int) =~= acc.course);
        }
        Some(text::chars_to_string(&joined))
    };
    let stroke: Option<String> = if stroke_parts.len() == 0 {
        None
    } else {
        let nparts = stroke_parts.len();
        let joined = text::join_range(&stroke_parts, 0, nparts);
        proof {
            assert(text::views_of(stroke_parts@).subrange(0, nparts as int) =~= acc.stroke);
        }
        Some(text::chars_to_string(&joined))
    };
    let is_relay = text::contains_ci_str(&hcs, "relay");
    let info = RaceInfo { event_number: num, gender, distance, course, stroke, is_relay, other };
    proof {
        assert(info@ =~= parse_race_info_spec(headline@)->0);
    }
    Some(info)
}


// ---------------------------------------------------------------------------
// Header metadata extraction
// ---------------------------------------------------------------------------

/// A delimiter line: at least five characters, all `=`.
pub open spec fn is_delim_line(l: Seq<char>) -> bool {
    l.len() >= 5 && forall|i: int| 0 <= i < l.len() ==> l[i] == '='
}

#[verifier::loop_isolation(false)]
fn is_delim_chars(t: &Vec<char>) -> (r: bool)
    ensures
        r == is_delim_line(t@),
{
    if t.len() < 5 {
        return false;
    }
    let mut i: usize = 0;
    while i < t.len()
        invariant
            i <= t@.len(),
            forall|j: int| 0 <= j < i ==> t@[j] == '=',
        decreases t@.len() - i,
    {
        if t[i] != '=' {
            return false;
        }
        i = i + 1;
    }
    true
}

/// A headline-shaped line: contains the literal `Event` and at least one
/// digit.
pub open spec fn is_headline_line(t: Seq<char>) -> bool {
    text::contains_seq(t, "Event"@) && text::has_digit(t)
}

/// State of the banner scan: the header-region lines seen before the
/// headline, the headline itself, the record lines between the two
/// delimiter lines after it, and where the scan stands.
#[verifier::ext_equal]
pub struct MetaScan {
    pub header: Seq<Seq<char>>,
    pub headline: Seq<char>,
    pub found: bool,
    pub records: Seq<Seq<char>>,
    pub in_rec: bool,
    pub done: bool,
}

pub open spec fn empty_meta_scan() -> MetaScan {
    MetaScan {
        header: Seq::<Seq<char>>::empty(),
        headline: Seq::<char>::empty(),
        found: false,
        records: Seq::<Seq<char>>::empty(),
        in_rec: false,
        done: false,
    }
}

/// One raw line of the banner scan, working on its trimmed form: blank
/// lines are skipped; a headline-shaped line (re)sets the headline; lines
/// before the first headline are header region; after it, the first
/// delimiter line opens the records section, the second closes it and ends
/// the scan, and lines in between are records.
pub open spec fn meta_step(st: MetaScan, line: Seq<char>) -> MetaScan {
    let t = text::trim_spec(line);
    if st.done || t.len() == 0 {
        st
    } else if is_headline_line(t) {
        MetaScan { headline: t, found: true, ..st }
    } else if !st.found {
        MetaScan { header: st.header.push(t), ..st }
    } else if is_delim_line(t) {
        if st.in_rec {
            MetaScan { done: true, ..st }
        } else {
            MetaScan { in_rec: true, ..st }
        }
    } else if st.in_rec {
        MetaScan { records: st.records.push(t), ..st }
    } else {
        st
    }
}

pub open spec fn meta_fold(st: MetaScan, lines: Seq<Seq<char>>) -> MetaScan
    decreases lines.len(),
{
    if lines.len() == 0 {
        st
    } else {
        meta_fold(meta_step(st, lines[0]), lines.drop_first())
    }
}

pub proof fn lemma_meta_fold_push(st: MetaScan, lines: Seq<Seq<char>>, l: Seq<char>)
    ensures
        meta_fold(st, lines.push(l)) == meta_step(meta_fold(st, lines), l),
    decreases lines.len(),
{
    if lines.len() == 0 {
        reveal_with_fuel(meta_fold, 2);
        assert(lines.push(l)[0] == l);
        assert(lines.push(l).drop_first() =~= Seq::<Seq<char>>::empty());
    } else {
        assert(lines.push(l).drop_first() =~= lines.drop_first().push(l));
        assert(lines.push(l)[0] == lines[0]);
        lemma_meta_fold_push(meta_step(st, lines[0]), lines.drop_first(), l);
    }
}

/// State of the license pass over the header region.
#[verifier::ext_equal]
pub struct LicScan {
    pub meet: Option<Seq<char>>,
    pub venue: Option<Seq<char>>,
    pub found: bool,
    pub done: bool,
}

pub open spec fn empty_lic_scan() -> LicScan {
    LicScan { meet: None, venue: None, found: false, done: false }
}

/// A line announcing the timing vendor's license.
pub open spec fn is_license_line(l: Seq<char>) -> bool {
    text::contains_ci(l, "site license"@) || text::contains_ci(l, "license hy-tek"@)
}

/// One header-region line of the license pass: after a license line, the
/// next line is the meet name and the one after that the venue.
pub open spec fn lic_step(st: LicScan, l: Seq<char>) -> LicScan {
    if st.done {
        st
    } else if is_license_line(l) {
        LicScan { found: true, ..st }
    } else if st.found && st.meet is None {
        LicScan { meet: Some(l), ..st }
    } else if st.meet is Some && st.venue is None {
        LicScan { venue: Some(l), done: true, ..st }
    } else {
        st
    }
}

pub open spec fn lic_fold(st: LicScan, lines: Seq<Seq<char>>) -> LicScan
    decreases lines.len(),
{
    if lines.len() == 0 {
        st
    } else {
        lic_fold(lic_step(st, lines[0]), lines.drop_first())
    }
}

pub proof fn lemma_lic_fold_push(st: LicScan, lines: Seq<Seq<char>>, l: Seq<char>)
    ensures
        lic_fold(st, lines.push(l)) == lic_step(lic_fold(st, lines), l),
    decreases lines.len(),
{
    if lines.len() == 0 {
        reveal_with_fuel(lic_fold, 2);
        assert(lines.push(l)[0] == l);
        assert(lines.push(l).drop_first() =~= Seq::<Seq<char>>::empty());
    } else {
        assert(lines.push(l).drop_first() =~= lines.drop_first().push(l));
        assert(lines.push(l)[0] == lines[0]);
        lemma_lic_fold_push(lic_step(st, lines[0]), lines.drop_first(), l);
    }
}

/// The metadata of a result block: the banner scan runs over its lines;
/// the license pass then assigns meet name and venue from the lines after
/// the license line, and when no license line named a meet, the fall-back
/// takes the first header-region line as the venue and the second as the
/// meet name.
pub open spec fn metadata_of_text(content: Seq<char>) -> EventMetadataModel {
    let ms = meta_fold(empty_meta_scan(), text::split_lines(content));
    let lic = lic_fold(empty_lic_scan(), ms.header);
    let meet_name = if lic.meet is Some {
        lic.meet
    } else if ms.header.len() >= 2 {
        Some(ms.header[1])
    } else {
        None
    };
    let venue = if lic.meet is Some {
        lic.venue
    } else if ms.header.len() >= 1 {
        Some(ms.header[0])
    } else {
        None
    };
    EventMetadataModel { venue, meet_name, event_headline: ms.headline, records: ms.records }
}

/// Extracts metadata (venue, meet name, records) from one result block's
/// text.
#[verifier::loop_isolation(false)]
pub fn parse_event_metadata_text(content: &str) -> (r: EventMetadata)
    ensures
        r@ == metadata_of_text(content@),
{
    let lines = text::split_lines_str(content);
    let ghost lv = text::views_of(lines@);
    let mut header: Vec<Vec<char>> = Vec::new();
    let mut headline: Vec<char> = Vec::new();
    let mut found: bool = false;
    let mut records: Vec<String> = Vec::new();
    let mut in_rec: bool = false;
    let mut done: bool = false;
    let ghost mut ms: MetaScan = empty_meta_scan();
    let mut li: usize = 0;
    while li < lines.len()
        invariant
            li <= lines@.len(),
            lv == text::views_of(lines@),
            ms == meta_fold(empty_meta_scan(), lv.take(li as int)),
            text::views_of(header@) == ms.header,
            headline@ == ms.headline,
            found == ms.found,
            text::string_views(records@) == ms.records,
            in_rec == ms.in_rec,
            done == ms.done,
        decreases lines@.len() - li,
    {
        proof {
            assert(lv.take(li + 1) =~= lv.take(li as int).push(lv[li as int]));
            lemma_meta_fold_push(empty_meta_scan(), lv.take(li as int), lv[li as int]);
        }
        let t = text::trim_chars(&lines[li]);
        if done || t.len() == 0 {
        } else if text::contains_str(&t, "Event") && text::contains_digit(&t) {
            headline = t;
            found = true;
        } else if !found {
            let ghost old_header = header@;
            let ghost tval = t@;
            header.push(t);
            proof {
                assert(text::views_of(header@) =~= text::views_of(old_header).push(tval));
            }
        } else if is_delim_chars(&t) {
            if in_rec {
                done = true;
            } else {
                in_rec = true;
            }
        } else if in_rec {
            let ghost old_records = records@;
            records.push(text::chars_to_string(&t));
            proof {
                assert(text::string_views(records@) =~= text::string_views(old_records).push(t@));
            }
        }
        proof {
            ms = meta_step(ms, lv[li as int]);
        }
        li = li + 1;
    }
    proof {
        assert(lv.take(lines@.len() as int) =~= lv);
    }
    let mut meet_name: Option<String> = None;
    let mut venue: Option<String> = None;
    let mut found_license: bool = false;
    let mut lic_done: bool = false;
    let ghost mut lic: LicScan = empty_lic_scan();
    let mut hi: usize = 0;
    while hi < header.len()
        invariant
            hi <= header@.len(),
            text::views_of(header@) == ms.header,
            lic == lic_fold(empty_lic_scan(), ms.header.take(hi as int)),
            crate::splits::opt_string_view(meet_name) == lic.meet,
            crate::splits::opt_string_view(venue) == lic.venue,
            found_license == lic.found,
            lic_done == lic.done,
        decreases header@.len() - hi,
    {
        proof {
            assert(ms.header.take(hi + 1) =~= ms.header.take(hi as int).push(
                ms.header[hi as int],
            ));
            lemma_lic_fold_push(empty_lic_scan(), ms.header.take(hi as int), ms.header[hi as int]);
        }
        let l = &header[hi];
        if lic_done {
        } else if text::contains_ci_str(l, "site license") || text::contains_ci_str(
            l,
            "license hy-tek",
        ) {
            found_license = true;
        } else if found_license && meet_name.is_none() {
            meet_name = Some(text::chars_to_string(l));
        } else if meet_name.is_some() && venue.is_none() {
            venue = Some(text::chars_to_string(l));
            lic_done = true;
        }
        proof {
            lic = lic_step(lic, ms.header[hi as int]);
        }
        hi = hi + 1;
    }
    proof {
        assert(ms.header.take(header@.len() as int) =~= ms.header);
    }
    if meet_name.is_none() {
        venue = if header.len() >= 1 {
            Some(text::chars_to_string(&header[0]))
        } else {
            None
        };
        meet_name = if header.len() >= 2 {
            Some(text::chars_to_string(&header[1]))
        } else {
            None
        };
    }
    let r = EventMetadata {
        venue,
        meet_name,
        event_headline: text::chars_to_string(&headline),
        records,
    };
    proof {
        assert(r@ =~= metadata_of_text(content@));
    }
    r
}

/// Extracts metadata from an HTML event page: the text of its first
/// preformatted block, when there is one, is scanned as a result block.
pub fn parse_event_metadata(html: &str) -> (r: Option<EventMetadata>)
    ensures
        (match r {
            Some(m) => html::tag_text_of(html@, "pre"@) matches Some(c) && m@ == metadata_of_text(
                c,
            ),
            None => html::tag_text_of(html@, "pre"@) is None,
        }),
{
    match html::first_tag_text(html, "pre") {
        Some(content) => Some(parse_event_metadata_text(content.as_str())),
        None => None,
    }
}

} // verus!
