//! Individual (non-relay) event parsing: segments a result block into
//! per-swimmer record sections and tokenizes each section's header line
//! into typed fields, working from both ends of the token list.
use vstd::prelude::*;
use vstd::string::StringExecFns;

use crate::html;
use crate::metadata::{EventMetadata, RaceInfo};
use crate::splits::{self, Split, SplitModel};
use crate::text;
use crate::utils;

verus! {

// ---------------------------------------------------------------------------
// Data structures
// ---------------------------------------------------------------------------

/// Individual swimmer result.
#[derive(Debug, Clone, PartialEq)]
pub struct Swimmer {
    pub place: Option<u8>,
    pub name: String,
    pub year: String,
    pub school: String,
    pub seed_time: Option<String>,
    pub final_time: String,
    pub reaction_time: Option<String>,
    pub splits: Vec<Split>,
}

/// Mathematical model of a swimmer result.
#[verifier::ext_equal]
pub struct SwimmerModel {
    pub place: Option<u8>,
    pub name: Seq<char>,
    pub year: Seq<char>,
    pub school: Seq<char>,
    pub seed_time: Option<Seq<char>>,
    pub final_time: Seq<char>,
    pub reaction_time: Option<Seq<char>>,
    pub splits: Seq<SplitModel>,
}

impl View for Swimmer {
    type V = SwimmerModel;

    open spec fn view(&self) -> SwimmerModel {
        SwimmerModel {
            place: self.place,
            name: self.name@,
            year: self.year@,
            school: self.school@,
            seed_time: splits::opt_string_view(self.seed_time),
            final_time: self.final_time@,
            reaction_time: splits::opt_string_view(self.reaction_time),
            splits: splits::split_views(self.splits@),
        }
    }
}

pub open spec fn swimmer_views(s: Seq<Swimmer>) -> Seq<SwimmerModel> {
    s.map_values(|x: Swimmer| x@)
}

/// Complete event results with metadata.
#[derive(Debug)]
pub struct EventResults {
    pub event_name: String,
    pub session: char,
    pub metadata: Option<EventMetadata>,
    pub race_info: Option<RaceInfo>,
    pub swimmers: Vec<Swimmer>,
}

// ---------------------------------------------------------------------------
// Header lines
// ---------------------------------------------------------------------------

/// A section-header line: its first whitespace-delimited token is either
/// all digits (a placement) or the `--` disqualification marker.
pub open spec fn is_header_line_spec(l: Seq<char>) -> bool {
    let parts = text::split_ws(l);
    parts.len() > 0 && (text::all_digits(parts[0]) || parts[0] == seq!['-', '-'])
}

pub(crate) fn is_dashdash(t: &Vec<char>) -> (r: bool)
    ensures
        r == (t@ == seq!['-', '-']),
{
    let r = t.len() == 2 && t[0] == '-' && t[1] == '-';
    proof {
        if r {
            assert(t@ =~= seq!['-', '-']);
        }
    }
    r
}

fn is_header_chars(l: &Vec<char>) -> (r: bool)
    ensures
        r == is_header_line_spec(l@),
{
    let parts = text::split_ws_chars(l);
    if parts.len() == 0 {
        false
    } else {
        text::all_digits_vec(&parts[0]) || is_dashdash(&parts[0])
    }
}

/// Checks if a line starts a swimmer result (place number or -- for DQ).
pub fn is_swimmer_line(line: &str) -> (r: bool)
    ensures
        r == is_header_line_spec(line@),
{
    let cs = text::str_to_chars(line);
    is_header_chars(&cs)
}

// ---------------------------------------------------------------------------
// One record section
// ---------------------------------------------------------------------------

/// First index in `[from, to)` whose token is a class-year token.
pub open spec fn year_scan(parts: Seq<Seq<char>>, from: int, to: int) -> Option<int>
    decreases to - from,
{
    if from < 0 || from >= to {
        None
    } else if utils::is_year_pattern_spec(parts[from]) {
        Some(from)
    } else {
        year_scan(parts, from + 1, to)
    }
}

/// First class-year token in `parts[from..to]`, as an executable scan.
#[verifier::loop_isolation(false)]
pub fn find_year_token(parts: &Vec<Vec<char>>, from: usize, to: usize) -> (r: Option<usize>)
    requires
        to <= parts@.len(),
    ensures
        (match r {
            Some(i) => year_scan(text::views_of(parts@), from as int, to as int) == Some(i as int)
                && from <= i < to,
            None => year_scan(text::views_of(parts@), from as int, to as int) is None,
        }),
{
    let ghost pv = text::views_of(parts@);
    let mut yi: usize = from;
    if from >= to {
        return None;
    }
    while yi < to && !utils::is_year_pattern_chars(&parts[yi])
        invariant
            from <= yi <= to,
            year_scan(pv, from as int, to as int) == year_scan(pv, yi as int, to as int),
        decreases to - yi,
    {
        yi = yi + 1;
    }
    if yi >= to {
        None
    } else {
        Some(yi)
    }
}

/// The swimmer of one record section, if its header line parses: field
/// extraction works from both ends of the token list.  The header needs at
/// least five tokens; a final token that parses as a small integer is a
/// points field and shifts the seed and final times left by one; the first
/// class-year token between the place and the claimed tail fields splits
/// the name from the school; continuation lines yield the reaction time
/// and splits.
pub open spec fn swimmer_of_section(lines: Seq<Seq<char>>) -> Option<SwimmerModel> {
    if lines.len() == 0 {
        None
    } else {
        let parts = text::split_ws(lines[0]);
        let n = parts.len() as int;
        if n < 5 {
            None
        } else {
            let is_dq = parts[0] == seq!['-', '-'];
            if !is_dq && !text::parses_uint(parts[0], 255) {
                None
            } else {
                let place: Option<u8> = if is_dq {
                    None
                } else {
                    Some(text::digits_val(text::uint_body(parts[0])) as u8)
                };
                let points_case = text::parses_uint(parts[n - 1], 255);
                let end_offset: int = if points_case {
                    3
                } else {
                    2
                };
                match year_scan(parts, 1, n - end_offset) {
                    None => None,
                    Some(yi) => {
                        let sp = splits::splits_over_lines(
                            splits::empty_splits_state(),
                            lines.skip(1),
                            false,
                        );
                        Some(
                            SwimmerModel {
                                place,
                                name: text::join_sp(parts.subrange(1, yi)),
                                year: parts[yi],
                                school: text::join_sp(parts.subrange(yi + 1, n - end_offset)),
                                seed_time: if points_case {
                                    Some(parts[n - 3])
                                } else {
                                    Some(parts[n - 2])
                                },
                                final_time: if points_case {
                                    parts[n - 2]
                                } else {
                                    parts[n - 1]
                                },
                                reaction_time: sp.0,
                                splits: sp.1,
                            },
                        )
                    },
                }
            }
        }
    }
}

/// Parses the record section `lines[from..to]` into a swimmer.
#[verifier::loop_isolation(false)]
pub fn parse_swimmer_section_chars(lines: &Vec<Vec<char>>, from: usize, to: usize) -> (r: Option<
    Swimmer,
>)
    requires
        from <= to <= lines@.len(),
    ensures
        (match r {
            Some(s) => swimmer_of_section(text::views_of(lines@).subrange(from as int, to as int))
                == Some(s@),
            None => swimmer_of_section(text::views_of(lines@).subrange(from as int, to as int))
                is None,
        }),
{
    let ghost sec = text::views_of(lines@).subrange(from as int, to as int);
    if from == to {
        return None;
    }
    proof {
        assert(sec[0] == lines@[from as int]@);
    }
    let parts = text::split_ws_chars(&lines[from]);
    let ghost pv = text::views_of(parts@);
    let n = parts.len();
    if n < 5 {
        return None;
    }
    let is_dq = is_dashdash(&parts[0]);
    let place: Option<u8> = if is_dq {
        None
    } else {
        match text::parse_uint(&parts[0], 255) {
            Some(v) => Some(v as u8),
            None => {
                return None;
            },
        }
    };
    let points_case = match text::parse_uint(&parts[n - 1], 255) {
        Some(_) => true,
        None => false,
    };
    let eo: usize = if points_case {
        3
    } else {
        2
    };
    let to_idx = n - eo;
    let yi: usize = match find_year_token(&parts, 1, to_idx) {
        Some(i) => i,
        None => {
            return None;
        },
    };
    let name = text::join_range(&parts, 1, yi);
    let school = text::join_range(&parts, yi + 1, to_idx);
    let (reaction, sp) = splits::scan_splits(lines, from + 1, to, false);
    proof {
        assert(sec.skip(1) =~= text::views_of(lines@).subrange(from + 1, to as int));
    }
    let s = Swimmer {
        place,
        name: text::chars_to_string(&name),
        year: text::chars_to_string(&parts[yi]),
        school: text::chars_to_string(&school),
        seed_time: Some(text::chars_to_string(&parts[if points_case {
            n - 3
        } else {
            n - 2
        }])),
        final_time: text::chars_to_string(&parts[if points_case {
            n - 2
        } else {
            n - 1
        }]),
        reaction_time: reaction,
        splits: sp,
    };
    proof {
        assert(s@ =~= swimmer_of_section(sec)->0);
    }
    Some(s)
}

/// Parses a swimmer section (main line + split lines) into a Swimmer.
#[verifier::loop_isolation(false)]
pub fn parse_swimmer_section(lines: &Vec<&str>) -> (r: Option<Swimmer>)
    ensures
        (match r {
            Some(s) => swimmer_of_section(text::str_views(lines@)) == Some(s@),
            None => swimmer_of_section(text::str_views(lines@)) is None,
        }),
{
    let mut cl: Vec<Vec<char>> = Vec::new();
    let mut i: usize = 0;
    while i < lines.len()
        invariant
            i <= lines@.len(),
            text::views_of(cl@) == text::str_views(lines@).take(i as int),
        decreases lines@.len() - i,
    {
        let ghost old_cl = cl@;
        cl.push(text::str_to_chars(lines[i]));
        proof {
            assert(text::views_of(cl@) =~= text::views_of(old_cl).push(lines@[i as int]@));
            assert(text::str_views(lines@).take(i + 1) =~= text::str_views(lines@).take(
                i as int,
            ).push(lines@[i as int]@));
        }
        i = i + 1;
    }
    let m = cl.len();
    proof {
        assert(text::views_of(cl@).subrange(0, m as int) =~= text::str_views(lines@));
    }
    parse_swimmer_section_chars(&cl, 0, m)
}

/// A swimmer is unplaced exactly when the header line opened with the
/// disqualification marker; absence does not mean unplaced, it means
/// disqualified or no result.
pub proof fn lemma_swimmer_place_iff_marker(lines: Seq<Seq<char>>)
    ensures
        swimmer_of_section(lines) matches Some(m) ==> (m.place is None <==> text::split_ws(
            lines[0],
        )[0] == seq!['-', '-']),
{
}

// ---------------------------------------------------------------------------
// Section segmentation
// ---------------------------------------------------------------------------

/// The first index at or after `j` holding a section-header line, or the
/// end of the block.
pub open spec fn next_section_end(lines: Seq<Seq<char>>, j: int) -> int
    decreases lines.len() - j,
{
    if j >= lines.len() {
        lines.len() as int
    } else if is_header_line_spec(lines[j]) {
        j
    } else {
        next_section_end(lines, j + 1)
    }
}

pub proof fn lemma_next_section_end(lines: Seq<Seq<char>>, j: int)
    requires
        0 <= j <= lines.len(),
    ensures
        j <= next_section_end(lines, j) <= lines.len(),
    decreases lines.len() - j,
{
    if j < lines.len() && !is_header_line_spec(lines[j]) {
        lemma_next_section_end(lines, j + 1);
    }
}

/// The swimmers of a result block, scanning from line `i`: each
/// section-header line opens a section running to the next header line or
/// the end, and each section that parses contributes one swimmer, in
/// order.
pub open spec fn collect_swimmers(lines: Seq<Seq<char>>, i: int) -> Seq<SwimmerModel>
    decreases lines.len() - i,
    when i >= 0
    via collect_swimmers_dec
{
    if i >= lines.len() {
        Seq::<SwimmerModel>::empty()
    } else if is_header_line_spec(lines[i]) {
        let j = next_section_end(lines, i + 1);
        match swimmer_of_section(lines.subrange(i, j)) {
            Some(m) => seq![m] + collect_swimmers(lines, j),
            None => collect_swimmers(lines, j),
        }
    } else {
        collect_swimmers(lines, i + 1)
    }
}

#[via_fn]
proof fn collect_swimmers_dec(lines: Seq<Seq<char>>, i: int) {
    if 0 <= i < lines.len() && is_header_line_spec(lines[i]) {
        lemma_next_section_end(lines, i + 1);
    }
}

/// The swimmers a whole result block yields.
pub open spec fn swimmers_of_text(content: Seq<char>) -> Seq<SwimmerModel> {
    collect_swimmers(text::split_lines(content), 0)
}

/// Parses one result block's text into swimmer results.
#[verifier::loop_isolation(false)]
pub fn parse_individual_text(content: &str) -> (r: Vec<Swimmer>)
    ensures
        swimmer_views(r@) == swimmers_of_text(content@),
{
    let lines = text::split_lines_str(content);
    let ghost lv = text::views_of(lines@);
    let mut swimmers: Vec<Swimmer> = Vec::new();
    let mut i: usize = 0;
    while i < lines.len()
        invariant
            i <= lines@.len(),
            lv == text::views_of(lines@),
            swimmer_views(swimmers@) + collect_swimmers(lv, i as int) == collect_swimmers(lv, 0),
        decreases lines@.len() - i,
    {
        if is_header_chars(&lines[i]) {
            let mut j: usize = i + 1;
            while j < lines.len() && !is_header_chars(&lines[j])
                invariant
                    i + 1 <= j <= lines@.len(),
                    next_section_end(lv, i + 1) == next_section_end(lv, j as int),
                decreases lines@.len() - j,
            {
                j = j + 1;
            }
            proof {
                assert(next_section_end(lv, i + 1) == j as int);
            }
            match parse_swimmer_section_chars(&lines, i, j) {
                Some(sw) => {
                    let ghost old_s = swimmers@;
                    let ghost m = sw@;
                    swimmers.push(sw);
                    proof {
                        assert(swimmer_views(swimmers@) =~= swimmer_views(old_s).push(m));
                        assert(swimmer_views(old_s).push(m) + collect_swimmers(lv, j as int)
                            =~= swimmer_views(old_s) + (seq![m] + collect_swimmers(lv, j as int)));
                    }
                },
                None => {
                },
            }
            i = j;
        } else {
            i = i + 1;
        }
    }
    proof {
        assert(swimmer_views(swimmers@) + collect_swimmers(lv, i as int) =~= swimmer_views(
            swimmers@,
        ));
    }
    swimmers
}

/// Parses individual (non-relay) event HTML and extracts swimmer results:
/// the text of the page's first preformatted block is the result block; a
/// page without one yields no swimmers.
pub fn parse_individual_event_html(
    html: &str,
    event_name: &str,
    session: char,
    metadata: Option<EventMetadata>,
    race_info: Option<RaceInfo>,
) -> (r: EventResults)
    ensures
        r.event_name@ == event_name@,
        r.session == session,
        r.metadata == metadata,
        r.race_info == race_info,
        (match html::tag_text_of(html@, "pre"@) {
            Some(content) => swimmer_views(r.swimmers@) == swimmers_of_text(content),
            None => r.swimmers@.len() == 0,
        }),
{
    let swimmers: Vec<Swimmer> = match html::first_tag_text(html, "pre") {
        Some(content) => parse_individual_text(content.as_str()),
        None => Vec::new(),
    };
    EventResults {
        event_name: String::from_str(event_name),
        session,
        metadata,
        race_info,
        swimmers,
    }
}


// ---------------------------------------------------------------------------
// Recovery of a well-formed header
// ---------------------------------------------------------------------------

pub proof fn lemma_year_scan_hits(parts: Seq<Seq<char>>, from: int, to: int, k: int)
    requires
        0 <= from <= k < to,
        utils::is_year_pattern_spec(parts[k]),
        forall|j: int| from <= j < k ==> !utils::is_year_pattern_spec(#[trigger] parts[j]),
    ensures
        year_scan(parts, from, to) == Some(k),
    decreases k - from,
{
    if from < k {
        lemma_year_scan_hits(parts, from + 1, to, k);
    }
}

/// A record section whose header line is well formed — a numeric place, a
/// name, a two-character class year, a school, seed and final times and a
/// points field, joined with spaces — parses, and the parser recovers all
/// seven fields exactly; the continuation lines yield the reaction time
/// and splits.  The name must hold no class-year-shaped word (the year is
/// the first such token), and the place and points must fit the small
/// integers the sheet uses.
pub proof fn lemma_well_formed_header_recovered(
    place_tok: Seq<char>,
    name_toks: Seq<Seq<char>>,
    year_tok: Seq<char>,
    school_toks: Seq<Seq<char>>,
    seed_tok: Seq<char>,
    final_tok: Seq<char>,
    points_tok: Seq<char>,
    conts: Seq<Seq<char>>,
)
    requires
        text::is_word(place_tok),
        text::all_digits(place_tok),
        text::parses_uint(place_tok, 255),
        name_toks.len() > 0,
        forall|i: int|
            0 <= i < name_toks.len() ==> text::is_word(#[trigger] name_toks[i])
                && !utils::is_year_pattern_spec(name_toks[i]),
        text::is_word(year_tok),
        utils::is_year_pattern_spec(year_tok),
        school_toks.len() > 0,
        forall|i: int| 0 <= i < school_toks.len() ==> text::is_word(#[trigger] school_toks[i]),
        text::is_word(seed_tok),
        text::is_word(final_tok),
        text::is_word(points_tok),
        text::parses_uint(points_tok, 255),
    ensures
        ({
            let toks = seq![place_tok] + name_toks + seq![year_tok] + school_toks + seq![
                seed_tok,
                final_tok,
                points_tok,
            ];
            let header = text::join_sp(toks);
            let sp = splits::splits_over_lines(splits::empty_splits_state(), conts, false);
            swimmer_of_section(seq![header] + conts) == Some(
                SwimmerModel {
                    place: Some(text::digits_val(place_tok) as u8),
                    name: text::join_sp(name_toks),
                    year: year_tok,
                    school: text::join_sp(school_toks),
                    seed_time: Some(seed_tok),
                    final_time: final_tok,
                    reaction_time: sp.0,
                    splits: sp.1,
                },
            )
        }),
{
    let toks = seq![place_tok] + name_toks + seq![year_tok] + school_toks + seq![
        seed_tok,
        final_tok,
        points_tok,
    ];
    let header = text::join_sp(toks);
    let lines = seq![header] + conts;
    let nn = name_toks.len() as int;
    let ns = school_toks.len() as int;
    let n = toks.len() as int;
    assert(n == nn + ns + 5);
    assert(toks[0] == place_tok);
    assert(forall|j: int| 0 <= j < nn ==> toks[1 + j] == name_toks[j]);
    assert(toks[1 + nn] == year_tok);
    assert(forall|j: int| 0 <= j < ns ==> toks[2 + nn + j] == school_toks[j]);
    assert(toks[n - 3] == seed_tok);
    assert(toks[n - 2] == final_tok);
    assert(toks[n - 1] == points_tok);
    assert(forall|i: int| 0 <= i < toks.len() ==> text::is_word(#[trigger] toks[i]));
    text::lemma_split_ws_join(toks);
    assert(lines.len() > 0);
    assert(lines[0] == header);
    let parts = text::split_ws(lines[0]);
    assert(parts == toks);
    assert(!(parts[0] == seq!['-', '-'])) by {
        if parts[0] == seq!['-', '-'] {
            assert(place_tok[0] == '-');
            assert(text::is_digit_char(place_tok[0]));
        }
    }
    assert(text::uint_body(place_tok) == place_tok) by {
        if place_tok[0] == '+' {
            assert(text::is_digit_char(place_tok[0]));
        }
    }
    lemma_year_scan_hits(parts, 1, n - 3, 1 + nn);
    assert(parts.subrange(1, 1 + nn) =~= name_toks);
    assert(parts.subrange(2 + nn, n - 3) =~= school_toks);
    assert(lines.skip(1) =~= conts);
    assert(swimmer_of_section(lines) matches Some(m) && m =~= SwimmerModel {
        place: Some(text::digits_val(place_tok) as u8),
        name: text::join_sp(name_toks),
        year: year_tok,
        school: text::join_sp(school_toks),
        seed_time: Some(seed_tok),
        final_time: final_tok,
        reaction_time: splits::splits_over_lines(splits::empty_splits_state(), conts, false).0,
        splits: splits::splits_over_lines(splits::empty_splits_state(), conts, false).1,
    });
}

} // verus!
