//! Relay event parsing: team header lines, two-legs-per-line roster
//! packing, disqualification commentary lines, and the shared splits
//! extractor with the first reaction time reserved for the lead-off leg.
use vstd::prelude::*;
use vstd::string::StringExecFns;

use crate::event_handler::{self, year_scan};
use crate::html;
use crate::metadata::{EventMetadata, RaceInfo};
use crate::splits::{self, Split, SplitModel, SplitsState};
use crate::text;

verus! {

// ---------------------------------------------------------------------------
// Data structures
// ---------------------------------------------------------------------------

/// Individual swimmer within a relay team.
#[derive(Debug, Clone, PartialEq)]
pub struct RelaySwimmer {
    pub name: String,
    pub year: String,
    pub reaction_time: Option<String>,
}

/// Mathematical model of a relay leg.
#[verifier::ext_equal]
pub struct RelayLegModel {
    pub name: Seq<char>,
    pub year: Seq<char>,
    pub reaction_time: Option<Seq<char>>,
}

impl View for RelaySwimmer {
    type V = RelayLegModel;

    open spec fn view(&self) -> RelayLegModel {
        RelayLegModel {
            name: self.name@,
            year: self.year@,
            reaction_time: splits::opt_string_view(self.reaction_time),
        }
    }
}

pub open spec fn leg_views(s: Seq<RelaySwimmer>) -> Seq<RelayLegModel> {
    s.map_values(|x: RelaySwimmer| x@)
}

/// Relay team result.
#[derive(Debug, Clone, PartialEq)]
pub struct RelayTeam {
    pub place: Option<u8>,
    pub team_name: String,
    pub seed_time: Option<String>,
    pub final_time: String,
    pub dq_description: Option<String>,
    pub swimmers: Vec<RelaySwimmer>,
    pub splits: Vec<Split>,
}

/// Mathematical model of a relay team result.
#[verifier::ext_equal]
pub struct RelayTeamModel {
    pub place: Option<u8>,
    pub team_name: Seq<char>,
    pub seed_time: Option<Seq<char>>,
    pub final_time: Seq<char>,
    pub dq_description: Option<Seq<char>>,
    pub swimmers: Seq<RelayLegModel>,
    pub splits: Seq<SplitModel>,
}

impl View for RelayTeam {
    type V = RelayTeamModel;

    open spec fn view(&self) -> RelayTeamModel {
        RelayTeamModel {
            place: self.place,
            team_name: self.team_name@,
            seed_time: splits::opt_string_view(self.seed_time),
            final_time: self.final_time@,
            dq_description: splits::opt_string_view(self.dq_description),
            swimmers: leg_views(self.swimmers@),
            splits: splits::split_views(self.splits@),
        }
    }
}

pub open spec fn team_views(s: Seq<RelayTeam>) -> Seq<RelayTeamModel> {
    s.map_values(|x: RelayTeam| x@)
}

/// Complete relay event results with metadata.
#[derive(Debug)]
pub struct RelayResults {
    pub event_name: String,
    pub session: char,
    pub metadata: Option<EventMetadata>,
    pub race_info: Option<RaceInfo>,
    pub teams: Vec<RelayTeam>,
}

// ---------------------------------------------------------------------------
// Team header lines
// ---------------------------------------------------------------------------

/// A relay team header line: its first token is a placement or the `--`
/// marker, and the line holds no `) ` (which would make it a roster line).
pub open spec fn is_team_header_spec(l: Seq<char>) -> bool {
    let parts = text::split_ws(l);
    parts.len() > 0 && (text::all_digits(parts[0]) || parts[0] == seq!['-', '-'])
        && !text::has_paren_space(l)
}

fn is_team_header_chars(l: &Vec<char>) -> (r: bool)
    ensures
        r == is_team_header_spec(l@),
{
    let parts = text::split_ws_chars(l);
    if parts.len() == 0 {
        return false;
    }
    (text::all_digits_vec(&parts[0]) || event_handler::is_dashdash(&parts[0]))
        && !text::contains_paren_space(l)
}

/// Checks if a line starts a relay team result (place number or -- for DQ).
pub fn is_relay_team_line(line: &str) -> (r: bool)
    ensures
        r == is_team_header_spec(line@),
{
    let cs = text::str_to_chars(line);
    is_team_header_chars(&cs)
}

// ---------------------------------------------------------------------------
// Leg markers
// ---------------------------------------------------------------------------

/// First index of the three-character marker `c`, `)`, ` ` in `s`, or
/// `s.len()` when absent.
pub open spec fn marker3_idx(s: Seq<char>, c: char) -> int
    decreases s.len(),
{
    if s.len() < 3 {
        s.len() as int
    } else if s[0] == c && s[1] == ')' && s[2] == ' ' {
        0
    } else {
        1 + marker3_idx(s.drop_first(), c)
    }
}

pub open spec fn marker3_at(s: Seq<char>, c: char, j: int) -> bool {
    0 <= j && j + 2 < s.len() && s[j] == c && s[j + 1] == ')' && s[j + 2] == ' '
}

pub proof fn lemma_marker3(s: Seq<char>, c: char)
    ensures
        0 <= marker3_idx(s, c) <= s.len(),
        marker3_idx(s, c) < s.len() ==> marker3_at(s, c, marker3_idx(s, c)),
        forall|j: int| 0 <= j < marker3_idx(s, c) ==> !marker3_at(s, c, j),
    decreases s.len(),
{
    if s.len() < 3 {
        assert(forall|j: int| 0 <= j < s.len() ==> !marker3_at(s, c, j));
    } else if s[0] == c && s[1] == ')' && s[2] == ' ' {
    } else {
        lemma_marker3(s.drop_first(), c);
        let r = marker3_idx(s, c);
        if r < s.len() {
            assert(marker3_at(s.drop_first(), c, r - 1));
            assert(marker3_at(s, c, r));
        }
        assert forall|j: int| 0 <= j < r implies !marker3_at(s, c, j) by {
            if j == 0 {
            } else {
                assert(!marker3_at(s.drop_first(), c, j - 1));
                if marker3_at(s, c, j) {
                    assert(s.drop_first()[j - 1] == s[j]);
                    assert(s.drop_first()[j] == s[j + 1]);
                    assert(s.drop_first()[j + 1] == s[j + 2]);
                    assert(marker3_at(s.drop_first(), c, j - 1));
                }
            }
        }
    }
}

/// First occurrence of the marker `c`, `)`, ` ` in `v`, or `v.len()`.
#[verifier::loop_isolation(false)]
fn find_marker(v: &Vec<char>, c: char) -> (r: usize)
    ensures
        r == marker3_idx(v@, c),
{
    proof {
        lemma_marker3(v@, c);
    }
    let n = v.len();
    if n < 3 {
        return n;
    }
    let mut i: usize = 0;
    while i + 2 < n
        invariant
            i <= n - 2,
            n == v@.len(),
            forall|j: int| 0 <= j < i ==> !marker3_at(v@, c, j),
        decreases n - i,
    {
        if v[i] == c && v[i + 1] == ')' && v[i + 2] == ' ' {
            proof {
                assert(marker3_at(v@, c, i as int));
            }
            return i;
        }
        i = i + 1;
    }
    proof {
        assert(forall|j: int| 0 <= j < v@.len() ==> !marker3_at(v@, c, j));
        if marker3_idx(v@, c) < v@.len() {
            assert(marker3_at(v@, c, marker3_idx(v@, c)));
        }
    }
    n
}

/// Marker digit of leg `k`.
pub open spec fn leg_digit(k: int) -> char {
    if k == 1 {
        '1'
    } else if k == 2 {
        '2'
    } else if k == 3 {
        '3'
    } else {
        '4'
    }
}

/// Does the trimmed line open with a leg marker `1)` … `4)`?
pub open spec fn starts_leg_marker(t: Seq<char>) -> bool {
    t.len() >= 2 && '1' <= t[0] && t[0] <= '4' && t[1] == ')'
}

fn starts_leg_marker_chars(t: &Vec<char>) -> (r: bool)
    ensures
        r == starts_leg_marker(t@),
{
    t.len() >= 2 && '1' <= t[0] && t[0] <= '4' && t[1] == ')'
}

// ---------------------------------------------------------------------------
// One leg
// ---------------------------------------------------------------------------

/// One leg's info from its leg text: legs after the first may carry a
/// reaction token before the name; the first class-year token splits the
/// name from the year, and without one the whole text is the name.
pub open spec fn leg_of_text(t: Seq<char>, k: int) -> Option<RelayLegModel> {
    let ps = text::split_ws(t);
    if ps.len() == 0 {
        None
    } else {
        let has_rt = k > 1 && ps[0].len() > 0 && ps[0][0] == 'r';
        let rt: Option<Seq<char>> = if has_rt {
            Some(ps[0])
        } else {
            None
        };
        let si: int = if has_rt {
            1
        } else {
            0
        };
        if si >= ps.len() {
            None
        } else {
            match year_scan(ps, si, ps.len() as int) {
                Some(yi) => Some(
                    RelayLegModel {
                        name: text::join_sp(ps.subrange(si, yi)),
                        year: ps[yi],
                        reaction_time: rt,
                    },
                ),
                None => Some(
                    RelayLegModel {
                        name: text::join_sp(ps.subrange(si, ps.len() as int)),
                        year: Seq::<char>::empty(),
                        reaction_time: rt,
                    },
                ),
            }
        }
    }
}

/// Parses a single swimmer's info (name, year, reaction time).
#[verifier::loop_isolation(false)]
pub fn parse_single_relay_swimmer(tc: &Vec<char>, swimmer_num: usize) -> (r: Option<RelaySwimmer>)
    ensures
        (match r {
            Some(s) => leg_of_text(tc@, swimmer_num as int) == Some(s@),
            None => leg_of_text(tc@, swimmer_num as int) is None,
        }),
{
    let ps = text::split_ws_chars(tc);
    let ghost pv = text::views_of(ps@);
    let n = ps.len();
    if n == 0 {
        return None;
    }
    let has_rt = swimmer_num > 1 && ps[0].len() > 0 && ps[0][0] == 'r';
    let rt: Option<String> = if has_rt {
        Some(text::chars_to_string(&ps[0]))
    } else {
        None
    };
    let si: usize = if has_rt {
        1
    } else {
        0
    };
    if si >= n {
        return None;
    }
    let (name, year) = match event_handler::find_year_token(&ps, si, n) {
        Some(yi) => (text::join_range(&ps, si, yi), text::chars_to_string(&ps[yi])),
        None => (text::join_range(&ps, si, n), String::new()),
    };
    let s = RelaySwimmer { name: text::chars_to_string(&name), year, reaction_time: rt };
    proof {
        assert(s@ =~= leg_of_text(tc@, swimmer_num as int)->0);
    }
    Some(s)
}

/// The leg text of marker `k` on a trimmed roster line: from just after
/// the first well-preceded `k) ` marker to just before the next higher
/// marker, trimmed.
pub open spec fn leg_of_line(t: Seq<char>, k: int) -> Option<RelayLegModel> {
    let pos = marker3_idx(t, leg_digit(k));
    if pos >= t.len() {
        None
    } else if pos > 0 && !text::is_ws_char(t[pos - 1]) {
        None
    } else {
        let after = t.skip(pos + 2);
        let e2 = marker3_idx(after, '2');
        let e3 = marker3_idx(after, '3');
        let e4 = marker3_idx(after, '4');
        let end: int = if k == 1 {
            min3(e2, e3, e4)
        } else if k == 2 {
            if e3 <= e4 {
                e3
            } else {
                e4
            }
        } else if k == 3 {
            e4
        } else {
            after.len() as int
        };
        leg_of_text(text::trim_spec(after.take(end)), k)
    }
}

pub open spec fn min3(a: int, b: int, c: int) -> int {
    if a <= b && a <= c {
        a
    } else if b <= c {
        b
    } else {
        c
    }
}

fn min2_usize(a: usize, b: usize) -> (r: usize)
    ensures
        r == (if a <= b {
            a as int
        } else {
            b as int
        }),
{
    if a <= b {
        a
    } else {
        b
    }
}

/// One leg from a roster line already known to pass the roster gates.
#[verifier::loop_isolation(false)]
fn leg_from_line_chars(t: &Vec<char>, k: usize) -> (r: Option<RelaySwimmer>)
    requires
        1 <= k <= 4,
    ensures
        (match r {
            Some(s) => leg_of_line(t@, k as int) == Some(s@),
            None => leg_of_line(t@, k as int) is None,
        }),
{
    let c: char = if k == 1 {
        '1'
    } else if k == 2 {
        '2'
    } else if k == 3 {
        '3'
    } else {
        '4'
    };
    let n = t.len();
    let pos = find_marker(t, c);
    if pos >= n {
        return None;
    }
    if pos > 0 && !text::is_ws(t[pos - 1]) {
        return None;
    }
    proof {
        lemma_marker3(t@, c);
    }
    let after = text::subvec(t, pos + 2, n);
    proof {
        assert(after@ =~= t@.skip(pos + 2));
    }
    let an = after.len();
    let end: usize = if k == 1 {
        let e2 = find_marker(&after, '2');
        let e3 = find_marker(&after, '3');
        let e4 = find_marker(&after, '4');
        min2_usize(e2, min2_usize(e3, e4))
    } else if k == 2 {
        let e3 = find_marker(&after, '3');
        let e4 = find_marker(&after, '4');
        min2_usize(e3, e4)
    } else if k == 3 {
        find_marker(&after, '4')
    } else {
        an
    };
    proof {
        lemma_marker3(after@, '2');
        lemma_marker3(after@, '3');
        lemma_marker3(after@, '4');
    }
    let piece = text::subvec(&after, 0, end);
    proof {
        assert(piece@ =~= after@.take(end as int));
    }
    let legtext = text::trim_chars(&piece);
    parse_single_relay_swimmer(&legtext, k)
}


// ---------------------------------------------------------------------------
// Roster extraction
// ---------------------------------------------------------------------------

pub open spec fn empty_leg() -> RelayLegModel {
    RelayLegModel { name: Seq::<char>::empty(), year: Seq::<char>::empty(), reaction_time: None }
}

/// Four unresolved legs: a marker never found leaves its leg at this
/// default, a recoverable partial-parse state.
pub open spec fn empty_legs() -> Seq<RelayLegModel> {
    seq![empty_leg(), empty_leg(), empty_leg(), empty_leg()]
}

/// One line of the roster scan, on its trimmed form: a line without a
/// name-like letter (any letter but `r`) is a split line; a line not
/// opening with a leg marker is skipped; otherwise each leg found on the
/// line replaces the one collected so far.
pub open spec fn legs_step(legs: Seq<RelayLegModel>, l: Seq<char>) -> Seq<RelayLegModel> {
    let t = text::trim_spec(l);
    if !text::has_name_alpha(t) || !starts_leg_marker(t) {
        legs
    } else {
        let l1 = match leg_of_line(t, 1) {
            Some(m) => legs.update(0, m),
            None => legs,
        };
        let l2 = match leg_of_line(t, 2) {
            Some(m) => l1.update(1, m),
            None => l1,
        };
        let l3 = match leg_of_line(t, 3) {
            Some(m) => l2.update(2, m),
            None => l2,
        };
        match leg_of_line(t, 4) {
            Some(m) => l3.update(3, m),
            None => l3,
        }
    }
}

pub open spec fn legs_fold(legs: Seq<RelayLegModel>, lines: Seq<Seq<char>>) -> Seq<RelayLegModel>
    decreases lines.len(),
{
    if lines.len() == 0 {
        legs
    } else {
        legs_fold(legs_step(legs, lines[0]), lines.drop_first())
    }
}

pub proof fn lemma_legs_fold_push(legs: Seq<RelayLegModel>, lines: Seq<Seq<char>>, l: Seq<char>)
    ensures
        legs_fold(legs, lines.push(l)) == legs_step(legs_fold(legs, lines), l),
    decreases lines.len(),
{
    if lines.len() == 0 {
        reveal_with_fuel(legs_fold, 2);
        assert(lines.push(l)[0] == l);
        assert(lines.push(l).drop_first() =~= Seq::<Seq<char>>::empty());
    } else {
        assert(lines.push(l).drop_first() =~= lines.drop_first().push(l));
        assert(lines.push(l)[0] == lines[0]);
        lemma_legs_fold_push(legs_step(legs, lines[0]), lines.drop_first(), l);
    }
}

// ---------------------------------------------------------------------------
// Relay splits
// ---------------------------------------------------------------------------

/// One line of the relay split scan: blank lines and roster lines are
/// skipped; every other line feeds the shared extractor, keeping the
/// first reaction token for the lead-off leg.
pub open spec fn relay_splits_step(st: SplitsState, l: Seq<char>) -> SplitsState {
    let t = text::trim_spec(l);
    if t.len() == 0 {
        st
    } else if starts_leg_marker(t) {
        st
    } else {
        splits::splits_fold(st, text::split_ws(t), true)
    }
}

pub open spec fn relay_splits_lines(st: SplitsState, lines: Seq<Seq<char>>) -> SplitsState
    decreases lines.len(),
{
    if lines.len() == 0 {
        st
    } else {
        relay_splits_lines(relay_splits_step(st, lines[0]), lines.drop_first())
    }
}

pub proof fn lemma_relay_splits_push(st: SplitsState, lines: Seq<Seq<char>>, l: Seq<char>)
    ensures
        relay_splits_lines(st, lines.push(l)) == relay_splits_step(
            relay_splits_lines(st, lines),
            l,
        ),
    decreases lines.len(),
{
    if lines.len() == 0 {
        reveal_with_fuel(relay_splits_lines, 2);
        assert(lines.push(l)[0] == l);
        assert(lines.push(l).drop_first() =~= Seq::<Seq<char>>::empty());
    } else {
        assert(lines.push(l).drop_first() =~= lines.drop_first().push(l));
        assert(lines.push(l)[0] == lines[0]);
        lemma_relay_splits_push(relay_splits_step(st, lines[0]), lines.drop_first(), l);
    }
}

/// Extracts first swimmer reaction time and split times from the relay
/// lines `lines[from..to]`.
#[verifier::loop_isolation(false)]
fn scan_relay_splits(lines: &Vec<Vec<char>>, from: usize, to: usize) -> (r: (
    Option<String>,
    Vec<Split>,
))
    requires
        from <= to <= lines@.len(),
    ensures
        (splits::opt_string_view(r.0), splits::split_views(r.1@)) == relay_splits_lines(
            splits::empty_splits_state(),
            text::views_of(lines@).subrange(from as int, to as int),
        ),
{
    let mut reaction: Option<String> = None;
    let mut sps: Vec<Split> = Vec::new();
    let ghost mut gst: SplitsState = splits::empty_splits_state();
    let mut li: usize = from;
    while li < to
        invariant
            from <= li <= to <= lines@.len(),
            gst == relay_splits_lines(
                splits::empty_splits_state(),
                text::views_of(lines@).subrange(from as int, li as int),
            ),
            splits::opt_string_view(reaction) == gst.0,
            splits::split_views(sps@) == gst.1,
        decreases to - li,
    {
        proof {
            assert(text::views_of(lines@).subrange(from as int, li + 1) =~= text::views_of(
                lines@,
            ).subrange(from as int, li as int).push(lines@[li as int]@));
            lemma_relay_splits_push(
                splits::empty_splits_state(),
                text::views_of(lines@).subrange(from as int, li as int),
                lines@[li as int]@,
            );
        }
        let ghost line_st = gst;
        let t = text::trim_chars(&lines[li]);
        if t.len() == 0 {
        } else if starts_leg_marker_chars(&t) {
        } else {
            let toks = text::split_ws_chars(&t);
            let ghost tviews = text::views_of(toks@);
            let mut ti: usize = 0;
            while ti < toks.len()
                invariant
                    ti <= toks@.len(),
                    tviews == text::views_of(toks@),
                    gst == splits::splits_fold(line_st, tviews.take(ti as int), true),
                    splits::opt_string_view(reaction) == gst.0,
                    splits::split_views(sps@) == gst.1,
                decreases toks@.len() - ti,
            {
                let tok = &toks[ti];
                proof {
                    assert(tviews.take(ti + 1) =~= tviews.take(ti as int).push(tok@));
                    splits::lemma_splits_fold_push(line_st, tviews.take(ti as int), tok@, true);
                }
                if tok.len() == 0 {
                } else if tok[0] == '(' {
                } else if tok[0] == 'r' {
                    if reaction.is_none() {
                        reaction = Some(text::chars_to_string(tok));
                    }
                } else if !text::contains_char(tok, '(') && text::is_digit(tok[0])
                    && crate::utils::is_valid_time_chars(tok) && sps.len() < splits::MAX_SPLITS {
                    let d: u16 = ((sps.len() as u16) + 1) * 50;
                    let ghost old_sps = sps@;
                    sps.push(Split { distance: d, time: text::chars_to_string(tok) });
                    proof {
                        assert(splits::split_views(sps@) =~= splits::split_views(old_sps).push(
                            SplitModel { distance: d, time: tok@ },
                        ));
                    }
                }
                proof {
                    gst = splits::splits_step(gst, tok@, true);
                }
                ti = ti + 1;
            }
            proof {
                assert(tviews.take(toks@.len() as int) =~= tviews);
            }
        }
        proof {
            gst = relay_splits_step(line_st, lines@[li as int]@);
        }
        li = li + 1;
    }
    (reaction, sps)
}

// ---------------------------------------------------------------------------
// One team section
// ---------------------------------------------------------------------------

/// The disqualification description of a section, if any: the line right
/// after a disqualified team's header, trimmed, when it is non-empty,
/// holds a letter, and looks like neither a roster line nor a reaction or
/// split line.
pub open spec fn dq_description_of(lines: Seq<Seq<char>>, is_dq: bool) -> Option<Seq<char>> {
    if is_dq && lines.len() > 1 {
        let t = text::trim_spec(lines[1]);
        if t.len() > 0 && !(t.len() >= 2 && t[0] == '1' && t[1] == ')') && !(t.len() >= 2 && t[0]
            == 'r' && t[1] == ':') && !(t.len() >= 2 && t[0] == 'r' && t[1] == '+')
            && text::has_alpha(t) && !text::has_paren_space(t) {
            Some(t)
        } else {
            None
        }
    } else {
        None
    }
}

/// The relay team of one record section, if its header line parses.
/// Field extraction mirrors the individual parser but without a
/// class-year scan: the team name is everything between the place and the
/// first claimed tail field.  The lead-off leg's reaction time comes from
/// the split lines, not the roster.
pub open spec fn team_of_section(lines: Seq<Seq<char>>) -> Option<RelayTeamModel> {
    if lines.len() == 0 {
        None
    } else {
        let parts = text::split_ws(lines[0]);
        let n = parts.len() as int;
        if n < 3 {
            None
        } else {
            let is_dq = parts[0] == seq!['-', '-'];
            if !is_dq && !text::parses_uint(parts[0], 255) {
                None
            } else {
                let place: Option<u8> = if is_dq {
                    None
                } else {
                    Some(text::digits_val(text::uint_body(parts[0])) as u8)
                };
                let points_case = text::parses_uint(parts[n - 1], 255);
                if points_case && n < 4 {
                    None
                } else {
                    let team_end: int = if points_case {
                        n - 3
                    } else {
                        n - 2
                    };
                    let seed_time: Option<Seq<char>> = if points_case {
                        Some(parts[n - 3])
                    } else if crate::utils::is_dq_status_spec(parts[n - 1]) {
                        if n > 3 {
                            Some(parts[n - 2])
                        } else {
                            None
                        }
                    } else {
                        Some(parts[n - 2])
                    };
                    let dq_description = dq_description_of(lines, is_dq);
                    let start: int = if dq_description is Some {
                        2
                    } else {
                        1
                    };
                    let legs = legs_fold(empty_legs(), lines.skip(start));
                    let sp = relay_splits_lines(splits::empty_splits_state(), lines.skip(start));
                    Some(
                        RelayTeamModel {
                            place,
                            team_name: text::join_sp(parts.subrange(1, team_end)),
                            seed_time,
                            final_time: if points_case {
                                parts[n - 2]
                            } else {
                                parts[n - 1]
                            },
                            dq_description,
                            swimmers: legs.update(
                                0,
                                RelayLegModel {
                                    name: legs[0].name,
                                    year: legs[0].year,
                                    reaction_time: sp.0,
                                },
                            ),
                            splits: sp.1,
                        },
                    )
                }
            }
        }
    }
}

/// Parses the record section `lines[from..to]` into a relay team.
#[verifier::loop_isolation(false)]
pub fn parse_relay_team_section_chars(lines: &Vec<Vec<char>>, from: usize, to: usize) -> (r:
    Option<RelayTeam>)
    requires
        from <= to <= lines@.len(),
    ensures
        (match r {
            Some(t) => team_of_section(text::views_of(lines@).subrange(from as int, to as int))
                == Some(t@),
            None => team_of_section(text::views_of(lines@).subrange(from as int, to as int))
                is None,
        }),
{
    let ghost sec = text::views_of(lines@).subrange(from as int, to as int);
    if from == to {
        return None;
    }
    proof {
        assert(sec[0] == lines@[from as int]@);
    }
    let parts = text::split_ws_chars(&lines[from]);
    let n = parts.len();
    if n < 3 {
        return None;
    }
    let is_dq = event_handler::is_dashdash(&parts[0]);
    let place: Option<u8> = if is_dq {
        None
    } else {
        match text::parse_uint(&parts[0], 255) {
            Some(v) => Some(v as u8),
            None => {
                return None;
            },
        }
    };
    let points_case = match text::parse_uint(&parts[n - 1], 255) {
        Some(_) => true,
        None => false,
    };
    if points_case && n < 4 {
        return None;
    }
    let team_end: usize = if points_case {
        n - 3
    } else {
        n - 2
    };
    let seed_time: Option<String> = if points_case {
        Some(text::chars_to_string(&parts[n - 3]))
    } else if crate::utils::is_dq_status_chars(&parts[n - 1]) {
        if n > 3 {
            Some(text::chars_to_string(&parts[n - 2]))
        } else {
            None
        }
    } else {
        Some(text::chars_to_string(&parts[n - 2]))
    };
    let team_name = text::join_range(&parts, 1, team_end);
    let dq_chars: Option<Vec<char>> = if is_dq && to - from > 1 {
        proof {
            assert(sec[1] == lines@[from + 1]@);
        }
        let t1 = text::trim_chars(&lines[from + 1]);
        let looks_roster = t1.len() >= 2 && t1[0] == '1' && t1[1] == ')';
        let looks_rcolon = t1.len() >= 2 && t1[0] == 'r' && t1[1] == ':';
        let looks_rplus = t1.len() >= 2 && t1[0] == 'r' && t1[1] == '+';
        if t1.len() > 0 && !looks_roster && !looks_rcolon && !looks_rplus && text::contains_alpha(
            &t1,
        ) && !text::contains_paren_space(&t1) {
            Some(t1)
        } else {
            None
        }
    } else {
        None
    };
    let start: usize = if dq_chars.is_some() {
        from + 2
    } else {
        from + 1
    };
    proof {
        assert(sec.skip(if dq_chars is Some { 2int } else { 1int }) =~= text::views_of(
            lines@,
        ).subrange(start as int, to as int));
    }
    let mut legs: Vec<RelaySwimmer> = Vec::new();
    legs.push(RelaySwimmer { name: String::new(), year: String::new(), reaction_time: None });
    legs.push(RelaySwimmer { name: String::new(), year: String::new(), reaction_time: None });
    legs.push(RelaySwimmer { name: String::new(), year: String::new(), reaction_time: None });
    legs.push(RelaySwimmer { name: String::new(), year: String::new(), reaction_time: None });
    proof {
        assert(leg_views(legs@) =~= empty_legs());
    }
    let ghost mut glegs: Seq<RelayLegModel> = empty_legs();
    let mut li: usize = start;
    while li < to
        invariant
            start <= li <= to <= lines@.len(),
            glegs == legs_fold(
                empty_legs(),
                text::views_of(lines@).subrange(start as int, li as int),
            ),
            leg_views(legs@) == glegs,
            legs@.len() == 4,
        decreases to - li,
    {
        proof {
            assert(text::views_of(lines@).subrange(start as int, li + 1) =~= text::views_of(
                lines@,
            ).subrange(start as int, li as int).push(lines@[li as int]@));
            lemma_legs_fold_push(
                empty_legs(),
                text::views_of(lines@).subrange(start as int, li as int),
                lines@[li as int]@,
            );
        }
        let t = text::trim_chars(&lines[li]);
        if text::contains_name_alpha(&t) && starts_leg_marker_chars(&t) {
            match leg_from_line_chars(&t, 1) {
                Some(m) => {
                    let ghost ol = legs@;
                    let ghost mv = m@;
                    legs.set(0, m);
                    proof {
                        assert(leg_views(legs@) =~= leg_views(ol).update(0, mv));
                    }
                },
                None => {
                },
            }
            match leg_from_line_chars(&t, 2) {
                Some(m) => {
                    let ghost ol = legs@;
                    let ghost mv = m@;
                    legs.set(1, m);
                    proof {
                        assert(leg_views(legs@) =~= leg_views(ol).update(1, mv));
                    }
                },
                None => {
                },
            }
            match leg_from_line_chars(&t, 3) {
                Some(m) => {
                    let ghost ol = legs@;
                    let ghost mv = m@;
                    legs.set(2, m);
                    proof {
                        assert(leg_views(legs@) =~= leg_views(ol).update(2, mv));
                    }
                },
                None => {
                },
            }
            match leg_from_line_chars(&t, 4) {
                Some(m) => {
                    let ghost ol = legs@;
                    let ghost mv = m@;
                    legs.set(3, m);
                    proof {
                        assert(leg_views(legs@) =~= leg_views(ol).update(3, mv));
                    }
                },
                None => {
                },
            }
        }
        proof {
            glegs = legs_step(glegs, lines@[li as int]@);
            assert(leg_views(legs@) =~= glegs);
        }
        li = li + 1;
    }
    let (reaction, rsplits) = scan_relay_splits(lines, start, to);
    let new0 = RelaySwimmer {
        name: legs[0].name.clone(),
        year: legs[0].year.clone(),
        reaction_time: reaction,
    };
    let ghost ol = legs@;
    let ghost n0 = new0@;
    legs.set(0, new0);
    proof {
        assert(leg_views(legs@) =~= leg_views(ol).update(0, n0));
    }
    let team = RelayTeam {
        place,
        team_name: text::chars_to_string(&team_name),
        seed_time,
        final_time: text::chars_to_string(&parts[if points_case {
            n - 2
        } else {
            n - 1
        }]),
        dq_description: match dq_chars {
            Some(d) => Some(text::chars_to_string(&d)),
            None => None,
        },
        swimmers: legs,
        splits: rsplits,
    };
    proof {
        assert(team@ =~= team_of_section(sec)->0);
    }
    Some(team)
}

/// Parses a relay team section (main line + swimmers + splits) into a
/// RelayTeam.
#[verifier::loop_isolation(false)]
pub fn parse_relay_team_section(lines: &Vec<&str>) -> (r: Option<RelayTeam>)
    ensures
        (match r {
            Some(t) => team_of_section(text::str_views(lines@)) == Some(t@),
            None => team_of_section(text::str_views(lines@)) is None,
        }),
{
    let mut cl: Vec<Vec<char>> = Vec::new();
    let mut i: usize = 0;
    while i < lines.len()
        invariant
            i <= lines@.len(),
            text::views_of(cl@) == text::str_views(lines@).take(i as int),
        decreases lines@.len() - i,
    {
        let ghost old_cl = cl@;
        cl.push(text::str_to_chars(lines[i]));
        proof {
            assert(text::views_of(cl@) =~= text::views_of(old_cl).push(lines@[i as int]@));
            assert(text::str_views(lines@).take(i + 1) =~= text::str_views(lines@).take(
                i as int,
            ).push(lines@[i as int]@));
        }
        i = i + 1;
    }
    let m = cl.len();
    proof {
        assert(text::views_of(cl@).subrange(0, m as int) =~= text::str_views(lines@));
    }
    parse_relay_team_section_chars(&cl, 0, m)
}

pub proof fn lemma_legs_fold_len(legs: Seq<RelayLegModel>, lines: Seq<Seq<char>>)
    requires
        legs.len() == 4,
    ensures
        legs_fold(legs, lines).len() == 4,
    decreases lines.len(),
{
    if lines.len() > 0 {
        lemma_legs_fold_len(legs_step(legs, lines[0]), lines.drop_first());
    }
}

/// A parsed relay team always carries exactly four legs, however many of
/// them the roster text resolved: a missing marker leaves its leg empty,
/// it never shortens the roster.
pub proof fn lemma_team_has_four_legs(lines: Seq<Seq<char>>)
    ensures
        team_of_section(lines) matches Some(m) ==> m.swimmers.len() == 4,
{
    if team_of_section(lines) is Some {
        let is_dq = text::split_ws(lines[0])[0] == seq!['-', '-'];
        let start: int = if dq_description_of(lines, is_dq) is Some {
            2
        } else {
            1
        };
        lemma_legs_fold_len(empty_legs(), lines.skip(start));
    }
}

/// A relay team is unplaced exactly when its header line opened with the
/// disqualification marker.
pub proof fn lemma_team_place_iff_marker(lines: Seq<Seq<char>>)
    ensures
        team_of_section(lines) matches Some(m) ==> (m.place is None <==> text::split_ws(
            lines[0],
        )[0] == seq!['-', '-']),
{
}

// ---------------------------------------------------------------------------
// Section segmentation
// ---------------------------------------------------------------------------

/// The first index at or after `j` whose trimmed line is a team header,
/// or the end of the block.
pub open spec fn next_team_end(lines: Seq<Seq<char>>, j: int) -> int
    decreases lines.len() - j,
{
    if j >= lines.len() {
        lines.len() as int
    } else if is_team_header_spec(text::trim_spec(lines[j])) {
        j
    } else {
        next_team_end(lines, j + 1)
    }
}

pub proof fn lemma_next_team_end(lines: Seq<Seq<char>>, j: int)
    requires
        0 <= j <= lines.len(),
    ensures
        j <= next_team_end(lines, j) <= lines.len(),
    decreases lines.len() - j,
{
    if j < lines.len() && !is_team_header_spec(text::trim_spec(lines[j])) {
        lemma_next_team_end(lines, j + 1);
    }
}

/// The teams of a result block, scanning from line `i`.
pub open spec fn collect_teams(lines: Seq<Seq<char>>, i: int) -> Seq<RelayTeamModel>
    decreases lines.len() - i,
    when i >= 0
    via collect_teams_dec
{
    if i >= lines.len() {
        Seq::<RelayTeamModel>::empty()
    } else if is_team_header_spec(text::trim_spec(lines[i])) {
        let j = next_team_end(lines, i + 1);
        match team_of_section(lines.subrange(i, j)) {
            Some(m) => seq![m] + collect_teams(lines, j),
            None => collect_teams(lines, j),
        }
    } else {
        collect_teams(lines, i + 1)
    }
}

#[via_fn]
proof fn collect_teams_dec(lines: Seq<Seq<char>>, i: int) {
    if 0 <= i < lines.len() && is_team_header_spec(text::trim_spec(lines[i])) {
        lemma_next_team_end(lines, i + 1);
    }
}

/// The relay teams a whole result block yields.
pub open spec fn teams_of_text(content: Seq<char>) -> Seq<RelayTeamModel> {
    collect_teams(text::split_lines(content), 0)
}

fn is_team_header_at(lines: &Vec<Vec<char>>, j: usize) -> (r: bool)
    requires
        j < lines@.len(),
    ensures
        r == is_team_header_spec(text::trim_spec(lines@[j as int]@)),
{
    let t = text::trim_chars(&lines[j]);
    is_team_header_chars(&t)
}

/// Parses one result block's text into relay team results.
#[verifier::loop_isolation(false)]
pub fn parse_relay_text(content: &str) -> (r: Vec<RelayTeam>)
    ensures
        team_views(r@) == teams_of_text(content@),
{
    let lines = text::split_lines_str(content);
    let ghost lv = text::views_of(lines@);
    let mut teams: Vec<RelayTeam> = Vec::new();
    let mut i: usize = 0;
    while i < lines.len()
        invariant
            i <= lines@.len(),
            lv == text::views_of(lines@),
            team_views(teams@) + collect_teams(lv, i as int) == collect_teams(lv, 0),
        decreases lines@.len() - i,
    {
        if is_team_header_at(&lines, i) {
            let mut j: usize = i + 1;
            while j < lines.len() && !is_team_header_at(&lines, j)
                invariant
                    i + 1 <= j <= lines@.len(),
                    next_team_end(lv, i + 1) == next_team_end(lv, j as int),
                decreases lines@.len() - j,
            {
                j = j + 1;
            }
            proof {
                assert(next_team_end(lv, i + 1) == j as int);
            }
            match parse_relay_team_section_chars(&lines, i, j) {
                Some(tm) => {
                    let ghost old_t = teams@;
                    let ghost m = tm@;
                    teams.push(tm);
                    proof {
                        assert(team_views(teams@) =~= team_views(old_t).push(m));
                        assert(team_views(old_t).push(m) + collect_teams(lv, j as int)
                            =~= team_views(old_t) + (seq![m] + collect_teams(lv, j as int)));
                    }
                },
                None => {
                },
            }
            i = j;
        } else {
            i = i + 1;
        }
    }
    proof {
        assert(team_views(teams@) + collect_teams(lv, i as int) =~= team_views(teams@));
    }
    teams
}

/// Parses relay event HTML and extracts team results: the text of the
/// page's first preformatted block is the result block; a page without
/// one yields no teams.
pub fn parse_relay_event_html(
    html: &str,
    event_name: &str,
    session: char,
    metadata: Option<EventMetadata>,
    race_info: Option<RaceInfo>,
) -> (r: RelayResults)
    ensures
        r.event_name@ == event_name@,
        r.session == session,
        r.metadata == metadata,
        r.race_info == race_info,
        (match html::tag_text_of(html@, "pre"@) {
            Some(content) => team_views(r.teams@) == teams_of_text(content),
            None => r.teams@.len() == 0,
        }),
{
    let teams: Vec<RelayTeam> = match html::first_tag_text(html, "pre") {
        Some(content) => parse_relay_text(content.as_str()),
        None => Vec::new(),
    };
    RelayResults {
        event_name: String::from_str(event_name),
        session,
        metadata,
        race_info,
        teams,
    }
}

} // verus!
