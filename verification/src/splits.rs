//! Shared splits extractor: scans the continuation lines of a record
//! section, in token order, for cumulative split times and an optional
//! reaction time.
use vstd::prelude::*;

use crate::text;
use crate::utils;

verus! {

/// The most splits one record can hold: the largest count whose checkpoint
/// distance (fifty times the one-based index) still fits in sixteen bits.
pub const MAX_SPLITS: usize = 1310;

/// Cumulative split time at a distance.
#[derive(Debug, Clone, PartialEq)]
pub struct Split {
    pub distance: u16,
    pub time: String,
}

/// Mathematical model of a split: the distance and the characters of the
/// time token.
#[verifier::ext_equal]
pub struct SplitModel {
    pub distance: u16,
    pub time: Seq<char>,
}

impl View for Split {
    type V = SplitModel;

    open spec fn view(&self) -> SplitModel {
        SplitModel { distance: self.distance, time: self.time@ }
    }
}

pub open spec fn split_views(s: Seq<Split>) -> Seq<SplitModel> {
    s.map_values(|x: Split| x@)
}

pub open spec fn opt_string_view(o: Option<String>) -> Option<Seq<char>> {
    match o {
        Some(s) => Some(s@),
        None => None,
    }
}

// ---------------------------------------------------------------------------
// The extractor as a fold over the token stream
// ---------------------------------------------------------------------------

/// Extractor state: the reaction time seen so far and the splits collected
/// so far.
pub type SplitsState = (Option<Seq<char>>, Seq<SplitModel>);

pub open spec fn empty_splits_state() -> SplitsState {
    (None::<Seq<char>>, Seq::<SplitModel>::empty())
}

/// One token of the stream: tokens opening a parenthesis are interval
/// annotations and are skipped; tokens opening with `r` are reaction times
/// (`first_only` keeps the first for relays, the last otherwise); a token
/// opening with a digit that is a well-formed time and contains no
/// parenthesis becomes the next split, at distance fifty times its one-based
/// index.
pub open spec fn splits_step(st: SplitsState, t: Seq<char>, first_only: bool) -> SplitsState {
    if t.len() == 0 {
        st
    } else if t[0] == '(' {
        st
    } else if t[0] == 'r' {
        if first_only && st.0 is Some {
            st
        } else {
            (Some(t), st.1)
        }
    } else if !text::has_char(t, '(') && text::is_digit_char(t[0]) && utils::is_valid_time_spec(t)
        && st.1.len() < MAX_SPLITS {
        (st.0, st.1.push(SplitModel { distance: (50 * (st.1.len() + 1)) as u16, time: t }))
    } else {
        st
    }
}

pub open spec fn splits_fold(st: SplitsState, toks: Seq<Seq<char>>, first_only: bool) -> SplitsState
    decreases toks.len(),
{
    if toks.len() == 0 {
        st
    } else {
        splits_fold(splits_step(st, toks[0], first_only), toks.drop_first(), first_only)
    }
}

/// The extractor over whole lines: each line contributes its
/// whitespace-delimited tokens, in order.
pub open spec fn splits_over_lines(st: SplitsState, lines: Seq<Seq<char>>, first_only: bool)
    -> SplitsState
    decreases lines.len(),
{
    if lines.len() == 0 {
        st
    } else {
        splits_over_lines(
            splits_fold(st, text::split_ws(lines[0]), first_only),
            lines.drop_first(),
            first_only,
        )
    }
}

pub proof fn lemma_splits_fold_push(st: SplitsState, toks: Seq<Seq<char>>, t: Seq<char>, fo: bool)
    ensures
        splits_fold(st, toks.push(t), fo) == splits_step(splits_fold(st, toks, fo), t, fo),
    decreases toks.len(),
{
    if toks.len() == 0 {
        reveal_with_fuel(splits_fold, 2);
        assert(toks.push(t)[0] == t);
        assert(toks.push(t).drop_first() =~= Seq::<Seq<char>>::empty());
    } else {
        assert(toks.push(t).drop_first() =~= toks.drop_first().push(t));
        assert(toks.push(t)[0] == toks[0]);
        lemma_splits_fold_push(splits_step(st, toks[0], fo), toks.drop_first(), t, fo);
    }
}

pub proof fn lemma_splits_lines_push(st: SplitsState, lines: Seq<Seq<char>>, l: Seq<char>, fo: bool)
    ensures
        splits_over_lines(st, lines.push(l), fo) == splits_fold(
            splits_over_lines(st, lines, fo),
            text::split_ws(l),
            fo,
        ),
    decreases lines.len(),
{
    if lines.len() == 0 {
        reveal_with_fuel(splits_over_lines, 2);
        assert(lines.push(l)[0] == l);
        assert(lines.push(l).drop_first() =~= Seq::<Seq<char>>::empty());
    } else {
        assert(lines.push(l).drop_first() =~= lines.drop_first().push(l));
        assert(lines.push(l)[0] == lines[0]);
        lemma_splits_lines_push(splits_fold(st, text::split_ws(lines[0]), fo), lines.drop_first(), l, fo);
    }
}

// ---------------------------------------------------------------------------
// Invariants of the extracted splits
// ---------------------------------------------------------------------------

/// Every collected split stands at fifty times its one-based index, its time
/// opens with an ASCII digit and holds no parenthesis.
pub open spec fn good_splits(sp: Seq<SplitModel>) -> bool {
    &&& sp.len() <= MAX_SPLITS
    &&& forall|i: int|
        0 <= i < sp.len() ==> (#[trigger] sp[i]).distance == 50 * (i + 1) && sp[i].time.len() > 0
            && text::is_digit_char(sp[i].time[0]) && !text::has_char(sp[i].time, '(')
}

pub proof fn lemma_step_good(st: SplitsState, t: Seq<char>, fo: bool)
    requires
        good_splits(st.1),
    ensures
        good_splits(splits_step(st, t, fo).1),
{
}

pub proof fn lemma_fold_good(st: SplitsState, toks: Seq<Seq<char>>, fo: bool)
    requires
        good_splits(st.1),
    ensures
        good_splits(splits_fold(st, toks, fo).1),
    decreases toks.len(),
{
    if toks.len() > 0 {
        lemma_step_good(st, toks[0], fo);
        lemma_fold_good(splits_step(st, toks[0], fo), toks.drop_first(), fo);
    }
}

pub proof fn lemma_lines_good(st: SplitsState, lines: Seq<Seq<char>>, fo: bool)
    requires
        good_splits(st.1),
    ensures
        good_splits(splits_over_lines(st, lines, fo).1),
    decreases lines.len(),
{
    if lines.len() > 0 {
        lemma_fold_good(st, text::split_ws(lines[0]), fo);
        lemma_lines_good(splits_fold(st, text::split_ws(lines[0]), fo), lines.drop_first(), fo);
    }
}

/// The extractor is a pure function of its input: any two results drawn
/// from the same continuation lines are identical, splits and reaction
/// time alike — feeding the same lines twice yields the same split list.
pub proof fn lemma_extractor_deterministic(
    r1: SplitsState,
    r2: SplitsState,
    lines: Seq<Seq<char>>,
    fo: bool,
)
    requires
        r1 == splits_over_lines(empty_splits_state(), lines, fo),
        r2 == splits_over_lines(empty_splits_state(), lines, fo),
    ensures
        r1 == r2,
{
}

/// Distances of the extracted splits are `50, 100, 150, …`, with no gaps
/// and no duplicates, whatever count of cumulative-time tokens the
/// continuation lines hold.
pub proof fn lemma_split_distances(lines: Seq<Seq<char>>, fo: bool)
    ensures
        forall|i: int|
            0 <= i < splits_over_lines(empty_splits_state(), lines, fo).1.len()
                ==> (#[trigger] splits_over_lines(empty_splits_state(), lines, fo).1[i]).distance
                == 50 * (i + 1),
{
    lemma_lines_good(empty_splits_state(), lines, fo);
}

/// A token inside parentheses never appears as a split time: every stored
/// time opens with an ASCII digit and holds no parenthesis at all.
pub proof fn lemma_no_parenthesized_split(lines: Seq<Seq<char>>, fo: bool)
    ensures
        forall|i: int|
            0 <= i < splits_over_lines(empty_splits_state(), lines, fo).1.len() ==> {
                let t = (#[trigger] splits_over_lines(empty_splits_state(), lines, fo).1[i]).time;
                t.len() > 0 && text::is_digit_char(t[0]) && t[0] != '(' && !text::has_char(t, '(')
            },
{
    lemma_lines_good(empty_splits_state(), lines, fo);
}

// ---------------------------------------------------------------------------
// Executable scanner
// ---------------------------------------------------------------------------

/// Runs the extractor over `lines[from..to]`, with `first_only` choosing
/// whether the first or the last reaction token wins.
#[verifier::loop_isolation(false)]
pub fn scan_splits(lines: &Vec<Vec<char>>, from: usize, to: usize, first_only: bool) -> (r: (
    Option<String>,
    Vec<Split>,
))
    requires
        from <= to <= lines@.len(),
    ensures
        (opt_string_view(r.0), split_views(r.1@)) == splits_over_lines(
            empty_splits_state(),
            text::views_of(lines@).subrange(from as int, to as int),
            first_only,
        ),
{
    let ghost all = text::views_of(lines@).subrange(from as int, to as int);
    let mut reaction: Option<String> = None;
    let mut splits: Vec<Split> = Vec::new();
    let ghost mut gst: SplitsState = empty_splits_state();
    let mut li: usize = from;
    while li < to
        invariant
            from <= li <= to <= lines@.len(),
            gst == splits_over_lines(
                empty_splits_state(),
                text::views_of(lines@).subrange(from as int, li as int),
                first_only,
            ),
            opt_string_view(reaction) == gst.0,
            split_views(splits@) == gst.1,
        decreases to - li,
    {
        let toks = text::split_ws_chars(&lines[li]);
        let ghost tviews = text::views_of(toks@);
        let ghost line_st = gst;
        let mut ti: usize = 0;
        while ti < toks.len()
            invariant
                ti <= toks@.len(),
                tviews == text::views_of(toks@),
                gst == splits_fold(line_st, tviews.take(ti as int), first_only),
                opt_string_view(reaction) == gst.0,
                split_views(splits@) == gst.1,
            decreases toks@.len() - ti,
        {
            let t = &toks[ti];
            proof {
                assert(tviews.take(ti + 1) =~= tviews.take(ti as int).push(t@));
                lemma_splits_fold_push(line_st, tviews.take(ti as int), t@, first_only);
            }
            if t.len() == 0 {
            } else if t[0] == '(' {
            } else if t[0] == 'r' {
                if !(first_only && reaction.is_some()) {
                    reaction = Some(text::chars_to_string(t));
                }
            } else if !text::contains_char(t, '(') && text::is_digit(t[0])
                && utils::is_valid_time_chars(t) && splits.len() < MAX_SPLITS {
                let d: u16 = ((splits.len() as u16) + 1) * 50;
                let ghost old_splits = splits@;
                splits.push(Split { distance: d, time: text::chars_to_string(t) });
                proof {
                    assert(split_views(splits@) =~= split_views(old_splits).push(
                        SplitModel { distance: d, time: t@ },
                    ));
                }
            }
            proof {
                gst = splits_step(gst, t@, first_only);
            }
            ti = ti + 1;
        }
        proof {
            assert(tviews.take(toks@.len() as int) =~= tviews);
            assert(text::views_of(lines@).subrange(from as int, li + 1) =~= text::views_of(
                lines@,
            ).subrange(from as int, li as int).push(lines@[li as int]@));
            lemma_splits_lines_push(
                empty_splits_state(),
                text::views_of(lines@).subrange(from as int, li as int),
                lines@[li as int]@,
                first_only,
            );
        }
        li = li + 1;
    }
    (reaction, splits)
}

} // verus!
