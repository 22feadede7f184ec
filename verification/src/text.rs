//! Character-level helpers shared by every parser in the crate: character
//! classes, whitespace tokenization, trimming, joining, integer parsing and
//! substring search, each with a specification-level definition.
use vstd::prelude::*;

verus! {

// ---------------------------------------------------------------------------
// Character classes
// ---------------------------------------------------------------------------

/// ASCII whitespace: space, tab, line feed, form feed, carriage return.
pub open spec fn is_ws_char(c: char) -> bool {
    c == ' ' || c == '\t' || c == '\n' || c == '\u{c}' || c == '\r'
}

pub open spec fn is_digit_char(c: char) -> bool {
    '0' <= c && c <= '9'
}

pub open spec fn is_alpha_char(c: char) -> bool {
    ('A' <= c && c <= 'Z') || ('a' <= c && c <= 'z')
}

/// Numeric value of an ASCII digit.
pub open spec fn digit_val(c: char) -> int {
    c as int - '0' as int
}

/// The code point of `c` with an ASCII upper-case letter folded to lower
/// case; used for case-insensitive comparison.
pub open spec fn lower_val(c: char) -> int {
    if 'A' <= c && c <= 'Z' {
        c as int + 32
    } else {
        c as int
    }
}

/// Case-insensitive (ASCII) character equality.
pub open spec fn eqi_char(a: char, b: char) -> bool {
    lower_val(a) == lower_val(b)
}

#[verifier::loop_isolation(false)]
pub fn is_ws(c: char) -> (b: bool)
    ensures
        b == is_ws_char(c),
{
    c == ' ' || c == '\t' || c == '\n' || c == '\u{c}' || c == '\r'
}

#[verifier::loop_isolation(false)]
pub fn is_digit(c: char) -> (b: bool)
    ensures
        b == is_digit_char(c),
{
    '0' <= c && c <= '9'
}

#[verifier::loop_isolation(false)]
pub fn is_alpha(c: char) -> (b: bool)
    ensures
        b == is_alpha_char(c),
{
    ('A' <= c && c <= 'Z') || ('a' <= c && c <= 'z')
}

#[verifier::loop_isolation(false)]
pub fn eqi(a: char, b: char) -> (r: bool)
    ensures
        r == eqi_char(a, b),
{
    let ua = a as u32;
    let ub = b as u32;
    let la = if 'A' <= a && a <= 'Z' {
        ua + 32
    } else {
        ua
    };
    let lb = if 'A' <= b && b <= 'Z' {
        ub + 32
    } else {
        ub
    };
    la == lb
}

// ---------------------------------------------------------------------------
// Strings and character vectors
// ---------------------------------------------------------------------------

/// The characters of a string, as a vector.
#[verifier::loop_isolation(false)]
pub fn str_to_chars(s: &str) -> (r: Vec<char>)
    ensures
        r@ == s@,
{
    let n = s.unicode_len();
    let mut r: Vec<char> = Vec::new();
    let mut i: usize = 0;
    while i < n
        invariant
            n == s@.len(),
            i <= n,
            r@ == s@.take(i as int),
        decreases n - i,
    {
        let c = s.get_char(i);
        r.push(c);
        i = i + 1;
        proof {
            assert(r@ =~= s@.take(i as int));
        }
    }
    proof {
        assert(s@.take(n as int) =~= s@);
    }
    r
}

/// Relies on `core::iter::Iterator::collect` for `String`: collecting a
/// sequence of characters yields the string of exactly those characters.
#[verifier::external_body]
#[verifier::loop_isolation(false)]
pub fn chars_to_string(v: &Vec<char>) -> (s: String)
    ensures
        s@ == v@,
{
    v.iter().collect()
}

/// Views of a sequence of character vectors.
pub open spec fn views_of(ts: Seq<Vec<char>>) -> Seq<Seq<char>> {
    ts.map_values(|t: Vec<char>| t@)
}

/// Views of a sequence of strings.
pub open spec fn string_views(ts: Seq<String>) -> Seq<Seq<char>> {
    ts.map_values(|t: String| t@)
}

/// Views of a sequence of string slices.
pub open spec fn str_views(ls: Seq<&str>) -> Seq<Seq<char>> {
    ls.map_values(|l: &str| l@)
}

// ---------------------------------------------------------------------------
// URL suffix helpers
// ---------------------------------------------------------------------------

/// `s` with every trailing `/` removed.
pub open spec fn strip_trailing_slashes(s: Seq<char>) -> Seq<char>
    decreases s.len(),
{
    if s.len() > 0 && s.last() == '/' {
        strip_trailing_slashes(s.drop_last())
    } else {
        s
    }
}

/// Does `s` end in `.htm`?
pub open spec fn ends_htm(s: Seq<char>) -> bool {
    s.len() >= 4 && s[s.len() - 4] == '.' && s[s.len() - 3] == 'h' && s[s.len() - 2] == 't'
        && s[s.len() - 1] == 'm'
}

#[verifier::loop_isolation(false)]
pub fn strip_slashes_chars(v: &Vec<char>) -> (r: Vec<char>)
    ensures
        r@ == strip_trailing_slashes(v@),
{
    let mut end: usize = v.len();
    proof {
        assert(v@.take(v@.len() as int) =~= v@);
    }
    while end > 0 && v[end - 1] == '/'
        invariant
            end <= v.len(),
            strip_trailing_slashes(v@) == strip_trailing_slashes(v@.take(end as int)),
        decreases end,
    {
        proof {
            assert(v@.take(end as int).drop_last() =~= v@.take(end - 1));
        }
        end = end - 1;
    }
    let mut r: Vec<char> = Vec::new();
    let mut i: usize = 0;
    while i < end
        invariant
            i <= end <= v.len(),
            r@ == v@.take(end as int).take(i as int),
        decreases end - i,
    {
        r.push(v[i]);
        proof {
            assert(v@.take(end as int).take(i + 1) =~= v@.take(end as int).take(i as int).push(
                v@[i as int],
            ));
        }
        i = i + 1;
    }
    proof {
        assert(v@.take(end as int).take(end as int) =~= v@.take(end as int));
        if end == 0 {
            assert(strip_trailing_slashes(v@.take(0)) =~= v@.take(0));
        }
    }
    r
}

#[verifier::loop_isolation(false)]
pub fn ends_htm_chars(v: &Vec<char>) -> (b: bool)
    ensures
        b == ends_htm(v@),
{
    let n = v.len();
    n >= 4 && v[n - 4] == '.' && v[n - 3] == 'h' && v[n - 2] == 't' && v[n - 1] == 'm'
}

/// A copy of `v[from..to]`.
#[verifier::loop_isolation(false)]
pub fn subvec(v: &Vec<char>, from: usize, to: usize) -> (r: Vec<char>)
    requires
        from <= to <= v@.len(),
    ensures
        r@ == v@.subrange(from as int, to as int),
{
    let mut r: Vec<char> = Vec::new();
    let mut i: usize = from;
    while i < to
        invariant
            from <= i <= to <= v@.len(),
            r@ == v@.subrange(from as int, i as int),
        decreases to - i,
    {
        r.push(v[i]);
        proof {
            assert(v@.subrange(from as int, i + 1) =~= v@.subrange(from as int, i as int).push(
                v@[i as int],
            ));
        }
        i = i + 1;
    }
    r
}

// ---------------------------------------------------------------------------
// Whitespace tokenization
// ---------------------------------------------------------------------------

/// One step of the tokenizer: the state is the tokens finished so far and the
/// token being accumulated.
pub open spec fn tok_step(st: (Seq<Seq<char>>, Seq<char>), c: char) -> (Seq<Seq<char>>, Seq<char>) {
    if is_ws_char(c) {
        if st.1.len() > 0 {
            (st.0.push(st.1), Seq::<char>::empty())
        } else {
            st
        }
    } else {
        (st.0, st.1.push(c))
    }
}

pub open spec fn tok_state(s: Seq<char>) -> (Seq<Seq<char>>, Seq<char>)
    decreases s.len(),
{
    if s.len() == 0 {
        (Seq::<Seq<char>>::empty(), Seq::<char>::empty())
    } else {
        tok_step(tok_state(s.drop_last()), s.last())
    }
}

/// The whitespace-delimited tokens of `s`, in order.
pub open spec fn split_ws(s: Seq<char>) -> Seq<Seq<char>> {
    let st = tok_state(s);
    if st.1.len() > 0 {
        st.0.push(st.1)
    } else {
        st.0
    }
}

#[verifier::loop_isolation(false)]
pub fn split_ws_chars(v: &Vec<char>) -> (r: Vec<Vec<char>>)
    ensures
        views_of(r@) == split_ws(v@),
{
    let mut toks: Vec<Vec<char>> = Vec::new();
    let mut cur: Vec<char> = Vec::new();
    let mut i: usize = 0;
    while i < v.len()
        invariant
            i <= v@.len(),
            tok_state(v@.take(i as int)).0 == views_of(toks@),
            tok_state(v@.take(i as int)).1 == cur@,
        decreases v@.len() - i,
    {
        let c = v[i];
        proof {
            assert(v@.take(i + 1).drop_last() =~= v@.take(i as int));
            assert(v@.take(i + 1).last() == v@[i as int]);
        }
        if is_ws(c) {
            if cur.len() > 0 {
                let ghost old_toks = toks@;
                let ghost old_cur = cur@;
                let done = cur;
                cur = Vec::new();
                toks.push(done);
                proof {
                    assert(views_of(toks@) =~= views_of(old_toks).push(old_cur));
                }
            }
        } else {
            cur.push(c);
        }
        i = i + 1;
    }
    proof {
        assert(v@.take(v@.len() as int) =~= v@);
    }
    if cur.len() > 0 {
        let ghost old_toks = toks@;
        let ghost old_cur = cur@;
        toks.push(cur);
        proof {
            assert(views_of(toks@) =~= views_of(old_toks).push(old_cur));
        }
    }
    toks
}

// ---------------------------------------------------------------------------
// Trimming
// ---------------------------------------------------------------------------

pub open spec fn trim_start(s: Seq<char>) -> Seq<char>
    decreases s.len(),
{
    if s.len() > 0 && is_ws_char(s[0]) {
        trim_start(s.drop_first())
    } else {
        s
    }
}

pub open spec fn trim_end(s: Seq<char>) -> Seq<char>
    decreases s.len(),
{
    if s.len() > 0 && is_ws_char(s.last()) {
        trim_end(s.drop_last())
    } else {
        s
    }
}

/// `s` with leading and trailing whitespace removed.
pub open spec fn trim_spec(s: Seq<char>) -> Seq<char> {
    trim_end(trim_start(s))
}

#[verifier::loop_isolation(false)]
pub fn trim_chars(v: &Vec<char>) -> (r: Vec<char>)
    ensures
        r@ == trim_spec(v@),
{
    let mut start: usize = 0;
    proof {
        assert(v@.skip(0) =~= v@);
    }
    while start < v.len() && is_ws(v[start])
        invariant
            start <= v@.len(),
            trim_start(v@) == trim_start(v@.skip(start as int)),
        decreases v@.len() - start,
    {
        proof {
            assert(v@.skip(start as int).drop_first() =~= v@.skip(start + 1));
            assert(v@.skip(start as int)[0] == v@[start as int]);
        }
        start = start + 1;
    }
    proof {
        if start < v@.len() {
            assert(v@.skip(start as int)[0] == v@[start as int]);
        }
        assert(trim_start(v@) == v@.skip(start as int));
        assert(v@.subrange(start as int, v@.len() as int) =~= v@.skip(start as int));
    }
    let mut end: usize = v.len();
    while end > start && is_ws(v[end - 1])
        invariant
            start <= end <= v@.len(),
            trim_end(v@.skip(start as int)) == trim_end(v@.subrange(start as int, end as int)),
        decreases end,
    {
        proof {
            assert(v@.subrange(start as int, end as int).drop_last() =~= v@.subrange(
                start as int,
                end - 1,
            ));
            assert(v@.subrange(start as int, end as int).last() == v@[end - 1]);
        }
        end = end - 1;
    }
    proof {
        if end > start {
            assert(v@.subrange(start as int, end as int).last() == v@[end - 1]);
        }
        assert(trim_spec(v@) == v@.subrange(start as int, end as int));
    }
    subvec(v, start, end)
}

// ---------------------------------------------------------------------------
// Joining with single spaces
// ---------------------------------------------------------------------------

/// The tokens of `ts` joined with single spaces.
pub open spec fn join_sp(ts: Seq<Seq<char>>) -> Seq<char>
    decreases ts.len(),
{
    if ts.len() == 0 {
        Seq::<char>::empty()
    } else if ts.len() == 1 {
        ts[0]
    } else {
        join_sp(ts.drop_last()) + seq![' '] + ts.last()
    }
}

/// `parts[from..to]` joined with single spaces.
#[verifier::loop_isolation(false)]
pub fn join_range(parts: &Vec<Vec<char>>, from: usize, to: usize) -> (r: Vec<char>)
    requires
        from <= to <= parts@.len(),
    ensures
        r@ == join_sp(views_of(parts@).subrange(from as int, to as int)),
{
    let ghost sub = views_of(parts@).subrange(from as int, to as int);
    let mut r: Vec<char> = Vec::new();
    let mut k: usize = from;
    while k < to
        invariant
            from <= k <= to <= parts@.len(),
            sub == views_of(parts@).subrange(from as int, to as int),
            r@ == join_sp(sub.take(k - from)),
        decreases to - k,
    {
        proof {
            assert(sub.take(k - from + 1).drop_last() =~= sub.take(k - from));
            assert(sub.take(k - from + 1).last() == parts@[k as int]@);
        }
        if k > from {
            r.push(' ');
        }
        let mut j: usize = 0;
        let ghost base = r@;
        while j < parts[k].len()
            invariant
                k < parts@.len(),
                j <= parts@[k as int]@.len(),
                r@ == base + parts@[k as int]@.take(j as int),
            decreases parts@[k as int]@.len() - j,
        {
            let c = parts[k][j];
            r.push(c);
            proof {
                assert(base + parts@[k as int]@.take(j + 1) =~= (base + parts@[
                    k as int
                ]@.take(j as int)).push(parts@[k as int]@[j as int]));
            }
            j = j + 1;
        }
        proof {
            assert(parts@[k as int]@.take(parts@[k as int]@.len() as int) =~= parts@[k as int]@);
            if k == from {
                assert(join_sp(sub.take(1)) == sub[0]);
                assert(r@ =~= join_sp(sub.take(k - from + 1)));
            } else {
                assert(r@ =~= join_sp(sub.take(k - from)) + seq![' '] + sub[k - from]);
            }
        }
        k = k + 1;
    }
    proof {
        assert(sub.take(to - from) =~= sub);
    }
    r
}

// ---------------------------------------------------------------------------
// Unsigned integer parsing
// ---------------------------------------------------------------------------

pub open spec fn all_digits(s: Seq<char>) -> bool {
    forall|i: int| 0 <= i < s.len() ==> is_digit_char(s[i])
}

/// Value of a digit string read in base ten.
pub open spec fn digits_val(s: Seq<char>) -> int
    decreases s.len(),
{
    if s.len() == 0 {
        0
    } else {
        digits_val(s.drop_last()) * 10 + digit_val(s.last())
    }
}

/// The digits of an unsigned decimal literal: an optional leading `+` is
/// dropped, as Rust's unsigned `parse` allows one.
pub open spec fn uint_body(s: Seq<char>) -> Seq<char> {
    if s.len() > 0 && s[0] == '+' {
        s.drop_first()
    } else {
        s
    }
}

/// Does `s` parse as an unsigned decimal integer no greater than `max`?
pub open spec fn parses_uint(s: Seq<char>, max: int) -> bool {
    let d = uint_body(s);
    d.len() > 0 && all_digits(d) && digits_val(d) <= max
}

pub proof fn lemma_digits_val_nonneg(s: Seq<char>)
    requires
        all_digits(s),
    ensures
        digits_val(s) >= 0,
    decreases s.len(),
{
    if s.len() > 0 {
        assert(forall|i: int| 0 <= i < s.drop_last().len() ==> is_digit_char(
            s.drop_last()[i],
        ));
        lemma_digits_val_nonneg(s.drop_last());
    }
}

/// A digit string is worth at least any of its prefixes.
pub proof fn lemma_digits_val_take(s: Seq<char>, k: int)
    requires
        all_digits(s),
        0 <= k <= s.len(),
    ensures
        digits_val(s) >= digits_val(s.take(k)),
    decreases s.len() - k,
{
    if k < s.len() {
        assert(s.take(k + 1).drop_last() =~= s.take(k));
        assert(s.take(k + 1).last() == s[k]);
        assert(forall|i: int| 0 <= i < s.take(k).len() ==> is_digit_char(s.take(k)[i]));
        lemma_digits_val_nonneg(s.take(k));
        assert(digits_val(s.take(k + 1)) == digits_val(s.take(k)) * 10 + digit_val(s[k]));
        assert(digits_val(s.take(k)) * 10 >= digits_val(s.take(k))) by (nonlinear_arith)
            requires
                digits_val(s.take(k)) >= 0,
        ;
        lemma_digits_val_take(s, k + 1);
    } else {
        assert(s.take(k) =~= s);
    }
}

/// Parses `t` as an unsigned decimal integer, as Rust's `parse` does for
/// unsigned types: an optional `+`, then one or more digits, rejecting
/// values above `max`.
#[verifier::loop_isolation(false)]
pub fn parse_uint(t: &Vec<char>, max: u64) -> (r: Option<u64>)
    ensures
        match r {
            Some(v) => parses_uint(t@, max as int) && v == digits_val(uint_body(t@)),
            None => !parses_uint(t@, max as int),
        },
{
    let ghost d = uint_body(t@);
    let start: usize = if t.len() > 0 && t[0] == '+' {
        1
    } else {
        0
    };
    proof {
        assert(d =~= t@.skip(start as int));
    }
    if t.len() == start {
        return None;
    }
    let mut acc: u64 = 0;
    let mut i: usize = start;
    while i < t.len()
        invariant
            start <= i <= t@.len(),
            start < t@.len(),
            d == t@.skip(start as int),
            forall|j: int| 0 <= j < i - start ==> is_digit_char(d[j]),
            acc == digits_val(d.take(i - start)),
            acc <= max,
        decreases t@.len() - i,
    {
        let c = t[i];
        proof {
            assert(d[i - start] == t@[i as int]);
            assert(d.take(i - start + 1).drop_last() =~= d.take(i - start));
            assert(d.take(i - start + 1).last() == d[i - start]);
        }
        if !is_digit(c) {
            proof {
                assert(!is_digit_char(d[i - start]));
            }
            return None;
        }
        let dv: u64 = (c as u32 as u64) - 48;
        proof {
            assert(dv == digit_val(c));
            assert(digits_val(d.take(i - start + 1)) == acc * 10 + dv);
        }
        if acc > max / 10 || (acc == max / 10 && dv > max % 10) {
            proof {
                assert(acc * 10 + dv > max) by (nonlinear_arith)
                    requires
                        acc > max / 10 || (acc == max / 10 && dv > max % 10),
                        acc >= 0,
                        dv >= 0,
                        max >= 0,
                        max / 10 == (max as int) / 10,
                        max % 10 == (max as int) % 10,
                ;
                if parses_uint(t@, max as int) {
                    assert(all_digits(d));
                    assert(i - start + 1 <= d.len());
                    lemma_digits_val_take(d, i - start + 1);
                }
            }
            return None;
        }
        proof {
            assert(acc * 10 + dv <= max) by (nonlinear_arith)
                requires
                    acc <= max / 10,
                    acc == max / 10 ==> dv <= max % 10,
                    acc >= 0,
                    0 <= dv <= 9,
                    max >= 0,
                    max / 10 == (max as int) / 10,
                    max % 10 == (max as int) % 10,
            ;
        }
        acc = acc * 10 + dv;
        i = i + 1;
    }
    proof {
        assert(d.take(d.len() as int) =~= d);
    }
    Some(acc)
}

// ---------------------------------------------------------------------------
// Searching
// ---------------------------------------------------------------------------

pub open spec fn has_char(s: Seq<char>, c: char) -> bool {
    exists|i: int| 0 <= i < s.len() && s[i] == c
}

/// Index of the first occurrence of `c` in `s`, or `s.len()` if absent.
pub open spec fn first_idx(s: Seq<char>, c: char) -> int
    decreases s.len(),
{
    if s.len() == 0 {
        0
    } else if s[0] == c {
        0
    } else {
        1 + first_idx(s.drop_first(), c)
    }
}

/// Index of the last occurrence of `c` in `s`, or `-1` if absent.
pub open spec fn last_idx(s: Seq<char>, c: char) -> int
    decreases s.len(),
{
    if s.len() == 0 {
        -1
    } else if s.last() == c {
        s.len() - 1
    } else {
        last_idx(s.drop_last(), c)
    }
}

pub proof fn lemma_first_idx(s: Seq<char>, c: char)
    ensures
        0 <= first_idx(s, c) <= s.len(),
        first_idx(s, c) < s.len() ==> s[first_idx(s, c)] == c,
        forall|j: int| 0 <= j < first_idx(s, c) ==> s[j] != c,
        has_char(s, c) <==> first_idx(s, c) < s.len(),
    decreases s.len(),
{
    if s.len() == 0 {
    } else if s[0] == c {
    } else {
        lemma_first_idx(s.drop_first(), c);
        assert(forall|j: int|
            0 <= j < first_idx(s, c) ==> #[trigger] s[j] == (if j == 0 {
                s[0]
            } else {
                s.drop_first()[j - 1]
            }));
        if has_char(s, c) {
            let i = choose|i: int| 0 <= i < s.len() && s[i] == c;
            assert(s.drop_first()[i - 1] == c);
            assert(has_char(s.drop_first(), c));
        }
        if has_char(s.drop_first(), c) {
            let i = choose|i: int| 0 <= i < s.drop_first().len() && s.drop_first()[i] == c;
            assert(s[i + 1] == c);
        }
    }
}

pub proof fn lemma_last_idx(s: Seq<char>, c: char)
    ensures
        -1 <= last_idx(s, c) < s.len(),
        last_idx(s, c) >= 0 ==> s[last_idx(s, c)] == c,
        forall|j: int| last_idx(s, c) < j < s.len() ==> s[j] != c,
        has_char(s, c) <==> last_idx(s, c) >= 0,
    decreases s.len(),
{
    if s.len() == 0 {
    } else if s.last() == c {
    } else {
        lemma_last_idx(s.drop_last(), c);
        assert(forall|j: int|
            last_idx(s, c) < j < s.len() - 1 ==> s[j] == s.drop_last()[j]);
        if has_char(s, c) {
            let i = choose|i: int| 0 <= i < s.len() && s[i] == c;
            assert(i < s.len() - 1);
            assert(s.drop_last()[i] == c);
            assert(has_char(s.drop_last(), c));
        }
        if has_char(s.drop_last(), c) {
            let i = choose|i: int| 0 <= i < s.drop_last().len() && s.drop_last()[i] == c;
            assert(s[i] == c);
        }
    }
}

/// First occurrence of `c` in `v`, if any.
#[verifier::loop_isolation(false)]
pub fn find_first(v: &Vec<char>, c: char) -> (r: Option<usize>)
    ensures
        match r {
            Some(i) => i == first_idx(v@, c) && i < v@.len() && v@[i as int] == c && has_char(
                v@,
                c,
            ),
            None => !has_char(v@, c) && first_idx(v@, c) == v@.len(),
        },
{
    proof {
        lemma_first_idx(v@, c);
    }
    let mut i: usize = 0;
    while i < v.len()
        invariant
            i <= v@.len(),
            forall|j: int| 0 <= j < i ==> v@[j] != c,
        decreases v@.len() - i,
    {
        if v[i] == c {
            proof {
                assert(has_char(v@, c));
            }
            return Some(i);
        }
        i = i + 1;
    }
    None
}

/// Last occurrence of `c` in `v`, if any.
#[verifier::loop_isolation(false)]
pub fn find_last(v: &Vec<char>, c: char) -> (r: Option<usize>)
    ensures
        match r {
            Some(i) => i == last_idx(v@, c) && i < v@.len() && v@[i as int] == c && has_char(
                v@,
                c,
            ),
            None => !has_char(v@, c) && last_idx(v@, c) == -1,
        },
{
    proof {
        lemma_last_idx(v@, c);
    }
    let mut i: usize = v.len();
    while i > 0
        invariant
            i <= v@.len(),
            forall|j: int| i <= j < v@.len() ==> v@[j] != c,
        decreases i,
    {
        i = i - 1;
        if v[i] == c {
            proof {
                assert(has_char(v@, c));
            }
            return Some(i);
        }
    }
    None
}

#[verifier::loop_isolation(false)]
pub fn contains_char(v: &Vec<char>, c: char) -> (r: bool)
    ensures
        r == has_char(v@, c),
{
    match find_first(v, c) {
        Some(_) => true,
        None => false,
    }
}

// ---------------------------------------------------------------------------
// Trailing alphabetic strip (record annotations on time tokens)
// ---------------------------------------------------------------------------

#[verifier::loop_isolation(false)]
pub fn all_digits_vec(v: &Vec<char>) -> (r: bool)
    ensures
        r == all_digits(v@),
{
    let mut i: usize = 0;
    while i < v.len()
        invariant
            i <= v@.len(),
            forall|j: int| 0 <= j < i ==> is_digit_char(v@[j]),
        decreases v@.len() - i,
    {
        if !is_digit(v[i]) {
            return false;
        }
        i = i + 1;
    }
    true
}

/// `s` with every trailing ASCII letter removed.
pub open spec fn strip_trail_alpha(s: Seq<char>) -> Seq<char>
    decreases s.len(),
{
    if s.len() > 0 && is_alpha_char(s.last()) {
        strip_trail_alpha(s.drop_last())
    } else {
        s
    }
}

#[verifier::loop_isolation(false)]
pub fn strip_alpha_chars(v: &Vec<char>) -> (r: Vec<char>)
    ensures
        r@ == strip_trail_alpha(v@),
{
    let mut end: usize = v.len();
    proof {
        assert(v@.take(v@.len() as int) =~= v@);
    }
    while end > 0 && is_alpha(v[end - 1])
        invariant
            end <= v@.len(),
            strip_trail_alpha(v@) == strip_trail_alpha(v@.take(end as int)),
        decreases end,
    {
        proof {
            assert(v@.take(end as int).drop_last() =~= v@.take(end - 1));
        }
        end = end - 1;
    }
    subvec(v, 0, end)
}

// ---------------------------------------------------------------------------
// Sequence comparisons
// ---------------------------------------------------------------------------

/// Case-insensitive (ASCII) sequence equality.
pub open spec fn seq_eqi(a: Seq<char>, b: Seq<char>) -> bool {
    a.len() == b.len() && forall|i: int| 0 <= i < a.len() ==> eqi_char(a[i], b[i])
}

/// Exact equality between a character vector and a string slice.
#[verifier::loop_isolation(false)]
pub fn chars_eq_str(t: &Vec<char>, pat: &str) -> (r: bool)
    ensures
        r == (t@ == pat@),
{
    let n = pat.unicode_len();
    if t.len() != n {
        return false;
    }
    let mut i: usize = 0;
    while i < n
        invariant
            n == pat@.len() == t@.len(),
            i <= n,
            forall|j: int| 0 <= j < i ==> t@[j] == pat@[j],
        decreases n - i,
    {
        if t[i] != pat.get_char(i) {
            return false;
        }
        i = i + 1;
    }
    proof {
        assert(t@ =~= pat@);
    }
    true
}

/// Case-insensitive equality between a character vector and a string slice.
#[verifier::loop_isolation(false)]
pub fn chars_eqi_str(t: &Vec<char>, pat: &str) -> (r: bool)
    ensures
        r == seq_eqi(t@, pat@),
{
    let n = pat.unicode_len();
    if t.len() != n {
        return false;
    }
    let mut i: usize = 0;
    while i < n
        invariant
            n == pat@.len() == t@.len(),
            i <= n,
            forall|j: int| 0 <= j < i ==> eqi_char(t@[j], pat@[j]),
        decreases n - i,
    {
        if !eqi(t[i], pat.get_char(i)) {
            return false;
        }
        i = i + 1;
    }
    true
}

// ---------------------------------------------------------------------------
// Case-insensitive substring search
// ---------------------------------------------------------------------------

/// Does `p` occur in `h` as a contiguous run, compared case-insensitively?
pub open spec fn contains_ci(h: Seq<char>, p: Seq<char>) -> bool {
    exists|i: int| 0 <= i <= h.len() - p.len() && seq_eqi(#[trigger] h.subrange(i, i + p.len()), p)
}

#[verifier::loop_isolation(false)]
pub fn contains_ci_str(h: &Vec<char>, pat: &str) -> (r: bool)
    ensures
        r == contains_ci(h@, pat@),
{
    let p = str_to_chars(pat);
    let plen = p.len();
    if plen > h.len() {
        return false;
    }
    let mut i: usize = 0;
    while i <= h.len() - plen
        invariant
            plen == p@.len(),
            p@ == pat@,
            plen <= h@.len(),
            i <= h@.len() - plen + 1,
            forall|k: int| 0 <= k < i ==> !seq_eqi(#[trigger] h@.subrange(k, k + pat@.len()), pat@),
        decreases h@.len() - plen - i + 1,
    {
        let mut j: usize = 0;
        let mut ok: bool = true;
        while j < plen
            invariant
                plen == p@.len(),
                p@ == pat@,
                i + plen <= h@.len(),
                j <= plen,
                ok ==> forall|m: int| 0 <= m < j ==> eqi_char(h@[i + m], pat@[m]),
                !ok ==> !seq_eqi(h@.subrange(i as int, i + pat@.len()), pat@),
            decreases plen - j,
        {
            proof {
                assert(i + j < h@.len());
            }
            if !eqi(h[i + j], p[j]) {
                proof {
                    assert(h@.subrange(i as int, i + pat@.len())[j as int] == h@[i + j]);
                }
                ok = false;
                j = plen;
            } else {
                j = j + 1;
            }
        }
        if ok {
            proof {
                assert(forall|m: int|
                    0 <= m < pat@.len() ==> #[trigger] h@.subrange(i as int, i + pat@.len())[m]
                        == h@[i + m]);
                assert(seq_eqi(h@.subrange(i as int, i + pat@.len()), pat@));
            }
            return true;
        }
        i = i + 1;
    }
    proof {
        assert(forall|k: int|
            0 <= k <= h@.len() - pat@.len() ==> !seq_eqi(
                #[trigger] h@.subrange(k, k + pat@.len()),
                pat@,
            ));
    }
    false
}

// ---------------------------------------------------------------------------
// Pattern helpers for record sections
// ---------------------------------------------------------------------------

/// Does `") "` occur in `s`?
pub open spec fn has_paren_space(s: Seq<char>) -> bool {
    exists|i: int| 0 <= i && i + 1 < s.len() && #[trigger] s[i] == ')' && s[i + 1] == ' '
}

#[verifier::loop_isolation(false)]
pub fn contains_paren_space(v: &Vec<char>) -> (r: bool)
    ensures
        r == has_paren_space(v@),
{
    if v.len() < 2 {
        return false;
    }
    let mut i: usize = 0;
    while i + 1 < v.len()
        invariant
            i + 1 <= v@.len(),
            forall|j: int| 0 <= j < i ==> !(#[trigger] v@[j] == ')' && v@[j + 1] == ' '),
        decreases v@.len() - i,
    {
        if v[i] == ')' && v[i + 1] == ' ' {
            return true;
        }
        i = i + 1;
    }
    false
}

/// Does `s` contain an ASCII letter?
pub open spec fn has_alpha(s: Seq<char>) -> bool {
    exists|i: int| 0 <= i < s.len() && is_alpha_char(s[i])
}

#[verifier::loop_isolation(false)]
pub fn contains_alpha(v: &Vec<char>) -> (r: bool)
    ensures
        r == has_alpha(v@),
{
    let mut i: usize = 0;
    while i < v.len()
        invariant
            i <= v@.len(),
            forall|j: int| 0 <= j < i ==> !is_alpha_char(v@[j]),
        decreases v@.len() - i,
    {
        if is_alpha(v[i]) {
            return true;
        }
        i = i + 1;
    }
    false
}

/// Does `s` contain an ASCII letter other than `r`?
pub open spec fn has_name_alpha(s: Seq<char>) -> bool {
    exists|i: int| 0 <= i < s.len() && is_alpha_char(s[i]) && s[i] != 'r'
}

#[verifier::loop_isolation(false)]
pub fn contains_name_alpha(v: &Vec<char>) -> (r: bool)
    ensures
        r == has_name_alpha(v@),
{
    let mut i: usize = 0;
    while i < v.len()
        invariant
            i <= v@.len(),
            forall|j: int| 0 <= j < i ==> !(is_alpha_char(v@[j]) && v@[j] != 'r'),
        decreases v@.len() - i,
    {
        if is_alpha(v[i]) && v[i] != 'r' {
            return true;
        }
        i = i + 1;
    }
    false
}


// ---------------------------------------------------------------------------
// Line splitting
// ---------------------------------------------------------------------------

/// `t` with one trailing carriage return removed, as Rust's `str::lines`
/// does to each line ended by a line feed.
pub open spec fn strip_last_cr(t: Seq<char>) -> Seq<char> {
    if t.len() > 0 && t.last() == '\r' {
        t.drop_last()
    } else {
        t
    }
}

pub open spec fn lines_step(st: (Seq<Seq<char>>, Seq<char>), c: char) -> (Seq<Seq<char>>, Seq<char>) {
    if c == '\n' {
        (st.0.push(strip_last_cr(st.1)), Seq::<char>::empty())
    } else {
        (st.0, st.1.push(c))
    }
}

pub open spec fn lines_state(s: Seq<char>) -> (Seq<Seq<char>>, Seq<char>)
    decreases s.len(),
{
    if s.len() == 0 {
        (Seq::<Seq<char>>::empty(), Seq::<char>::empty())
    } else {
        lines_step(lines_state(s.drop_last()), s.last())
    }
}

/// The lines of `s`, split at line feeds, each with one trailing carriage
/// return removed; a final line ending yields no empty last line, as with
/// Rust's `str::lines`.
pub open spec fn split_lines(s: Seq<char>) -> Seq<Seq<char>> {
    let st = lines_state(s);
    if st.1.len() > 0 {
        st.0.push(st.1)
    } else {
        st.0
    }
}

#[verifier::loop_isolation(false)]
pub fn split_lines_chars(v: &Vec<char>) -> (r: Vec<Vec<char>>)
    ensures
        views_of(r@) == split_lines(v@),
{
    let mut ls: Vec<Vec<char>> = Vec::new();
    let mut cur: Vec<char> = Vec::new();
    let mut i: usize = 0;
    while i < v.len()
        invariant
            i <= v@.len(),
            lines_state(v@.take(i as int)).0 == views_of(ls@),
            lines_state(v@.take(i as int)).1 == cur@,
        decreases v@.len() - i,
    {
        let c = v[i];
        proof {
            assert(v@.take(i + 1).drop_last() =~= v@.take(i as int));
            assert(v@.take(i + 1).last() == v@[i as int]);
        }
        if c == '\n' {
            let mut done = cur;
            cur = Vec::new();
            if done.len() > 0 && done[done.len() - 1] == '\r' {
                let ghost pre = done@;
                let _last = done.pop();
                proof {
                    assert(done@ =~= pre.drop_last());
                }
            }
            let ghost old_ls = ls@;
            let ghost dv = done@;
            ls.push(done);
            proof {
                assert(views_of(ls@) =~= views_of(old_ls).push(dv));
            }
        } else {
            cur.push(c);
        }
        i = i + 1;
    }
    proof {
        assert(v@.take(v@.len() as int) =~= v@);
    }
    if cur.len() > 0 {
        let ghost old_ls = ls@;
        let ghost dv = cur@;
        ls.push(cur);
        proof {
            assert(views_of(ls@) =~= views_of(old_ls).push(dv));
        }
    }
    ls
}

/// The lines of a string slice, as character vectors.
pub fn split_lines_str(s: &str) -> (r: Vec<Vec<char>>)
    ensures
        views_of(r@) == split_lines(s@),
{
    let cs = str_to_chars(s);
    split_lines_chars(&cs)
}

// ---------------------------------------------------------------------------
// Case-sensitive substring search
// ---------------------------------------------------------------------------

/// Does `p` occur in `h` as a contiguous run, compared exactly?
pub open spec fn contains_seq(h: Seq<char>, p: Seq<char>) -> bool {
    exists|i: int| 0 <= i <= h.len() - p.len() && #[trigger] h.subrange(i, i + p.len()) == p
}

#[verifier::loop_isolation(false)]
pub fn contains_str(h: &Vec<char>, pat: &str) -> (r: bool)
    ensures
        r == contains_seq(h@, pat@),
{
    let p = str_to_chars(pat);
    let plen = p.len();
    let hn = h.len();
    if plen > hn {
        return false;
    }
    if plen == 0 {
        proof {
            assert(h@.subrange(0, 0 + pat@.len() as int) =~= pat@);
            assert(contains_seq(h@, pat@));
        }
        return true;
    }
    let mut i: usize = 0;
    while i <= hn - plen
        invariant
            plen == p@.len(),
            0 < plen,
            p@ == pat@,
            plen <= hn == h@.len(),
            i <= hn - plen + 1,
            forall|k: int| 0 <= k < i ==> #[trigger] h@.subrange(k, k + pat@.len()) != pat@,
        decreases hn - plen - i + 1,
    {
        let mut j: usize = 0;
        let mut ok: bool = true;
        while j < plen
            invariant
                plen == p@.len(),
                p@ == pat@,
                i + plen <= hn == h@.len(),
                j <= plen,
                ok ==> forall|m: int| 0 <= m < j ==> h@[i + m] == pat@[m],
                !ok ==> h@.subrange(i as int, i + pat@.len()) != pat@,
            decreases plen - j,
        {
            proof {
                assert(i + j < h@.len());
            }
            if h[i + j] != p[j] {
                proof {
                    assert(h@.subrange(i as int, i + pat@.len())[j as int] == h@[i + j]);
                }
                ok = false;
                j = plen;
            } else {
                j = j + 1;
            }
        }
        if ok {
            proof {
                assert(h@.subrange(i as int, i + pat@.len()) =~= pat@);
            }
            return true;
        }
        i = i + 1;
    }
    proof {
        assert(forall|k: int|
            0 <= k <= h@.len() - pat@.len() ==> #[trigger] h@.subrange(k, k + pat@.len())
                != pat@);
    }
    false
}

/// Does `s` contain an ASCII digit?
pub open spec fn has_digit(s: Seq<char>) -> bool {
    exists|i: int| 0 <= i < s.len() && is_digit_char(s[i])
}

#[verifier::loop_isolation(false)]
pub fn contains_digit(v: &Vec<char>) -> (r: bool)
    ensures
        r == has_digit(v@),
{
    let mut i: usize = 0;
    while i < v.len()
        invariant
            i <= v@.len(),
            forall|j: int| 0 <= j < i ==> !is_digit_char(v@[j]),
        decreases v@.len() - i,
    {
        if is_digit(v[i]) {
            return true;
        }
        i = i + 1;
    }
    false
}


// ---------------------------------------------------------------------------
// Tokenization inverts joining
// ---------------------------------------------------------------------------

/// A word: non-empty, with no whitespace in it.
pub open spec fn is_word(t: Seq<char>) -> bool {
    t.len() > 0 && forall|j: int| 0 <= j < t.len() ==> !is_ws_char(t[j])
}

pub proof fn lemma_tok_state_app_word(s: Seq<char>, t: Seq<char>)
    requires
        forall|j: int| 0 <= j < t.len() ==> !is_ws_char(t[j]),
    ensures
        tok_state(s + t) == (tok_state(s).0, tok_state(s).1 + t),
    decreases t.len(),
{
    if t.len() == 0 {
        assert(s + t =~= s);
        assert(tok_state(s).1 + t =~= tok_state(s).1);
    } else {
        assert(s + t =~= (s + t.drop_last()).push(t.last()));
        assert((s + t.drop_last()).push(t.last()).drop_last() =~= s + t.drop_last());
        lemma_tok_state_app_word(s, t.drop_last());
        assert(!is_ws_char(t.last()));
        assert((tok_state(s).1 + t.drop_last()).push(t.last()) =~= tok_state(s).1 + t);
    }
}

pub proof fn lemma_tok_state_push_ws(s: Seq<char>, c: char)
    requires
        is_ws_char(c),
    ensures
        tok_state(s.push(c)) == (split_ws(s), Seq::<char>::empty()),
{
    assert(s.push(c).drop_last() =~= s);
}

/// Splitting the space-joined words gives the words back.
pub proof fn lemma_split_ws_join(toks: Seq<Seq<char>>)
    requires
        forall|i: int| 0 <= i < toks.len() ==> is_word(#[trigger] toks[i]),
        toks.len() > 0,
    ensures
        tok_state(join_sp(toks)) == (toks.drop_last(), toks.last()),
        split_ws(join_sp(toks)) == toks,
    decreases toks.len(),
{
    if toks.len() == 1 {
        assert(Seq::<char>::empty() + toks[0] =~= toks[0]);
        assert(join_sp(toks) == toks[0]);
        lemma_tok_state_app_word(Seq::<char>::empty(), toks[0]);
        assert(tok_state(Seq::<char>::empty()).0 =~= Seq::<Seq<char>>::empty());
        assert(tok_state(Seq::<char>::empty()).1 + toks[0] =~= toks[0]);
        assert(toks.drop_last() =~= Seq::<Seq<char>>::empty());
        assert(split_ws(join_sp(toks)) =~= toks);
    } else {
        let dl = toks.drop_last();
        assert(forall|i: int| 0 <= i < dl.len() ==> is_word(#[trigger] dl[i]));
        lemma_split_ws_join(dl);
        assert(join_sp(toks) == join_sp(dl) + seq![' '] + toks.last());
        assert(join_sp(dl) + seq![' '] =~= join_sp(dl).push(' '));
        lemma_tok_state_push_ws(join_sp(dl), ' ');
        assert(split_ws(join_sp(dl)) == dl.drop_last().push(dl.last()));
        assert(dl.drop_last().push(dl.last()) =~= dl);
        assert(join_sp(dl) + seq![' '] + toks.last() =~= (join_sp(dl) + seq![' ']) + toks.last());
        lemma_tok_state_app_word(join_sp(dl) + seq![' '], toks.last());
        assert(tok_state(join_sp(dl) + seq![' ']) == tok_state(join_sp(dl).push(' ')));
        assert(Seq::<char>::empty() + toks.last() =~= toks.last());
        assert(tok_state(join_sp(toks)) == (dl, toks.last()));
        assert(split_ws(join_sp(toks)) =~= dl.push(toks.last()));
        assert(dl.push(toks.last()) =~= toks);
    }
}

} // verus!
