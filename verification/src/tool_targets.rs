//! Which runs or experiments a tool call was about. `orx logs` and
//! `orx exp status|desc` calls are tagged with the ids they touched, so the
//! UI can link them: authoritative `[orx-run:<id>]` markers the CLI prints
//! win over ids guessed from the output; ids are normalised, deduplicated
//! and capped; the markers themselves are stripped from what is shown.

use vstd::prelude::*;

use crate::jobs::is_hex_digit;
use vstd::utf8::{
    decode_utf8, encode_utf8, encode_utf8_decode_utf8, encode_utf8_valid_utf8, is_char_boundary,
    is_char_boundary_start_end_of_seq, valid_utf8,
};
use crate::chat::{cap_tool_text, capped};
use crate::json::{as_bool, as_str, get, insert, member, string_value, JsonValue};
use crate::transcript::{lemma_children_decrease, lemma_last_decreases, WirePart, WireToolState};
use crate::text::{
    contains_str, char_is_whitespace, contains_seq, is_whitespace, join, join_with, chars_of,
    find_from, is_prefix, is_suffix, lines, lines_of, lower_seq, occurs_at, owned, push_char,
    starts_with, string_of_range, to_ascii_lowercase, trim, trim_seq, views,
};

verus! {

/// The most target ids one tool call keeps.
pub const TOOL_TARGET_CAP: usize = 256;

/// A character an id may be made of.
pub open spec fn target_char(c: char) -> bool {
    is_hex_digit(c) || c == '-'
}

fn is_target_char(c: char) -> (r: bool)
    ensures
        r == target_char(c),
{
    ('0' <= c && c <= '9') || ('a' <= c && c <= 'f') || ('A' <= c && c <= 'F') || c == '-'
}

/// An id: eight hexadecimal digits, or a UUID (hexadecimal digits with
/// dashes at positions 8, 13, 18 and 23).
pub open spec fn valid_target(s: Seq<char>) -> bool {
    (s.len() == 8 && forall|i: int| 0 <= i < 8 ==> is_hex_digit(#[trigger] s[i])) || (s.len()
        == 36 && forall|i: int|
        0 <= i < 36 ==> if i == 8 || i == 13 || i == 18 || i == 23 {
            #[trigger] s[i] == '-'
        } else {
            is_hex_digit(s[i])
        })
}

/// Whether a candidate is an id.
pub fn valid_tool_target(value: &str) -> (r: bool)
    ensures
        r == valid_target(value@),
{
    let v = chars_of(value);
    if v.len() == 8 {
        let mut i: usize = 0;
        while i < 8
            invariant
                v@ == value@,
                v@.len() == 8,
                i <= 8,
                forall|j: int| 0 <= j < i ==> is_hex_digit(#[trigger] v@[j]),
            decreases 8 - i,
        {
            if !is_target_char(v[i]) || v[i] == '-' {
                return false;
            }
            i = i + 1;
        }
        return true;
    }
    if v.len() == 36 {
        let mut i: usize = 0;
        while i < 36
            invariant
                v@ == value@,
                v@.len() == 36,
                i <= 36,
                forall|j: int|
                    0 <= j < i ==> if j == 8 || j == 13 || j == 18 || j == 23 {
                        #[trigger] v@[j] == '-'
                    } else {
                        is_hex_digit(v@[j])
                    },
            decreases 36 - i,
        {
            if i == 8 || i == 13 || i == 18 || i == 23 {
                if v[i] != '-' {
                    return false;
                }
            } else if !is_target_char(v[i]) || v[i] == '-' {
                return false;
            }
            i = i + 1;
        }
        return true;
    }
    false
}

/// `s` without the characters that cannot be part of an id at its start.
pub open spec fn strip_front(s: Seq<char>) -> Seq<char>
    decreases s.len(),
{
    if s.len() > 0 && !target_char(s[0]) {
        strip_front(s.drop_first())
    } else {
        s
    }
}

/// `s` without the characters that cannot be part of an id at its end.
pub open spec fn strip_back(s: Seq<char>) -> Seq<char>
    decreases s.len(),
{
    if s.len() > 0 && !target_char(s.last()) {
        strip_back(s.drop_last())
    } else {
        s
    }
}

/// The id a text may hold: the text without leading and trailing characters
/// that are neither hexadecimal digits nor dashes.
pub open spec fn candidate(s: Seq<char>) -> Seq<char> {
    strip_back(strip_front(s))
}

proof fn lemma_strip_front_skip(s: Seq<char>, i: int)
    requires
        0 <= i <= s.len(),
        forall|k: int| 0 <= k < i ==> !target_char(#[trigger] s[k]),
    ensures
        strip_front(s) == strip_front(s.subrange(i, s.len() as int)),
    decreases i,
{
    if i > 0 {
        assert(s.drop_first().subrange(i - 1, s.drop_first().len() as int) =~= s.subrange(
            i,
            s.len() as int,
        ));
        assert forall|k: int| 0 <= k < i - 1 implies !target_char(#[trigger] s.drop_first()[k]) by {
            assert(s.drop_first()[k] == s[k + 1]);
        }
        lemma_strip_front_skip(s.drop_first(), i - 1);
    } else {
        assert(s.subrange(0, s.len() as int) =~= s);
    }
}

proof fn lemma_strip_back_cut(s: Seq<char>, j: int)
    requires
        0 <= j <= s.len(),
        forall|k: int| j <= k < s.len() ==> !target_char(#[trigger] s[k]),
    ensures
        strip_back(s) == strip_back(s.subrange(0, j)),
    decreases s.len() - j,
{
    if j < s.len() {
        assert(s.drop_last().subrange(0, j) =~= s.subrange(0, j));
        assert forall|k: int| j <= k < s.drop_last().len() implies !target_char(
            #[trigger] s.drop_last()[k],
        ) by {
            assert(s.drop_last()[k] == s[k]);
        }
        lemma_strip_back_cut(s.drop_last(), j);
    } else {
        assert(s.subrange(0, j) =~= s);
    }
}

/// The id candidate of a text.
pub(crate) fn candidate_of(v: &Vec<char>, lo: usize, hi: usize) -> (r: String)
    requires
        lo <= hi <= v.len(),
    ensures
        r@ == candidate(v@.subrange(lo as int, hi as int)),
{
    let ghost s = v@.subrange(lo as int, hi as int);
    let mut a: usize = lo;
    while a < hi && !is_target_char(v[a])
        invariant
            lo <= a <= hi <= v.len(),
            s == v@.subrange(lo as int, hi as int),
            forall|k: int| 0 <= k < a - lo ==> !target_char(#[trigger] s[k]),
        decreases hi - a,
    {
        assert(s[a - lo] == v@[a as int]);
        a = a + 1;
    }
    proof {
        lemma_strip_front_skip(s, a - lo);
        let rest = s.subrange(a - lo, s.len() as int);
        assert(rest =~= v@.subrange(a as int, hi as int));
        if rest.len() > 0 {
            assert(rest[0] == v@[a as int]);
        }
    }
    let mut b: usize = hi;
    while b > a && !is_target_char(v[b - 1])
        invariant
            a <= b <= hi <= v.len(),
            forall|k: int| b <= k < hi ==> !target_char(#[trigger] v@[k]),
        decreases b,
    {
        b = b - 1;
    }
    proof {
        let r = v@.subrange(a as int, hi as int);
        assert forall|k: int| b - a <= k < r.len() implies !target_char(#[trigger] r[k]) by {
            assert(r[k] == v@[a + k]);
        }
        lemma_strip_back_cut(r, b - a);
        assert(r.subrange(0, b - a) =~= v@.subrange(a as int, b as int));
        let t = v@.subrange(a as int, b as int);
        if t.len() > 0 {
            assert(t.last() == v@[b - 1]);
        }
    }
    string_of_range(v, a, b)
}

/// The ids after adding the id a text may hold: unchanged once the cap is
/// reached, when the text holds no id, or when the id (lower-cased) is
/// already there.
pub open spec fn pushed(targets: Seq<Seq<char>>, value: Seq<char>) -> Seq<Seq<char>> {
    let c = candidate(value);
    if targets.len() >= TOOL_TARGET_CAP || !valid_target(c) || targets.contains(lower_seq(c)) {
        targets
    } else {
        targets.push(lower_seq(c))
    }
}

/// No id occurs twice.
pub open spec fn distinct(targets: Seq<Seq<char>>) -> bool {
    forall|i: int, j: int| 0 <= i < j < targets.len() ==> targets[i] != targets[j]
}

/// Whether a list of ids holds `t`.
pub(crate) fn holds(targets: &Vec<String>, t: &String) -> (r: bool)
    ensures
        r == views(targets@).contains(t@),
{
    let mut i: usize = 0;
    while i < targets.len()
        invariant
            i <= targets@.len(),
            forall|k: int| 0 <= k < i ==> targets@[k]@ != t@,
        decreases targets@.len() - i,
    {
        if crate::text::str_eq(targets[i].as_str(), t.as_str()) {
            assert(views(targets@)[i as int] == t@);
            return true;
        }
        i = i + 1;
    }
    proof {
        if views(targets@).contains(t@) {
            let k = choose|k: int| 0 <= k < views(targets@).len() && views(targets@)[k] == t@;
            assert(targets@[k]@ == t@);
        }
    }
    false
}

/// Adds the id a text may hold, normalised to lower case, once.
pub fn push_tool_target(targets: &mut Vec<String>, value: &str)
    requires
        distinct(views(old(targets)@)),
    ensures
        views(final(targets)@) == pushed(views(old(targets)@), value@),
        distinct(views(final(targets)@)),
        final(targets)@.len() <= TOOL_TARGET_CAP || final(targets)@.len() == old(targets)@.len(),
{
    if targets.len() >= TOOL_TARGET_CAP {
        return ;
    }
    let v = chars_of(value);
    let c = candidate_of(&v, 0, v.len());
    assert(v@.subrange(0, v@.len() as int) =~= value@);
    if !valid_tool_target(c.as_str()) {
        return ;
    }
    let normalized = to_ascii_lowercase(c.as_str());
    if holds(targets, &normalized) {
        return ;
    }
    let ghost before = views(targets@);
    targets.push(normalized);
    assert(views(targets@) =~= before.push(lower_seq(c@)));
}

// ---------------------------------------------------------------------------
// Scanning tool output
// ---------------------------------------------------------------------------

/// The marker the CLI prints before an id of the resource.
pub open spec fn marker_of(runs: bool) -> Seq<char> {
    if runs {
        "[orx-run:"@
    } else {
        "[orx-experiment:"@
    }
}

/// The text after the first occurrence of `p` in `s`, if `p` occurs.
pub open spec fn after_first(s: Seq<char>, p: Seq<char>) -> Option<Seq<char>> {
    if exists|i: int| #[trigger] occurs_at(s, p, i) {
        let i = choose|i: int| #[trigger] occurs_at(s, p, i) && forall|j: int| 0 <= j < i ==> !occurs_at(s, p, j);
        Some(s.skip(i + p.len()))
    } else {
        None
    }
}

/// The text up to the first `]`.
pub open spec fn before_bracket(s: Seq<char>) -> Seq<char> {
    if exists|i: int| 0 <= i < s.len() && s[i] == ']' {
        let i = choose|i: int| 0 <= i < s.len() && s[i] == ']' && forall|j: int| 0 <= j < i ==> s[j] != ']';
        s.take(i)
    } else {
        s
    }
}

/// The ids after scanning one line for a marker.
pub open spec fn marker_step(targets: Seq<Seq<char>>, line: Seq<char>, runs: bool) -> Seq<Seq<char>> {
    match after_first(trim_seq(line), marker_of(runs)) {
        Some(rest) => pushed(targets, before_bracket(rest)),
        None => targets,
    }
}

/// The ids after scanning lines for markers, in order.
pub open spec fn marker_scan(targets: Seq<Seq<char>>, lines: Seq<Seq<char>>, runs: bool) -> Seq<Seq<char>>
    decreases lines.len(),
{
    if lines.len() == 0 {
        targets
    } else {
        marker_step(marker_scan(targets, lines.drop_last(), runs), lines.last(), runs)
    }
}

/// The position right after the first occurrence of `p` in `v`.
fn after_first_pos(v: &Vec<char>, p: &str) -> (r: Option<usize>)
    ensures
        match r {
            Some(k) => k <= v@.len() && after_first(v@, p@) == Some(v@.skip(k as int)),
            None => after_first(v@, p@) is None,
        },
{
    let q = chars_of(p);
    match find_from(v, &q, 0) {
        Some(i) => {
            proof {
                let c = choose|x: int| #[trigger] occurs_at(v@, p@, x) && forall|j: int| 0 <= j < x ==> !occurs_at(v@, p@, j);
                assert(occurs_at(v@, p@, i as int));
                if c < i {
                } else if c > i {
                    assert(!occurs_at(v@, p@, i as int));
                }
            }
            let vl = v.len();
            assert(i + q@.len() <= vl);
            Some(i + q.len())
        },
        None => {
            proof {
                if exists|x: int| #[trigger] occurs_at(v@, p@, x) {
                    let x = choose|x: int| #[trigger] occurs_at(v@, p@, x);
                    assert(0 <= x);
                }
            }
            None
        },
    }
}

/// The end of the text before the first `]` at or after `from`.
fn bracket_end(v: &Vec<char>, from: usize) -> (r: usize)
    requires
        from <= v@.len(),
    ensures
        from <= r <= v@.len(),
        v@.subrange(from as int, r as int) == before_bracket(v@.skip(from as int)),
{
    let ghost s = v@.skip(from as int);
    let mut k: usize = from;
    while k < v.len() && v[k] != ']'
        invariant
            from <= k <= v@.len(),
            s == v@.skip(from as int),
            forall|j: int| 0 <= j < k - from ==> s[j] != ']',
        decreases v@.len() - k,
    {
        assert(s[k - from] == v@[k as int]);
        k = k + 1;
    }
    proof {
        if k < v@.len() {
            assert(s[k - from] == ']');
            let c = choose|i: int| 0 <= i < s.len() && s[i] == ']' && forall|j: int| 0 <= j < i ==> s[j] != ']';
            if c < k - from {
            } else if c > k - from {
                assert(s[k - from] != ']');
            }
            assert(s.take(k - from) =~= v@.subrange(from as int, k as int));
        } else {
            assert(s =~= v@.subrange(from as int, k as int));
        }
    }
    k
}

/// Adds the ids that `[orx-run:<id>]` (or `[orx-experiment:<id>]`) markers
/// name, line by line.
pub fn marker_tool_targets(text: &str, runs: bool, targets: &mut Vec<String>)
    requires
        distinct(views(old(targets)@)),
    ensures
        distinct(views(final(targets)@)),
        views(final(targets)@) == marker_scan(views(old(targets)@), lines_of(text@), runs),
{
    let ls = lines(text);
    let marker = if runs {
        "[orx-run:"
    } else {
        "[orx-experiment:"
    };
    let mut i: usize = 0;
    while i < ls.len()
        invariant
            i <= ls@.len(),
            views(ls@) == lines_of(text@),
            marker@ == marker_of(runs),
            distinct(views(targets@)),
            views(targets@) == marker_scan(views(old(targets)@), views(ls@).take(i as int), runs),
        decreases ls@.len() - i,
    {
        let ghost t = views(ls@).take(i + 1);
        assert(t.drop_last() =~= views(ls@).take(i as int));
        assert(t.last() == ls@[i as int]@);
        marker_line_targets(ls[i].as_str(), runs, marker, targets);
        i = i + 1;
    }
    assert(views(ls@).take(ls@.len() as int) =~= views(ls@));
}

/// Adds the id the marker on one line names.
fn marker_line_targets(line: &str, runs: bool, marker: &str, targets: &mut Vec<String>)
    requires
        distinct(views(old(targets)@)),
        marker@ == marker_of(runs),
    ensures
        distinct(views(final(targets)@)),
        views(final(targets)@) == marker_step(views(old(targets)@), line@, runs),
{
    let trimmed = trim(line);
    let v = chars_of(trimmed.as_str());
    match after_first_pos(&v, marker) {
        Some(start) => {
            let end = bracket_end(&v, start);
            let value = string_of_range(&v, start, end);
            push_tool_target(targets, value.as_str());
        },
        None => {},
    }
}

/// The REST path segment of the resource.
pub open spec fn endpoint_of(runs: bool) -> Seq<char> {
    if runs {
        "/runs/"@
    } else {
        "/experiments/"@
    }
}

/// The leading characters of `s` that may form an id.
pub open spec fn target_prefix(s: Seq<char>) -> Seq<char> {
    if exists|i: int| 0 <= i < s.len() && !target_char(s[i]) {
        let i = choose|i: int|
            0 <= i < s.len() && !target_char(s[i]) && forall|j: int| 0 <= j < i ==> target_char(s[j]);
        s.take(i)
    } else {
        s
    }
}

/// The ids after guessing from one line: an id after the resource's REST
/// path, then a `Run ID:` line (any case) for runs or an `id:` line for
/// experiments.
pub open spec fn heuristic_step(targets: Seq<Seq<char>>, line: Seq<char>, runs: bool) -> Seq<
    Seq<char>,
> {
    let trimmed = trim_seq(line);
    let t1 = match after_first(trimmed, endpoint_of(runs)) {
        Some(rest) => pushed(targets, target_prefix(rest)),
        None => targets,
    };
    if runs {
        if is_prefix("run id:"@, lower_seq(trimmed)) {
            pushed(t1, lower_seq(trimmed).skip(7))
        } else {
            t1
        }
    } else if is_prefix("id:"@, trimmed) {
        pushed(t1, trimmed.skip(3))
    } else {
        t1
    }
}

/// The ids after guessing from lines, in order.
pub open spec fn heuristic_scan(targets: Seq<Seq<char>>, lines: Seq<Seq<char>>, runs: bool) -> Seq<
    Seq<char>,
>
    decreases lines.len(),
{
    if lines.len() == 0 {
        targets
    } else {
        heuristic_step(heuristic_scan(targets, lines.drop_last(), runs), lines.last(), runs)
    }
}

/// The end of the leading id characters at or after `from`.
fn target_prefix_end(v: &Vec<char>, from: usize) -> (r: usize)
    requires
        from <= v@.len(),
    ensures
        from <= r <= v@.len(),
        v@.subrange(from as int, r as int) == target_prefix(v@.skip(from as int)),
{
    let ghost s = v@.skip(from as int);
    let mut k: usize = from;
    while k < v.len() && is_target_char(v[k])
        invariant
            from <= k <= v@.len(),
            s == v@.skip(from as int),
            forall|j: int| 0 <= j < k - from ==> target_char(s[j]),
        decreases v@.len() - k,
    {
        assert(s[k - from] == v@[k as int]);
        k = k + 1;
    }
    proof {
        if k < v@.len() {
            assert(!target_char(s[k - from]));
            let c = choose|i: int|
                0 <= i < s.len() && !target_char(s[i]) && forall|j: int| 0 <= j < i ==> target_char(s[j]);
            if c < k - from {
            } else if c > k - from {
                assert(target_char(s[k - from]) == false);
            }
            assert(s.take(k - from) =~= v@.subrange(from as int, k as int));
        } else {
            assert(s =~= v@.subrange(from as int, k as int));
        }
    }
    k
}

/// Adds the ids guessed from one line.
fn heuristic_line(line: &str, runs: bool, endpoint: &str, targets: &mut Vec<String>)
    requires
        distinct(views(old(targets)@)),
        endpoint@ == endpoint_of(runs),
    ensures
        distinct(views(final(targets)@)),
        views(final(targets)@) == heuristic_step(views(old(targets)@), line@, runs),
{
    let trimmed = trim(line);
    let v = chars_of(trimmed.as_str());
    match after_first_pos(&v, endpoint) {
        Some(start) => {
            let end = target_prefix_end(&v, start);
            let value = string_of_range(&v, start, end);
            push_tool_target(targets, value.as_str());
        },
        None => {},
    }
    if runs {
        let lower = to_ascii_lowercase(trimmed.as_str());
        if starts_with(lower.as_str(), "run id:") {
            let lv = chars_of(lower.as_str());
            proof {
                reveal_strlit("run id:");
            }
            let rest = string_of_range(&lv, 7, lv.len());
            assert(rest@ =~= lower@.skip(7));
            push_tool_target(targets, rest.as_str());
        }
    } else if starts_with(trimmed.as_str(), "id:") {
        proof {
            reveal_strlit("id:");
        }
        let rest = string_of_range(&v, 3, v.len());
        assert(rest@ =~= trimmed@.skip(3));
        push_tool_target(targets, rest.as_str());
    }
}

/// Adds the ids guessed from the output: ids after the resource's REST path
/// and ids on `Run ID:` (runs) or `id:` (experiments) lines.
pub fn heuristic_tool_targets(text: &str, runs: bool, targets: &mut Vec<String>)
    requires
        distinct(views(old(targets)@)),
    ensures
        distinct(views(final(targets)@)),
        views(final(targets)@) == heuristic_scan(views(old(targets)@), lines_of(text@), runs),
{
    let ls = lines(text);
    let endpoint = if runs {
        "/runs/"
    } else {
        "/experiments/"
    };
    let mut i: usize = 0;
    while i < ls.len()
        invariant
            i <= ls@.len(),
            views(ls@) == lines_of(text@),
            endpoint@ == endpoint_of(runs),
            distinct(views(targets@)),
            views(targets@) == heuristic_scan(views(old(targets)@), views(ls@).take(i as int), runs),
        decreases ls@.len() - i,
    {
        let ghost t = views(ls@).take(i + 1);
        assert(t.drop_last() =~= views(ls@).take(i as int));
        assert(t.last() == ls@[i as int]@);
        heuristic_line(ls[i].as_str(), runs, endpoint, targets);
        i = i + 1;
    }
    assert(views(ls@).take(ls@.len() as int) =~= views(ls@));
}

// ---------------------------------------------------------------------------
// Stripping markers from what is shown
// ---------------------------------------------------------------------------

/// A line that is only a target marker.
pub open spec fn marker_line(piece: Seq<char>) -> bool {
    let t = trim_seq(piece);
    (is_prefix("[orx-run:"@, t) || is_prefix("[orx-experiment:"@, t)) && is_suffix("]"@, t)
}

/// The text with its marker lines removed, line endings kept: read from
/// the left, the text kept so far and the line in progress.
pub open spec fn strip_scan(s: Seq<char>) -> (Seq<char>, Seq<char>)
    decreases s.len(),
{
    if s.len() == 0 {
        (Seq::empty(), Seq::empty())
    } else {
        let (kept, cur) = strip_scan(s.drop_last());
        let line = cur.push(s.last());
        if s.last() == '\n' {
            (if marker_line(line) {
                kept
            } else {
                kept + line
            }, Seq::empty())
        } else {
            (kept, line)
        }
    }
}

/// The text without the lines that are only a target marker.
pub open spec fn stripped(s: Seq<char>) -> Seq<char> {
    let (kept, cur) = strip_scan(s);
    if cur.len() > 0 && marker_line(cur) {
        kept
    } else {
        kept + cur
    }
}

/// Whether a piece of text is a marker line.
fn is_marker_line(piece: &str) -> (r: bool)
    ensures
        r == marker_line(piece@),
{
    let t = trim(piece);
    (starts_with(t.as_str(), "[orx-run:") || starts_with(t.as_str(), "[orx-experiment:"))
        && crate::text::ends_with(t.as_str(), "]")
}

/// Removes the lines that are only a target marker.
pub fn strip_tool_target_markers(text: &mut String)
    ensures
        final(text)@ == stripped(old(text)@),
{
    let v = chars_of(text.as_str());
    let mut kept = String::new();
    let mut cur = String::new();
    let mut i: usize = 0;
    while i < v.len()
        invariant
            i <= v@.len(),
            v@ == old(text)@,
            (kept@, cur@) == strip_scan(v@.take(i as int)),
        decreases v@.len() - i,
    {
        assert(v@.take(i + 1).drop_last() =~= v@.take(i as int));
        push_char(&mut cur, v[i]);
        if v[i] == '\n' {
            if !is_marker_line(cur.as_str()) {
                crate::text::push_str(&mut kept, cur.as_str());
            }
            cur = String::new();
        }
        i = i + 1;
    }
    assert(v@.take(v@.len() as int) =~= v@);
    if !(!cur.as_str().is_empty() && is_marker_line(cur.as_str())) {
        crate::text::push_str(&mut kept, cur.as_str());
    }
    *text = kept;
}

// ---------------------------------------------------------------------------
// Bounded scanning
// ---------------------------------------------------------------------------

/// Outputs longer than this many UTF-8 bytes are scanned only at both ends.
pub const TOOL_TARGET_SCAN_BYTES: usize = 256000;

/// How many bytes each end window of a long output holds at most.
pub const SCAN_WINDOW_BYTES: usize = 128000;

/// The last character boundary at or before `n`.
pub open spec fn boundary_at_most(bytes: Seq<u8>, n: int) -> int {
    choose|j: int|
        0 <= j <= n && is_char_boundary(bytes, j) && forall|k: int|
            j < k <= n ==> !is_char_boundary(bytes, k)
}

/// The first character boundary at or after `n`.
pub open spec fn boundary_at_least(bytes: Seq<u8>, n: int) -> int {
    choose|j: int|
        n <= j <= bytes.len() && is_char_boundary(bytes, j) && forall|k: int|
            n <= k < j ==> !is_char_boundary(bytes, k)
}

/// What of a tool output is scanned for ids: all of it when it is short,
/// else its first and its last `SCAN_WINDOW_BYTES` bytes, each cut at a
/// character boundary so that neither window grows past that size.
pub open spec fn scan_windows(s: Seq<char>) -> Seq<Seq<char>> {
    let b = encode_utf8(s);
    if b.len() <= TOOL_TARGET_SCAN_BYTES {
        seq![s]
    } else {
        seq![
            decode_utf8(b.subrange(0, boundary_at_most(b, SCAN_WINDOW_BYTES as int))),
            decode_utf8(
                b.subrange(boundary_at_least(b, b.len() - SCAN_WINDOW_BYTES), b.len() as int),
            ),
        ]
    }
}

/// The windows of a tool output that are scanned for ids.
pub fn bounded_tool_scan_windows(text: &str) -> (r: Vec<String>)
    ensures
        views(r@) == scan_windows(text@),
{
    proof {
        encode_utf8_valid_utf8(text@);
        is_char_boundary_start_end_of_seq(encode_utf8(text@));
    }
    let len = text.as_bytes().len();
    if len <= TOOL_TARGET_SCAN_BYTES {
        let r = vec![owned(text)];
        assert(views(r@) =~= seq![text@]);
        return r;
    }
    let ghost b = encode_utf8(text@);
    let mut end: usize = SCAN_WINDOW_BYTES;
    while !text.is_char_boundary(end)
        invariant
            end <= SCAN_WINDOW_BYTES,
            b == encode_utf8(text@),
            b.len() == len,
            valid_utf8(b),
            is_char_boundary(b, 0),
            forall|k: int| end < k <= SCAN_WINDOW_BYTES ==> !is_char_boundary(b, k),
        decreases end,
    {
        end = end - 1;
    }
    let mut start: usize = len - SCAN_WINDOW_BYTES;
    while !text.is_char_boundary(start)
        invariant
            len - SCAN_WINDOW_BYTES <= start <= len,
            b == encode_utf8(text@),
            b.len() == len,
            valid_utf8(b),
            is_char_boundary(b, len as int),
            forall|k: int| len - SCAN_WINDOW_BYTES <= k < start ==> !is_char_boundary(b, k),
        decreases len - start,
    {
        start = start + 1;
    }
    proof {
        let e = boundary_at_most(b, SCAN_WINDOW_BYTES as int);
        if e < end {
            assert(!is_char_boundary(b, end as int));
        } else if e > end {
            assert(!is_char_boundary(b, e));
        }
        let st = boundary_at_least(b, len - SCAN_WINDOW_BYTES);
        if st < start {
            assert(!is_char_boundary(b, st));
        } else if st > start {
            assert(!is_char_boundary(b, start as int));
        }
    }
    let (head, _) = text.split_at(end);
    let (_, tail) = text.split_at(start);
    let h = owned(head);
    let t = owned(tail);
    proof {
        encode_utf8_decode_utf8(head@);
        encode_utf8_decode_utf8(tail@);
    }
    let r = vec![h, t];
    assert(views(r@) =~= scan_windows(text@));
    r
}

// ---------------------------------------------------------------------------
// The command of a tool call
// ---------------------------------------------------------------------------

/// The command a tool input carries: the first string among its `command`,
/// its `cmd`, and the `command` and `cmd` of its `arguments` object; empty
/// when there is none.
pub open spec fn command_of(input: JsonValue) -> Seq<char> {
    let args = match member(input, "arguments"@) {
        Some(a) => a,
        None => JsonValue::Null,
    };
    match string_value(member(input, "command"@)) {
        Some(c) => c,
        None => match string_value(member(input, "cmd"@)) {
            Some(c) => c,
            None => match string_value(member(args, "command"@)) {
                Some(c) => c,
                None => match string_value(member(args, "cmd"@)) {
                    Some(c) => c,
                    None => Seq::empty(),
                },
            },
        },
    }
}

/// The string a member holds, if any.
fn member_str<'a>(v: &'a JsonValue, key: &str) -> (r: Option<&'a str>)
    ensures
        match r {
            Some(x) => string_value(member(*v, key@)) == Some(x@),
            None => string_value(member(*v, key@)) is None,
        },
{
    match get(v, key) {
        Some(x) => as_str(x),
        None => None,
    }
}

/// The command a tool input carries.
pub fn tool_command(input: &JsonValue) -> (r: String)
    ensures
        r@ == command_of(*input),
{
    if let Some(c) = member_str(input, "command") {
        return owned(c);
    }
    if let Some(c) = member_str(input, "cmd") {
        return owned(c);
    }
    match get(input, "arguments") {
        Some(args) => {
            if let Some(c) = member_str(args, "command") {
                return owned(c);
            }
            if let Some(c) = member_str(args, "cmd") {
                return owned(c);
            }
            String::new()
        },
        None => {
            let null = JsonValue::Null;
            assert(member(null, "command"@) is None);
            String::new()
        },
    }
}

/// The words of a text: its maximal runs of non-White_Space characters,
/// read from the left (the words so far and the one in progress).
pub open spec fn word_scan(s: Seq<char>) -> (Seq<Seq<char>>, Seq<char>)
    decreases s.len(),
{
    if s.len() == 0 {
        (Seq::empty(), Seq::empty())
    } else {
        let (done, cur) = word_scan(s.drop_last());
        if char_is_whitespace(s.last()) {
            if cur.len() > 0 {
                (done.push(cur), Seq::empty())
            } else {
                (done, cur)
            }
        } else {
            (done, cur.push(s.last()))
        }
    }
}

/// `str::split_whitespace`.
pub open spec fn words_of(s: Seq<char>) -> Seq<Seq<char>> {
    let (done, cur) = word_scan(s);
    if cur.len() > 0 {
        done.push(cur)
    } else {
        done
    }
}

/// A command with its words separated by single spaces, in lower case.
pub open spec fn normalized_command(cmd: Seq<char>) -> Seq<char> {
    lower_seq(join_with(words_of(cmd), " "@))
}

/// A command with its words separated by single spaces, in lower case.
pub fn normalize_command(cmd: &str) -> (r: String)
    ensures
        r@ == normalized_command(cmd@),
{
    let v = chars_of(cmd);
    let mut words: Vec<String> = Vec::new();
    let mut cur = String::new();
    let mut i: usize = 0;
    while i < v.len()
        invariant
            i <= v@.len(),
            v@ == cmd@,
            (views(words@), cur@) == word_scan(v@.take(i as int)),
        decreases v@.len() - i,
    {
        assert(v@.take(i + 1).drop_last() =~= v@.take(i as int));
        if is_whitespace(v[i]) {
            if !cur.as_str().is_empty() {
                let ghost before = views(words@);
                let w = cur;
                cur = String::new();
                words.push(w);
                assert(views(words@) =~= before.push(w@));
            }
        } else {
            push_char(&mut cur, v[i]);
        }
        i = i + 1;
    }
    assert(v@.take(v@.len() as int) =~= v@);
    if !cur.as_str().is_empty() {
        let ghost before = views(words@);
        let w = cur;
        words.push(w);
        assert(views(words@) =~= before.push(w@));
    }
    let joined = join(&words, " ");
    to_ascii_lowercase(joined.as_str())
}

/// The resource a tool call's command is about: runs (`orx logs`),
/// experiments (`orx exp status`, `orx exp desc`), or none.
pub open spec fn command_resource(cmd: Seq<char>) -> Option<bool> {
    let n = normalized_command(cmd);
    if contains_seq(n, "orx logs"@) {
        Some(true)
    } else if contains_seq(n, "orx exp status"@) || contains_seq(n, "orx exp desc"@) {
        Some(false)
    } else {
        None
    }
}

// ---------------------------------------------------------------------------
// Keeping a tool call's targets
// ---------------------------------------------------------------------------

/// At most this many stored ids are read back from a tool input.
pub const TOOL_TARGET_INSPECTION_CAP: usize = 1024;

/// The strings among some values, in order.
pub open spec fn strings_in(items: Seq<JsonValue>) -> Seq<Seq<char>>
    decreases items.len(),
{
    if items.len() == 0 {
        Seq::empty()
    } else {
        strings_in(items.drop_last()) + match items.last() {
            JsonValue::Str(s) => seq![s@],
            _ => Seq::empty(),
        }
    }
}

/// The first `n` elements of a sequence (all of them when it is shorter).
pub open spec fn first_n<T>(s: Seq<T>, n: int) -> Seq<T> {
    if s.len() <= n {
        s
    } else {
        s.take(n)
    }
}

/// The ids stored under a key: the first strings of its array.
pub open spec fn stored_ids(v: Option<JsonValue>) -> Seq<Seq<char>> {
    match v {
        Some(JsonValue::Array(items)) => first_n(strings_in(items@), TOOL_TARGET_INSPECTION_CAP as int),
        _ => Seq::empty(),
    }
}

/// The strings among the first entries of a legacy id array.
pub open spec fn legacy_ids(items: Seq<JsonValue>) -> Seq<Seq<char>> {
    strings_in(first_n(items, TOOL_TARGET_INSPECTION_CAP as int))
}

/// The ids after adding each of `values` in turn.
pub open spec fn push_all(targets: Seq<Seq<char>>, values: Seq<Seq<char>>) -> Seq<Seq<char>>
    decreases values.len(),
{
    if values.len() == 0 {
        targets
    } else {
        pushed(push_all(targets, values.drop_last()), values.last())
    }
}

/// The texts of a tool state that are scanned: its output, then its error.
pub open spec fn texts_of(output: Option<String>, error: Option<String>) -> Seq<Seq<char>> {
    (match output {
        Some(o) => seq![o@],
        None => Seq::empty(),
    }) + match error {
        Some(e) => seq![e@],
        None => Seq::empty(),
    }
}

/// The scanned windows of some texts, in order.
pub open spec fn windows_of(texts: Seq<Seq<char>>) -> Seq<Seq<char>>
    decreases texts.len(),
{
    if texts.len() == 0 {
        Seq::empty()
    } else {
        windows_of(texts.drop_last()) + scan_windows(texts.last())
    }
}

/// The ids after scanning windows for markers, in order.
pub open spec fn marker_windows(targets: Seq<Seq<char>>, windows: Seq<Seq<char>>, runs: bool) -> Seq<
    Seq<char>,
>
    decreases windows.len(),
{
    if windows.len() == 0 {
        targets
    } else {
        marker_scan(marker_windows(targets, windows.drop_last(), runs), lines_of(windows.last()), runs)
    }
}

/// The ids after guessing from windows, in order.
pub open spec fn heuristic_windows(targets: Seq<Seq<char>>, windows: Seq<Seq<char>>, runs: bool) -> Seq<
    Seq<char>,
>
    decreases windows.len(),
{
    if windows.len() == 0 {
        targets
    } else {
        heuristic_scan(
            heuristic_windows(targets, windows.drop_last(), runs),
            lines_of(windows.last()),
            runs,
        )
    }
}

/// The input key the resource's ids are kept under.
pub open spec fn target_key(runs: bool) -> Seq<char> {
    if runs {
        "runTargetIds"@
    } else {
        "experimentTargetIds"@
    }
}

/// The input key that records that the ids came from markers.
pub open spec fn authority_key(runs: bool) -> Seq<char> {
    if runs {
        "runTargetIdsAuthoritative"@
    } else {
        "experimentTargetIdsAuthoritative"@
    }
}

/// The ids the CLI's markers name in the texts.
pub open spec fn marked_ids(texts: Seq<Seq<char>>, runs: bool) -> Seq<Seq<char>> {
    marker_windows(Seq::empty(), windows_of(texts), runs)
}

/// Whether the input already records its ids as coming from markers.
pub open spec fn was_authoritative(input: JsonValue, runs: bool) -> bool {
    member(input, authority_key(runs)) == Some(JsonValue::Bool(true))
}

/// The ids a tool call keeps. Marker ids are authoritative: they replace
/// guessed ids (keeping earlier marker ids). Without markers the stored ids
/// stay, and ids are guessed from the output only while no marker was ever
/// seen.
pub open spec fn kept_ids(input: JsonValue, texts: Seq<Seq<char>>, runs: bool) -> Seq<Seq<char>> {
    let marks = marked_ids(texts, runs);
    let prev = was_authoritative(input, runs);
    let existing = stored_ids(member(input, target_key(runs)));
    if marks.len() > 0 {
        push_all(
            if prev {
                push_all(Seq::empty(), existing)
            } else {
                Seq::empty()
            },
            marks,
        )
    } else if prev {
        push_all(Seq::empty(), existing)
    } else {
        heuristic_windows(push_all(Seq::empty(), existing), windows_of(texts), runs)
    }
}

/// A JSON array of exactly these strings.
pub open spec fn is_string_array(v: JsonValue, ids: Seq<Seq<char>>) -> bool {
    v matches JsonValue::Array(items) && items@.len() == ids.len() && forall|i: int|
        0 <= i < ids.len() ==> (#[trigger] items@[i] matches JsonValue::Str(s) && s@ == ids[i])
}

/// A JSON array of the given strings.
pub(crate) fn string_array(ids: Vec<String>) -> (r: JsonValue)
    ensures
        is_string_array(r, views(ids@)),
{
    let ghost v = views(ids@);
    let mut items: Vec<JsonValue> = Vec::new();
    let mut rest = ids;
    let n = rest.len();
    let mut k: usize = 0;
    while rest.len() > 0
        invariant
            k + rest@.len() == n,
            n == v.len(),
            views(rest@) == v.skip(k as int),
            items@.len() == k,
            forall|i: int| 0 <= i < k ==> (#[trigger] items@[i] matches JsonValue::Str(s) && s@ == v[i]),
        decreases rest@.len(),
    {
        let ghost before = rest@;
        let s = rest.remove(0);
        assert(s == before[0]);
        assert(views(before)[0] == s@);
        assert(v.skip(k as int)[0] == v[k as int]);
        assert(s@ == v[k as int]);
        assert(rest@ =~= before.subrange(1, before.len() as int));
        assert forall|j: int| 0 <= j < rest@.len() implies views(rest@)[j] == v.skip(k + 1)[j] by {
            assert(rest@[j] == before[j + 1]);
            assert(views(before)[j + 1] == v.skip(k as int)[j + 1]);
        }
        assert(views(rest@) =~= v.skip(k + 1));
        items.push(JsonValue::Str(s));
        k = k + 1;
    }
    JsonValue::Array(items)
}

/// The ids stored under a key.
pub(crate) fn read_ids(v: Option<&JsonValue>) -> (r: Vec<String>)
    ensures
        views(r@) == stored_ids(match v {
            Some(x) => Some(*x),
            None => None,
        }),
{
    let mut out: Vec<String> = Vec::new();
    match v {
        Some(JsonValue::Array(items)) => {
            let mut i: usize = 0;
            while i < items.len()
                invariant
                    i <= items@.len(),
                    views(out@) == first_n(strings_in(items@.take(i as int)), TOOL_TARGET_INSPECTION_CAP as int),
                decreases items@.len() - i,
            {
                let ghost before = strings_in(items@.take(i as int));
                let ghost prev = views(out@);
                assert(items@.take(i + 1).drop_last() =~= items@.take(i as int));
                assert(items@.take(i + 1).last() == items@[i as int]);
                match &items[i] {
                    JsonValue::Str(x) => {
                        let ghost after = before.push(x@);
                        assert(strings_in(items@.take(i + 1)) =~= after);
                        if out.len() < TOOL_TARGET_INSPECTION_CAP {
                            out.push(x.clone());
                            assert(views(out@) =~= prev.push(x@));
                            assert(before.len() < TOOL_TARGET_INSPECTION_CAP);
                        } else {
                            assert(after.take(TOOL_TARGET_INSPECTION_CAP as int) =~= before.take(
                                TOOL_TARGET_INSPECTION_CAP as int,
                            ));
                        }
                    },
                    _ => {
                        assert(strings_in(items@.take(i + 1)) =~= before);
                    },
                }
                i = i + 1;
            }
            assert(items@.take(items@.len() as int) =~= items@);
        },
        _ => {},
    }
    out
}

/// The strings among the first entries of a legacy id array.
fn read_legacy(items: &Vec<JsonValue>) -> (r: Vec<String>)
    ensures
        views(r@) == legacy_ids(items@),
{
    let mut out: Vec<String> = Vec::new();
    let n = if items.len() < TOOL_TARGET_INSPECTION_CAP {
        items.len()
    } else {
        TOOL_TARGET_INSPECTION_CAP
    };
    let ghost first = first_n(items@, TOOL_TARGET_INSPECTION_CAP as int);
    assert(first.len() == n);
    let mut i: usize = 0;
    while i < n
        invariant
            i <= n <= items@.len(),
            first == first_n(items@, TOOL_TARGET_INSPECTION_CAP as int),
            first.len() == n,
            views(out@) == strings_in(first.take(i as int)),
        decreases n - i,
    {
        let ghost prev = views(out@);
        assert(first.take(i + 1).drop_last() =~= first.take(i as int));
        assert(first[i as int] == items@[i as int]);
        assert(first.take(i + 1).last() == items@[i as int]);
        match &items[i] {
            JsonValue::Str(x) => {
                out.push(x.clone());
                assert(views(out@) =~= prev.push(x@));
            },
            _ => {},
        }
        i = i + 1;
    }
    assert(first.take(n as int) =~= first);
    out
}

/// Adds each value in turn.
fn push_each(targets: &mut Vec<String>, values: &Vec<String>)
    requires
        distinct(views(old(targets)@)),
    ensures
        distinct(views(final(targets)@)),
        views(final(targets)@) == push_all(views(old(targets)@), views(values@)),
{
    let mut i: usize = 0;
    while i < values.len()
        invariant
            i <= values@.len(),
            distinct(views(targets@)),
            views(targets@) == push_all(views(old(targets)@), views(values@).take(i as int)),
        decreases values@.len() - i,
    {
        assert(views(values@).take(i + 1).drop_last() =~= views(values@).take(i as int));
        assert(views(values@).take(i + 1).last() == values@[i as int]@);
        push_tool_target(targets, values[i].as_str());
        i = i + 1;
    }
    assert(views(values@).take(values@.len() as int) =~= views(values@));
}

/// Scanning windows one after the other is scanning all of them.
proof fn lemma_marker_windows_append(t: Seq<Seq<char>>, a: Seq<Seq<char>>, b: Seq<Seq<char>>, runs: bool)
    ensures
        marker_windows(t, a + b, runs) == marker_windows(marker_windows(t, a, runs), b, runs),
    decreases b.len(),
{
    if b.len() == 0 {
        assert(a + b =~= a);
    } else {
        assert((a + b).drop_last() =~= a + b.drop_last());
        lemma_marker_windows_append(t, a, b.drop_last(), runs);
    }
}

/// Guessing from windows one after the other is guessing from all of them.
proof fn lemma_heuristic_windows_append(t: Seq<Seq<char>>, a: Seq<Seq<char>>, b: Seq<Seq<char>>, runs: bool)
    ensures
        heuristic_windows(t, a + b, runs) == heuristic_windows(heuristic_windows(t, a, runs), b, runs),
    decreases b.len(),
{
    if b.len() == 0 {
        assert(a + b =~= a);
    } else {
        assert((a + b).drop_last() =~= a + b.drop_last());
        lemma_heuristic_windows_append(t, a, b.drop_last(), runs);
    }
}

/// Scans the windows of the texts for markers (`markers`) or guesses ids
/// from them (otherwise).
fn scan_texts(texts: &Vec<String>, runs: bool, markers: bool, targets: &mut Vec<String>)
    requires
        distinct(views(old(targets)@)),
    ensures
        distinct(views(final(targets)@)),
        views(final(targets)@) == if markers {
            marker_windows(views(old(targets)@), windows_of(views(texts@)), runs)
        } else {
            heuristic_windows(views(old(targets)@), windows_of(views(texts@)), runs)
        },
{
    let mut i: usize = 0;
    while i < texts.len()
        invariant
            i <= texts@.len(),
            distinct(views(targets@)),
            views(targets@) == if markers {
                marker_windows(views(old(targets)@), windows_of(views(texts@).take(i as int)), runs)
            } else {
                heuristic_windows(views(old(targets)@), windows_of(views(texts@).take(i as int)), runs)
            },
        decreases texts@.len() - i,
    {
        let ghost tk = views(texts@).take(i as int);
        assert(views(texts@).take(i + 1).drop_last() =~= tk);
        assert(views(texts@).take(i + 1).last() == texts@[i as int]@);
        let ws = bounded_tool_scan_windows(texts[i].as_str());
        let ghost mid = views(targets@);
        let mut j: usize = 0;
        while j < ws.len()
            invariant
                j <= ws@.len(),
                distinct(views(targets@)),
                views(targets@) == if markers {
                    marker_windows(mid, views(ws@).take(j as int), runs)
                } else {
                    heuristic_windows(mid, views(ws@).take(j as int), runs)
                },
            decreases ws@.len() - j,
        {
            assert(views(ws@).take(j + 1).drop_last() =~= views(ws@).take(j as int));
            assert(views(ws@).take(j + 1).last() == ws@[j as int]@);
            if markers {
                marker_tool_targets(ws[j].as_str(), runs, targets);
            } else {
                heuristic_tool_targets(ws[j].as_str(), runs, targets);
            }
            j = j + 1;
        }
        assert(views(ws@).take(ws@.len() as int) =~= views(ws@));
        proof {
            lemma_marker_windows_append(views(old(targets)@), windows_of(tk), views(ws@), runs);
            lemma_heuristic_windows_append(views(old(targets)@), windows_of(tk), views(ws@), runs);
        }
        i = i + 1;
    }
    assert(views(texts@).take(texts@.len() as int) =~= views(texts@));
}

/// A tool output as kept: capped, without marker lines.
pub open spec fn shown(o: Option<String>) -> Option<Seq<char>> {
    match o {
        Some(x) => Some(stripped(capped(x@))),
        None => None,
    }
}

/// The view of an optional string.
pub open spec fn opt_view(o: Option<String>) -> Option<Seq<char>> {
    match o {
        Some(x) => Some(x@),
        None => None,
    }
}

/// How a tool call's input records its targets after preservation, given
/// the input before, the texts scanned and the resource.
pub open spec fn targets_recorded(before: JsonValue, after: JsonValue, texts: Seq<Seq<char>>, runs: bool) -> bool {
    let ids = kept_ids(before, texts, runs);
    let authoritative = marked_ids(texts, runs).len() > 0 || was_authoritative(before, runs);
    &&& after is Object
    &&& if ids.len() > 0 {
        member(after, target_key(runs)) matches Some(v) && is_string_array(v, ids)
    } else {
        member(after, target_key(runs)) == member(before, target_key(runs))
    }
    &&& if authoritative {
        member(after, authority_key(runs)) == Some(JsonValue::Bool(true))
    } else {
        member(after, authority_key(runs)) == member(before, authority_key(runs))
    }
    &&& match member(before, "targetIds"@) {
        Some(JsonValue::Array(items)) => member(after, "targetIds"@) matches Some(v)
            && is_string_array(v, push_all(Seq::empty(), legacy_ids(items@))),
        _ => member(after, "targetIds"@) == member(before, "targetIds"@),
    }
    &&& forall|k: Seq<char>|
        k != target_key(runs) && k != authority_key(runs) && k != "targetIds"@ ==> member(after, k)
            == member(before, k)
}

/// The ids a tool call keeps, and whether they came from markers.
fn compute_ids(obj: &JsonValue, texts: &Vec<String>, runs: bool) -> (r: (Vec<String>, bool))
    ensures
        views(r.0@) == kept_ids(*obj, views(texts@), runs),
        r.1 == (marked_ids(views(texts@), runs).len() > 0 || was_authoritative(*obj, runs)),
{
    let key = if runs {
        "runTargetIds"
    } else {
        "experimentTargetIds"
    };
    let auth_key = if runs {
        "runTargetIdsAuthoritative"
    } else {
        "experimentTargetIdsAuthoritative"
    };
    let mut marks: Vec<String> = Vec::new();
    assert(views(marks@) =~= Seq::<Seq<char>>::empty());
    scan_texts(texts, runs, true, &mut marks);
    let prev = match get(obj, auth_key) {
        Some(v) => as_bool(v) == Some(true),
        None => false,
    };
    let existing = read_ids(get(obj, key));
    let mut targets: Vec<String> = Vec::new();
    assert(views(targets@) =~= Seq::<Seq<char>>::empty());
    if marks.len() > 0 {
        if prev {
            push_each(&mut targets, &existing);
        }
        push_each(&mut targets, &marks);
    } else {
        push_each(&mut targets, &existing);
        if !prev {
            scan_texts(texts, runs, false, &mut targets);
        }
    }
    (targets, marks.len() > 0 || prev)
}

/// The normalised legacy ids of an input, if it has a legacy id array.
fn legacy_of(obj: &JsonValue) -> (r: Option<Vec<String>>)
    ensures
        match member(*obj, "targetIds"@) {
            Some(JsonValue::Array(items)) => r matches Some(l) && views(l@) == push_all(
                Seq::empty(),
                legacy_ids(items@),
            ),
            _ => r is None,
        },
{
    match get(obj, "targetIds") {
        Some(JsonValue::Array(items)) => {
            let l = read_legacy(items);
            let mut normalized: Vec<String> = Vec::new();
            assert(views(normalized@) =~= Seq::<Seq<char>>::empty());
            push_each(&mut normalized, &l);
            Some(normalized)
        },
        _ => None,
    }
}

/// Writes the kept ids, the authority flag and the normalised legacy ids
/// into a tool input.
#[verifier::spinoff_prover]
fn record_targets(obj: JsonValue, texts: &Vec<String>, runs: bool) -> (r: JsonValue)
    requires
        obj is Object,
    ensures
        targets_recorded(obj, r, views(texts@), runs),
{
    let key = if runs {
        "runTargetIds"
    } else {
        "experimentTargetIds"
    };
    let auth_key = if runs {
        "runTargetIdsAuthoritative"
    } else {
        "experimentTargetIdsAuthoritative"
    };
    proof {
        reveal_strlit("targetIds");
        reveal_strlit("runTargetIds");
        reveal_strlit("runTargetIdsAuthoritative");
        reveal_strlit("experimentTargetIds");
        reveal_strlit("experimentTargetIdsAuthoritative");
        assert(target_key(runs).len() != authority_key(runs).len());
        assert(target_key(runs).len() != "targetIds"@.len());
        assert(authority_key(runs).len() != "targetIds"@.len());
    }
    let (ids, authoritative) = compute_ids(&obj, texts, runs);
    let legacy = legacy_of(&obj);
    let ghost before = obj;
    let mut entries = match obj {
        JsonValue::Object(e) => e,
        _ => {
            return JsonValue::Null;
        },
    };
    if ids.len() > 0 {
        insert(&mut entries, key, string_array(ids));
    }
    if authoritative {
        insert(&mut entries, auth_key, JsonValue::Bool(true));
    }
    match legacy {
        Some(l) => {
            insert(&mut entries, "targetIds", string_array(l));
        },
        None => {},
    }
    JsonValue::Object(entries)
}

/// A tool output capped and stripped of marker lines.
fn show(o: Option<String>) -> (r: Option<String>)
    ensures
        opt_view(r) == shown(o),
{
    match o {
        Some(mut x) => {
            cap_tool_text(&mut x);
            strip_tool_target_markers(&mut x);
            Some(x)
        },
        None => None,
    }
}

/// The resource an input's command is about, if the input is an object.
fn resource_of(input: &Option<JsonValue>) -> (r: Option<bool>)
    ensures
        r == (match *input {
            Some(i) => if i is Object {
                command_resource(command_of(i))
            } else {
                None
            },
            None => None,
        }),
{
    match input {
        Some(i) => match i {
            JsonValue::Object(_) => {
                let cmd = tool_command(i);
                let n = normalize_command(cmd.as_str());
                if contains_str(n.as_str(), "orx logs") {
                    Some(true)
                } else if contains_str(n.as_str(), "orx exp status") || contains_str(
                    n.as_str(),
                    "orx exp desc",
                ) {
                    Some(false)
                } else {
                    None
                }
            },
            _ => None,
        },
        None => None,
    }
}

/// Whether a tool state is one whose targets are kept: its input is an
/// object whose command is about runs or experiments.
pub open spec fn keeps_targets(o: WireToolState) -> bool {
    o.input matches Some(input) && input is Object && command_resource(command_of(input)) is Some
}

/// `n` is the tool state `o` after its targets were kept: for a call about
/// runs or experiments, ids recorded in the input and output and error capped
/// and stripped of marker lines; any other call unchanged.
pub open spec fn preserved(o: WireToolState, n: WireToolState) -> bool {
    if keeps_targets(o) {
        let input = o.input.unwrap();
        &&& n.status == o.status
        &&& n.title == o.title
        &&& opt_view(n.output) == shown(o.output)
        &&& opt_view(n.error) == shown(o.error)
        &&& n.input matches Some(after) && targets_recorded(
            input,
            after,
            texts_of(o.output, o.error),
            command_resource(command_of(input)).unwrap(),
        )
    } else {
        n == o
    }
}

/// Records on an `orx logs` or `orx exp status|desc` tool call which runs or
/// experiments it was about, then caps its output and error and strips
/// the marker lines from them. Other tool calls are left as they are.
pub fn preserve_tool_targets(state: &mut WireToolState)
    ensures
        preserved(*old(state), *final(state)),
{
    let runs = match resource_of(&state.input) {
        Some(r) => r,
        None => {
            return ;
        },
    };
    let ghost o = *state;
    let mut texts: Vec<String> = Vec::new();
    match &state.output {
        Some(x) => texts.push(x.clone()),
        None => {},
    }
    match &state.error {
        Some(x) => texts.push(x.clone()),
        None => {},
    }
    assert(views(texts@) =~= texts_of(o.output, o.error));
    let mut taken: Option<JsonValue> = None;
    std::mem::swap(&mut taken, &mut state.input);
    let obj = match taken {
        Some(v) => v,
        None => {
            return ;
        },
    };
    state.input = Some(record_targets(obj, &texts, runs));
    let mut out: Option<String> = None;
    std::mem::swap(&mut out, &mut state.output);
    state.output = show(out);
    let mut err: Option<String> = None;
    std::mem::swap(&mut err, &mut state.error);
    state.error = show(err);
}

// ---------------------------------------------------------------------------
// Bounding every tool part
// ---------------------------------------------------------------------------

/// Stripping marker lines never lengthens a text.
proof fn lemma_strip_scan_len(s: Seq<char>)
    ensures
        strip_scan(s).0.len() + strip_scan(s).1.len() <= s.len(),
    decreases s.len(),
{
    if s.len() > 0 {
        lemma_strip_scan_len(s.drop_last());
    }
}

/// Scanning a text that ends at a line boundary, then more text, keeps
/// what each part keeps.
proof fn lemma_strip_scan_concat(a: Seq<char>, b: Seq<char>)
    requires
        strip_scan(a).1.len() == 0,
    ensures
        strip_scan(a + b) == (strip_scan(a).0 + strip_scan(b).0, strip_scan(b).1),
    decreases b.len(),
{
    if b.len() == 0 {
        assert(a + b =~= a);
        assert(strip_scan(a).0 + strip_scan(b).0 =~= strip_scan(a).0);
    } else {
        lemma_strip_scan_concat(a, b.drop_last());
        assert((a + b).drop_last() =~= a + b.drop_last());
        assert((a + b).last() == b.last());
        let ka = strip_scan(a).0;
        let (kb, cb) = strip_scan(b.drop_last());
        let line = cb.push(b.last());
        assert(ka + (kb + line) =~= (ka + kb) + line);
    }
}

/// The line in progress never holds a line break.
proof fn lemma_strip_scan_open_line(s: Seq<char>)
    ensures
        !strip_scan(s).1.contains('\n'),
    decreases s.len(),
{
    if s.len() > 0 {
        lemma_strip_scan_open_line(s.drop_last());
        let (kept, cur) = strip_scan(s.drop_last());
        if s.last() != '\n' {
            assert forall|i: int| 0 <= i < cur.push(s.last()).len() implies cur.push(s.last())[i] != '\n' by {
                if i < cur.len() {
                    assert(cur.push(s.last())[i] == cur[i]);
                }
            }
        }
    }
}

/// A text without line breaks is all line in progress.
proof fn lemma_strip_scan_no_break(c: Seq<char>)
    requires
        !c.contains('\n'),
    ensures
        strip_scan(c) == (Seq::<char>::empty(), c),
    decreases c.len(),
{
    if c.len() > 0 {
        assert(!c.drop_last().contains('\n')) by {
            if c.drop_last().contains('\n') {
                let i = choose|i: int| 0 <= i < c.drop_last().len() && c.drop_last()[i] == '\n';
                assert(c[i] == '\n');
            }
        }
        lemma_strip_scan_no_break(c.drop_last());
        assert(c.last() != '\n') by {
            assert(c[c.len() - 1] == c.last());
        }
        assert(c.drop_last().push(c.last()) =~= c);
    }
}

/// What the scan keeps is made of whole lines that are not markers: it
/// scans to itself.
proof fn lemma_strip_scan_kept_is_clean(s: Seq<char>)
    ensures
        strip_scan(strip_scan(s).0) == (strip_scan(s).0, Seq::<char>::empty()),
    decreases s.len(),
{
    if s.len() == 0 {
    } else {
        lemma_strip_scan_kept_is_clean(s.drop_last());
        lemma_strip_scan_open_line(s.drop_last());
        let (kept, cur) = strip_scan(s.drop_last());
        let line = cur.push(s.last());
        if s.last() == '\n' && !marker_line(line) {
            lemma_strip_scan_no_break(cur);
            assert(line.drop_last() =~= cur);
            assert(strip_scan(line) == (line, Seq::<char>::empty()));
            lemma_strip_scan_concat(kept, line);
            assert(kept + line =~= strip_scan(s).0);
            assert(kept + Seq::<char>::empty() =~= kept);
            assert(kept + line + Seq::<char>::empty() =~= kept + line);
        }
    }
}

/// Stripping marker lines twice is stripping them once.
proof fn lemma_stripped_idempotent(s: Seq<char>)
    ensures
        stripped(stripped(s)) == stripped(s),
{
    let (kept, cur) = strip_scan(s);
    lemma_strip_scan_kept_is_clean(s);
    lemma_strip_scan_open_line(s);
    if cur.len() > 0 && marker_line(cur) {
        assert(stripped(s) == kept);
        assert(kept + Seq::<char>::empty() =~= kept);
    } else {
        assert(stripped(s) == kept + cur);
        lemma_strip_scan_concat(kept, cur);
        lemma_strip_scan_no_break(cur);
        assert(kept + Seq::<char>::empty() =~= kept);
        assert(strip_scan(kept + cur) == (kept, cur));
    }
}

/// What a tool call shows is stable: showing an output that is already
/// shown (capped, marker lines stripped) changes nothing, so repeated
/// flushes of a streaming turn never alter it further.
pub proof fn law_showing_an_output_twice_changes_nothing(x: Seq<char>)
    ensures
        stripped(capped(stripped(capped(x)))) == stripped(capped(x)),
{
    crate::chat::law_capping_is_bounded_and_idempotent(x);
    lemma_strip_scan_len(capped(x));
    let y = stripped(capped(x));
    assert(y.len() <= capped(x).len());
    crate::chat::law_capping_is_bounded_and_idempotent(y);
    lemma_stripped_idempotent(capped(x));
}

/// A shown output is within the cap, so capping it again changes nothing.
pub proof fn lemma_shown_is_capped(x: Seq<char>)
    ensures
        capped(stripped(capped(x))) == stripped(capped(x)),
{
    crate::chat::law_capping_is_bounded_and_idempotent(x);
    lemma_strip_scan_len(capped(x));
}

/// A text as capped, when present.
pub open spec fn capped_opt(o: Option<String>) -> Option<Seq<char>> {
    match o {
        Some(x) => Some(capped(x@)),
        None => None,
    }
}

/// `n` is the tool state `o` bounded for the wire: targets kept when it is
/// a call about runs or experiments (which caps it), else only its output
/// and error capped.
pub open spec fn bounded_state(o: WireToolState, n: WireToolState) -> bool {
    if keeps_targets(o) {
        preserved(o, n)
    } else {
        &&& n.status == o.status
        &&& n.title == o.title
        &&& n.input == o.input
        &&& opt_view(n.output) == capped_opt(o.output)
        &&& opt_view(n.error) == capped_opt(o.error)
    }
}

/// A text capped, when present.
fn cap_opt(o: Option<String>) -> (r: Option<String>)
    ensures
        opt_view(r) == capped_opt(o),
{
    match o {
        Some(mut x) => {
            cap_tool_text(&mut x);
            Some(x)
        },
        None => None,
    }
}

/// Bounds one tool state.
fn bound_state(st: WireToolState) -> (r: WireToolState)
    ensures
        bounded_state(st, r),
{
    let mut st = st;
    let ghost o = st;
    preserve_tool_targets(&mut st);
    let ghost mid = st;
    let WireToolState { status, input, output, error, title } = st;
    let output = cap_opt(output);
    let error = cap_opt(error);
    proof {
        if keeps_targets(o) {
            if let Some(x) = o.output {
                lemma_shown_is_capped(x@);
            }
            if let Some(x) = o.error {
                lemma_shown_is_capped(x@);
            }
        }
    }
    WireToolState { status, input, output, error, title }
}

/// `n` is the part `o` with every tool state in it, at any depth, bounded.
pub open spec fn bounded_part(o: WirePart, n: WirePart) -> bool
    decreases o, 1int,
{
    &&& n.id == o.id
    &&& n.kind == o.kind
    &&& n.text == o.text
    &&& n.tool == o.tool
    &&& n.prompt == o.prompt
    &&& match (o.state, n.state) {
        (None, None) => true,
        (Some(a), Some(b)) => bounded_state(a, b),
        _ => false,
    }
    &&& {
        proof {
            lemma_children_decrease(o);
        }
        all_bounded(o.children@, n.children@)
    }
}

/// Every part of `n` is the part of `o` at the same place, bounded.
pub open spec fn all_bounded(o: Seq<WirePart>, n: Seq<WirePart>) -> bool
    decreases o, 0int,
{
    if o.len() == 0 {
        n.len() == 0
    } else {
        proof {
            lemma_last_decreases(o);
        }
        n.len() == o.len() && all_bounded(o.drop_last(), n.drop_last()) && bounded_part(
            o.last(),
            n.last(),
        )
    }
}

fn bound_part(p: WirePart) -> (r: WirePart)
    ensures
        bounded_part(p, r),
    decreases p,
{
    let ghost old_p = p;
    let WirePart { id, kind, text, tool, state, prompt, children } = p;
    proof {
        lemma_children_decrease(old_p);
    }
    let children = bound_parts(children);
    let state = match state {
        Some(st) => Some(bound_state(st)),
        None => None,
    };
    WirePart { id, kind, text, tool, state, prompt, children }
}

fn bound_parts(parts: Vec<WirePart>) -> (r: Vec<WirePart>)
    ensures
        all_bounded(parts@, r@),
    decreases parts@,
{
    let ghost orig = parts@;
    let mut out: Vec<WirePart> = Vec::new();
    let mut rest = parts;
    let mut k: usize = 0;
    let n = rest.len();
    while rest.len() > 0
        invariant
            n == orig.len(),
            k + rest@.len() == n,
            rest@ == orig.skip(k as int),
            orig == parts@,
            all_bounded(orig.take(k as int), out@),
        decreases rest@.len(),
    {
        let ghost idx = k as int;
        let x = rest.remove(0);
        assert(x == orig[idx]);
        assert(rest@ =~= orig.skip(idx + 1));
        proof {
            assert(decreases_to!(orig => orig[idx]));
        }
        let y = bound_part(x);
        let ghost prev = out@;
        out.push(y);
        proof {
            let t = orig.take(idx + 1);
            assert(t.drop_last() =~= orig.take(idx));
            assert(out@.drop_last() =~= prev);
            assert(t.last() == x);
        }
        k = k + 1;
    }
    assert(orig.take(n as int) =~= orig);
    out
}

/// Bounds every tool part's output and error before persistence, keeping
/// the targets of `orx logs` and `orx exp` calls; nested parts included.
pub fn cap_tool_parts(parts: &mut Vec<WirePart>)
    ensures
        all_bounded(old(parts)@, final(parts)@),
{
    let mut taken: Vec<WirePart> = Vec::new();
    std::mem::swap(&mut taken, parts);
    *parts = bound_parts(taken);
}

// ---------------------------------------------------------------------------
// Kept ids stay few and distinct
// ---------------------------------------------------------------------------

/// No id twice, and no more than the cap.
pub open spec fn well_kept(t: Seq<Seq<char>>) -> bool {
    distinct(t) && t.len() <= TOOL_TARGET_CAP
}

proof fn lemma_pushed_kept(t: Seq<Seq<char>>, v: Seq<char>)
    requires
        well_kept(t),
    ensures
        well_kept(pushed(t, v)),
{
    let c = candidate(v);
    if !(t.len() >= TOOL_TARGET_CAP || !valid_target(c) || t.contains(lower_seq(c))) {
        let n = t.push(lower_seq(c));
        assert forall|i: int, j: int| 0 <= i < j < n.len() implies n[i] != n[j] by {
            if j == t.len() {
                assert(n[i] == t[i]);
                if t[i] == lower_seq(c) {
                    assert(t.contains(lower_seq(c)));
                }
            }
        }
    }
}

proof fn lemma_marker_scan_kept(t: Seq<Seq<char>>, lines: Seq<Seq<char>>, runs: bool)
    requires
        well_kept(t),
    ensures
        well_kept(marker_scan(t, lines, runs)),
    decreases lines.len(),
{
    if lines.len() > 0 {
        lemma_marker_scan_kept(t, lines.drop_last(), runs);
        let prev = marker_scan(t, lines.drop_last(), runs);
        match after_first(trim_seq(lines.last()), marker_of(runs)) {
            Some(rest) => lemma_pushed_kept(prev, before_bracket(rest)),
            None => {},
        }
    }
}

proof fn lemma_heuristic_scan_kept(t: Seq<Seq<char>>, lines: Seq<Seq<char>>, runs: bool)
    requires
        well_kept(t),
    ensures
        well_kept(heuristic_scan(t, lines, runs)),
    decreases lines.len(),
{
    if lines.len() > 0 {
        lemma_heuristic_scan_kept(t, lines.drop_last(), runs);
        let prev = heuristic_scan(t, lines.drop_last(), runs);
        let trimmed = trim_seq(lines.last());
        let t1 = match after_first(trimmed, endpoint_of(runs)) {
            Some(rest) => {
                lemma_pushed_kept(prev, target_prefix(rest));
                pushed(prev, target_prefix(rest))
            },
            None => prev,
        };
        lemma_pushed_kept(t1, lower_seq(trimmed).skip(7));
        lemma_pushed_kept(t1, trimmed.skip(3));
    }
}

proof fn lemma_push_all_kept(t: Seq<Seq<char>>, values: Seq<Seq<char>>)
    requires
        well_kept(t),
    ensures
        well_kept(push_all(t, values)),
    decreases values.len(),
{
    if values.len() > 0 {
        lemma_push_all_kept(t, values.drop_last());
        lemma_pushed_kept(push_all(t, values.drop_last()), values.last());
    }
}

proof fn lemma_marker_windows_kept(t: Seq<Seq<char>>, windows: Seq<Seq<char>>, runs: bool)
    requires
        well_kept(t),
    ensures
        well_kept(marker_windows(t, windows, runs)),
    decreases windows.len(),
{
    if windows.len() > 0 {
        lemma_marker_windows_kept(t, windows.drop_last(), runs);
        lemma_marker_scan_kept(marker_windows(t, windows.drop_last(), runs), lines_of(windows.last()), runs);
    }
}

proof fn lemma_heuristic_windows_kept(t: Seq<Seq<char>>, windows: Seq<Seq<char>>, runs: bool)
    requires
        well_kept(t),
    ensures
        well_kept(heuristic_windows(t, windows, runs)),
    decreases windows.len(),
{
    if windows.len() > 0 {
        lemma_heuristic_windows_kept(t, windows.drop_last(), runs);
        lemma_heuristic_scan_kept(
            heuristic_windows(t, windows.drop_last(), runs),
            lines_of(windows.last()),
            runs,
        );
    }
}

/// The ids a tool call keeps are never more than the cap and never hold
/// the same id twice, whatever its input held and its output printed.
pub proof fn law_kept_ids_are_distinct_and_capped(input: JsonValue, texts: Seq<Seq<char>>, runs: bool)
    ensures
        distinct(kept_ids(input, texts, runs)),
        kept_ids(input, texts, runs).len() <= TOOL_TARGET_CAP,
{
    let e: Seq<Seq<char>> = Seq::empty();
    let existing = stored_ids(member(input, target_key(runs)));
    lemma_push_all_kept(e, existing);
    lemma_marker_windows_kept(e, windows_of(texts), runs);
    let marks = marked_ids(texts, runs);
    lemma_push_all_kept(e, marks);
    lemma_push_all_kept(push_all(e, existing), marks);
    lemma_heuristic_windows_kept(push_all(e, existing), windows_of(texts), runs);
}

} // verus!
