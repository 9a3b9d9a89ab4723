//! Capture extraction: the trusted boundary to the regex crate, and the
//! verified construction of capture reports from raw match data.

use vstd::prelude::*;
use vstd::utf8::encode_utf8;

use crate::data::{Pattern, Position};
use crate::text_ops::{line_at, line_of_offset};

verus! {

/// One raw capture: the text the selected group matched, and the byte
/// offsets of the whole match in the input.
#[derive(Debug)]
pub struct RawCapture {
    /// text bound to the requested capture group
    pub text: String,
    /// byte offset of the whole match's start in the input
    pub start: usize,
    /// byte offset one past the whole match's end in the input
    pub end: usize,
}

impl View for RawCapture {
    type V = (Seq<char>, int, int);

    open spec fn view(&self) -> (Seq<char>, int, int) {
        (self.text@, self.start as int, self.end as int)
    }
}

/// What scanning a haystack with a compiled expression yields: one entry
/// per non-overlapping match, leftmost first; `Some` carries the text the
/// requested group matched and the whole match's byte offsets, `None`
/// stands for a match in which the group did not participate. The regex
/// crate computes this from the expression, the haystack and the group
/// index alone.
pub uninterp spec fn captures_of(expr: Seq<char>, text: Seq<char>, group: int) -> Seq<
    Option<(Seq<char>, int, int)>,
>;

/// View of one optional raw capture.
pub open spec fn raw_view(o: Option<RawCapture>) -> Option<(Seq<char>, int, int)> {
    match o {
        Some(rc) => Some(rc@),
        None => None,
    }
}

/// Elementwise views of a raw capture sequence.
pub open spec fn raw_views(rs: Seq<Option<RawCapture>>) -> Seq<Option<(Seq<char>, int, int)>> {
    rs.map_values(|o: Option<RawCapture>| raw_view(o))
}

/// The exec rows are elementwise views of the named capture sequence.
pub open spec fn raws_match(rs: Seq<Option<RawCapture>>, cvs: Seq<Option<(Seq<char>, int, int)>>) -> bool {
    &&& rs.len() == cvs.len()
    &&& forall|i: int| 0 <= i < rs.len() ==> raw_view(#[trigger] rs[i]) == cvs[i]
}

/// Every `Some` row carries offsets that lie inside the input's UTF-8
/// encoding, in order, and strictly below `usize::MAX`.
pub open spec fn raws_bounded(rs: Seq<Option<RawCapture>>, text: Seq<char>) -> bool {
    forall|i: int| 0 <= i < rs.len() ==> (#[trigger] rs[i] matches Some(rc) ==> rc.start <= rc.end
        && rc.end as int <= encode_utf8(text).len() && rc.end < usize::MAX)
}

/// Relies on `regex::Regex::captures_iter` and `regex::Captures::get`:
/// matches are found non-overlapping and leftmost first, deterministically
/// in the pattern, the haystack and the group index, so the rows equal
/// `captures_of` applied to the rule's expression (a `Pattern`'s compiled
/// regex is always the compilation of its `expr` field). Group 0 always
/// participates in a match, and `Match::start`/`Match::end` are byte
/// offsets into the haystack with `start <= end <= len`; a haystack's
/// byte length stays below `usize::MAX` because Rust allocations do.
#[verifier::external_body]
pub(crate) fn capture_matches(p: &Pattern, text: &str) -> (r: Vec<Option<RawCapture>>)
    ensures
        raws_match(r@, captures_of(p@.0, text@, p@.1)),
        raws_bounded(r@, text@),
{
    p.test
        .captures_iter(text)
        .map(|cap| {
            cap.get(p.group).map(|g| {
                let m = cap.get(0).unwrap();
                RawCapture { text: g.as_str().to_string(), start: m.start(), end: m.end() }
            })
        })
        .collect()
}

/// View of one reported row: the capture text and, when present, its
/// position as a (line, start offset, end offset) triple.
pub open spec fn row_view(row: (String, Option<Position>)) -> (Seq<char>, Option<(int, int, int)>) {
    (
        row.0@,
        match row.1 {
            Some(p) => Some((p.line as int, p.start_offset as int, p.end_offset as int)),
            None => None,
        },
    )
}

/// Elementwise views of a reported row sequence.
pub open spec fn rows_view(rows: Seq<(String, Option<Position>)>) -> Seq<
    (Seq<char>, Option<(int, int, int)>),
> {
    rows.map_values(|row: (String, Option<Position>)| row_view(row))
}

/// The report a raw capture sequence yields: one row per match in which
/// the group participated, in match order, carrying the group's text
/// and, when position data was requested, the whole match's byte
/// offsets together with the 1-based line of its start; `None` rows are
/// dropped, and without the request every position is absent.
pub open spec fn rows_of(
    raws: Seq<Option<(Seq<char>, int, int)>>,
    text: Seq<char>,
    with_info: bool,
) -> Seq<(Seq<char>, Option<(int, int, int)>)>
    decreases raws.len(),
{
    if raws.len() == 0 {
        Seq::empty()
    } else {
        rows_of(raws.drop_last(), text, with_info) + match raws.last() {
            Some(c) => seq![
                (
                    c.0,
                    if with_info {
                        Some((line_at(text, c.1), c.1, c.2))
                    } else {
                        None
                    },
                ),
            ],
            None => Seq::empty(),
        }
    }
}

/// Reporting one more raw capture appends its row exactly when the
/// group participated.
proof fn lemma_rows_of_step(
    raws: Seq<Option<(Seq<char>, int, int)>>,
    text: Seq<char>,
    with_info: bool,
    j: int,
)
    requires
        0 <= j < raws.len(),
    ensures
        rows_of(raws.take(j + 1), text, with_info) == rows_of(raws.take(j), text, with_info)
            + match raws[j] {
            Some(c) => seq![
                (
                    c.0,
                    if with_info {
                        Some((line_at(text, c.1), c.1, c.2))
                    } else {
                        None
                    },
                ),
            ],
            None => Seq::<(Seq<char>, Option<(int, int, int)>)>::empty(),
        },
{
    assert(raws.take(j + 1).drop_last() =~= raws.take(j));
    assert(raws.take(j + 1).last() == raws[j]);
}

/// Check if the given rule matches the given string: one row per match
/// in which the rule's capture group participated, in match order,
/// carrying the group's text and, when asked, the whole match's
/// position in `str`.
pub fn try_capture(str: &str, pattern: &Pattern, with_info: bool) -> (r: Vec<
    (String, Option<Position>),
>)
    ensures
        rows_view(r@) =~= rows_of(captures_of(pattern@.0, str@, pattern@.1), str@, with_info),
{
    let raws = capture_matches(pattern, str);
    let ghost graws = raws@;
    let r = rows_from_raws(raws, str, with_info);
    proof {
        assert(raw_views(graws) =~= captures_of(pattern@.0, str@, pattern@.1));
    }
    r
}

/// Turn raw captures into reported rows, computing line numbers when
/// position data was requested.
pub(crate) fn rows_from_raws(raws: Vec<Option<RawCapture>>, str: &str, with_info: bool) -> (r: Vec<
    (String, Option<Position>),
>)
    requires
        raws_bounded(raws@, str@),
    ensures
        rows_view(r@) =~= rows_of(raw_views(raws@), str@, with_info),
{
    let ghost rv = raw_views(raws@);
    let mut rows: Vec<(String, Option<Position>)> = Vec::new();
    let mut i: usize = 0;
    while i < raws.len()
        invariant
            raws_bounded(raws@, str@),
            rv == raw_views(raws@),
            rv.len() == raws@.len(),
            i <= raws@.len(),
            rows_view(rows@) =~= rows_of(rv.take(i as int), str@, with_info),
        decreases raws@.len() - i,
    {
        proof {
            lemma_rows_of_step(rv, str@, with_info, i as int);
            assert(rv[i as int] == raw_view(raws@[i as int]));
        }
        match &raws[i] {
            Some(rc) => {
                let position = if with_info {
                    let line = line_of_offset(str, rc.start);
                    Some(Position { line, start_offset: rc.start, end_offset: rc.end })
                } else {
                    None
                };
                rows.push((rc.text.clone(), position));
                proof {
                    assert(rows_view(rows@) =~= rows_of(rv.take(i + 1), str@, with_info));
                }
            },
            None => {
                proof {
                    assert(rows_view(rows@) =~= rows_of(rv.take(i + 1), str@, with_info));
                }
            },
        }
        i += 1;
    }
    proof {
        assert(rv.take(rv.len() as int) =~= rv);
    }
    rows
}

} // verus!
