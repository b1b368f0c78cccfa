//! The command parser: one line of text and the cursor give a motion and the
//! next cursor, or a diagnostic that leaves the cursor where it was.
//!
//! - `LIN X.. Y.. Z..` moves in a straight line from the cursor to the
//!   given point, which becomes the new cursor.
//! - `CW X.. Y.. R.. A..` and `CCW X.. Y.. R.. A..` describe an arc around
//!   `(X, Y)` with radius `R` and stop angle `A` (degrees); the two fields
//!   `I.. J..` may stand between the radius and the angle to give the arc an
//!   orientation `(I, J, 0)`.
//!
//! Fields are read by position; a field whose literal cannot be read counts
//! as zero and is reported in `invalid_fields`.
use vstd::prelude::*;
use crate::geometry::{CircularMotion, LinearMotion, Motion, MotionError, Point2, Point3, Vector3};
use crate::lexer::{field_micros, parse_field, split_tokens, tokens};

verus! {

/// A line that was accepted, with the number of its numeric fields that could
/// not be read and were taken as zero.
#[derive(Clone, Copy, Debug, PartialEq, Eq)]
pub struct ParsedLine {
    pub motion: Motion,
    pub invalid_fields: usize,
}

/// The result of parsing one line, and the cursor after it.
#[derive(Clone, Copy, Debug, PartialEq, Eq)]
pub struct LineStep {
    pub outcome: Result<ParsedLine, MotionError>,
    pub cursor: Point3,
}

pub open spec fn lin_word() -> Seq<u8> {
    seq![76u8, 73u8, 78u8]
}

pub open spec fn cw_word() -> Seq<u8> {
    seq![67u8, 87u8]
}

pub open spec fn ccw_word() -> Seq<u8> {
    seq![67u8, 67u8, 87u8]
}

/// A field's value, zero where it cannot be read.
pub open spec fn value_or_zero(t: Seq<u8>) -> int {
    match field_micros(t) {
        Some(v) => v,
        None => 0,
    }
}

/// One where a field cannot be read, zero otherwise.
pub open spec fn unread(t: Seq<u8>) -> int {
    if field_micros(t) is Some { 0 } else { 1 }
}

/// An arc line carries an orientation when its fifth token is tagged `I`.
pub open spec fn has_orientation(toks: Seq<Seq<u8>>) -> bool {
    toks.len() >= 5 && toks[4].len() >= 1 && toks[4][0] == 73
}

pub open spec fn rejected(e: MotionError, cursor: Point3) -> LineStep {
    LineStep { outcome: Err(e), cursor }
}

/// The meaning of a tokenized line at the given cursor.
pub open spec fn line_step(toks: Seq<Seq<u8>>, cursor: Point3) -> LineStep {
    let n = toks.len();
    if n >= 1 && toks[0] == lin_word() {
        if n < 4 {
            rejected(MotionError::MalformedLine, cursor)
        } else {
            let end = Point3 {
                x: value_or_zero(toks[1]) as i64,
                y: value_or_zero(toks[2]) as i64,
                z: value_or_zero(toks[3]) as i64,
            };
            let bad = unread(toks[1]) + unread(toks[2]) + unread(toks[3]);
            LineStep {
                outcome: Ok(
                    ParsedLine {
                        motion: Motion::Linear(LinearMotion { start: cursor, end }),
                        invalid_fields: bad as usize,
                    },
                ),
                cursor: end,
            }
        }
    } else if n >= 1 && (toks[0] == cw_word() || toks[0] == ccw_word()) {
        let oriented = has_orientation(toks);
        if n < (if oriented { 7int } else { 5int }) {
            rejected(MotionError::MalformedLine, cursor)
        } else if value_or_zero(toks[3]) <= 0 {
            rejected(MotionError::InvalidRadius, cursor)
        } else {
            let angle = if oriented { toks[6] } else { toks[4] };
            let orientation = if oriented {
                Some(
                    Vector3 {
                        i: value_or_zero(toks[4]) as i64,
                        j: value_or_zero(toks[5]) as i64,
                        k: 0,
                    },
                )
            } else {
                None
            };
            let bad = unread(toks[1]) + unread(toks[2]) + unread(toks[3]) + unread(angle) + if oriented {
                unread(toks[4]) + unread(toks[5])
            } else {
                0
            };
            LineStep {
                outcome: Ok(
                    ParsedLine {
                        motion: Motion::Circular(
                            CircularMotion {
                                center: Point2 {
                                    x: value_or_zero(toks[1]) as i64,
                                    y: value_or_zero(toks[2]) as i64,
                                },
                                radius: value_or_zero(toks[3]) as i64,
                                clockwise: toks[0] == cw_word(),
                                stop_angle: value_or_zero(angle) as i64,
                                orientation,
                            },
                        ),
                        invalid_fields: bad as usize,
                    },
                ),
                cursor,
            }
        }
    } else {
        rejected(MotionError::MalformedLine, cursor)
    }
}

/// Reads a field, counting it in `bad` when it cannot be read.
fn read_field(t: &Vec<u8>, bad: &mut usize) -> (r: i64)
    requires
        *old(bad) <= 6,
    ensures
        r == value_or_zero(t@),
        *final(bad) == *old(bad) + unread(t@),
        crate::geometry::in_range(r as int),
{
    match parse_field(t.as_slice()) {
        Some(v) => v,
        None => {
            *bad = *bad + 1;
            0
        },
    }
}

fn is_lin(t: &Vec<u8>) -> (r: bool)
    ensures
        r == (t@ == lin_word()),
{
    let r = t.len() == 3 && t[0] == 76 && t[1] == 73 && t[2] == 78;
    assert(r ==> t@ =~= lin_word());
    r
}

fn is_cw(t: &Vec<u8>) -> (r: bool)
    ensures
        r == (t@ == cw_word()),
{
    let r = t.len() == 2 && t[0] == 67 && t[1] == 87;
    assert(r ==> t@ =~= cw_word());
    r
}

fn is_ccw(t: &Vec<u8>) -> (r: bool)
    ensures
        r == (t@ == ccw_word()),
{
    let r = t.len() == 3 && t[0] == 67 && t[1] == 67 && t[2] == 87;
    assert(r ==> t@ =~= ccw_word());
    r
}

/// Parses one tokenized line at the cursor.
fn step_tokens(toks: &Vec<Vec<u8>>, cursor: Point3) -> (r: LineStep)
    ensures
        r == line_step(toks@.map_values(|t: Vec<u8>| t@), cursor),
{
    let ghost ts = toks@.map_values(|t: Vec<u8>| t@);
    let n = toks.len();
    if n == 0 {
        return LineStep { outcome: Err(MotionError::MalformedLine), cursor };
    }
    assert(ts[0] == toks@[0]@);
    if is_lin(&toks[0]) {
        if n < 4 {
            return LineStep { outcome: Err(MotionError::MalformedLine), cursor };
        }
        let mut bad: usize = 0;
        let x = read_field(&toks[1], &mut bad);
        let y = read_field(&toks[2], &mut bad);
        let z = read_field(&toks[3], &mut bad);
        let end = Point3 { x, y, z };
        let motion = Motion::Linear(LinearMotion { start: cursor, end });
        return LineStep { outcome: Ok(ParsedLine { motion, invalid_fields: bad }), cursor: end };
    }
    assert(toks@[0]@ != lin_word());
    let cw = is_cw(&toks[0]);
    let ccw = is_ccw(&toks[0]);
    if !cw && !ccw {
        return LineStep { outcome: Err(MotionError::MalformedLine), cursor };
    }
    let oriented = n >= 5 && toks[4].len() >= 1 && toks[4][0] == 73;
    assert(oriented == has_orientation(ts));
    let need: usize = if oriented { 7 } else { 5 };
    if n < need {
        return LineStep { outcome: Err(MotionError::MalformedLine), cursor };
    }
    let mut bad: usize = 0;
    let cx = read_field(&toks[1], &mut bad);
    let cy = read_field(&toks[2], &mut bad);
    let radius = read_field(&toks[3], &mut bad);
    if radius <= 0 {
        return LineStep { outcome: Err(MotionError::InvalidRadius), cursor };
    }
    let (orientation, stop_angle) = if oriented {
        let i = read_field(&toks[4], &mut bad);
        let j = read_field(&toks[5], &mut bad);
        let a = read_field(&toks[6], &mut bad);
        (Some(Vector3 { i, j, k: 0 }), a)
    } else {
        let a = read_field(&toks[4], &mut bad);
        (None, a)
    };
    let motion = Motion::Circular(
        CircularMotion { center: Point2 { x: cx, y: cy }, radius, clockwise: cw, stop_angle, orientation },
    );
    LineStep { outcome: Ok(ParsedLine { motion, invalid_fields: bad }), cursor }
}

proof fn lemma_value_in_range(t: Seq<u8>)
    ensures
        crate::geometry::in_range(value_or_zero(t)),
{
}

proof fn lemma_line_step_wf(toks: Seq<Seq<u8>>, cursor: Point3)
    ensures
        cursor.wf() ==> line_step(toks, cursor).cursor.wf(),
        cursor.wf() && line_step(toks, cursor).outcome is Ok ==> (line_step(
            toks,
            cursor,
        ).outcome->Ok_0).motion.wf(),
{
    if toks.len() >= 7 {
        lemma_value_in_range(toks[6]);
    }
    if toks.len() >= 6 {
        lemma_value_in_range(toks[5]);
    }
    if toks.len() >= 5 {
        lemma_value_in_range(toks[4]);
    }
    if toks.len() >= 4 {
        lemma_value_in_range(toks[1]);
        lemma_value_in_range(toks[2]);
        lemma_value_in_range(toks[3]);
    }
}

/// Parses one line of text at the cursor.
pub fn parse_line(line: &[u8], cursor: Point3) -> (r: LineStep)
    ensures
        r == line_step(tokens(line@), cursor),
        cursor.wf() ==> r.cursor.wf(),
        cursor.wf() && r.outcome is Ok ==> (r.outcome->Ok_0).motion.wf(),
{
    proof {
        lemma_line_step_wf(tokens(line@), cursor);
    }
    let toks = split_tokens(line);
    step_tokens(&toks, cursor)
}

/// The steps of a sequence of lines parsed in order from the cursor, each
/// line starting at the cursor that the one before it left.
pub open spec fn run_lines(lines: Seq<Seq<u8>>, cursor: Point3) -> Seq<LineStep>
    decreases lines.len(),
{
    if lines.len() == 0 {
        seq![]
    } else {
        let st = line_step(tokens(lines[0]), cursor);
        seq![st] + run_lines(lines.drop_first(), st.cursor)
    }
}

/// The cursor after a sequence of lines.
pub open spec fn cursor_after(lines: Seq<Seq<u8>>, cursor: Point3) -> Point3
    decreases lines.len(),
{
    if lines.len() == 0 {
        cursor
    } else {
        cursor_after(lines.drop_first(), line_step(tokens(lines[0]), cursor).cursor)
    }
}

/// Parsing two runs of lines one after the other is parsing the first, then
/// the second from the cursor the first left.
pub proof fn lemma_run_concat(a: Seq<Seq<u8>>, b: Seq<Seq<u8>>, cursor: Point3)
    ensures
        run_lines(a + b, cursor) == run_lines(a, cursor) + run_lines(b, cursor_after(a, cursor)),
        cursor_after(a + b, cursor) == cursor_after(b, cursor_after(a, cursor)),
    decreases a.len(),
{
    if a.len() == 0 {
        assert(a + b =~= b);
        assert(run_lines(a, cursor) + run_lines(b, cursor) =~= run_lines(b, cursor));
    } else {
        let st = line_step(tokens(a[0]), cursor);
        assert((a + b).drop_first() =~= a.drop_first() + b);
        assert((a + b)[0] == a[0]);
        lemma_run_concat(a.drop_first(), b, st.cursor);
        assert(run_lines(a + b, cursor) =~= run_lines(a, cursor) + run_lines(
            b,
            cursor_after(a, cursor),
        ));
    }
}

/// A line of fewer than three tokens is rejected as malformed, leaves the
/// cursor unchanged, and the lines after it are parsed as if it were absent.
pub proof fn lemma_short_line_skipped(
    before: Seq<Seq<u8>>,
    line: Seq<u8>,
    after: Seq<Seq<u8>>,
    cursor: Point3,
)
    requires
        tokens(line).len() <= 2,
    ensures
        ({
            let c = cursor_after(before, cursor);
            run_lines(before + seq![line] + after, cursor) == run_lines(before, cursor) + seq![
                rejected(MotionError::MalformedLine, c),
            ] + run_lines(after, c)
        }),
{
    let c = cursor_after(before, cursor);
    lemma_run_concat(before, seq![line] + after, cursor);
    assert(before + seq![line] + after =~= before + (seq![line] + after));
    let rest = seq![line] + after;
    assert(rest.drop_first() =~= after);
    assert(rest[0] == line);
    assert(line_step(tokens(line), c) == rejected(MotionError::MalformedLine, c));
    assert(run_lines(rest, c) == seq![rejected(MotionError::MalformedLine, c)] + run_lines(after, c));
    assert(run_lines(before, cursor) + seq![rejected(MotionError::MalformedLine, c)] + run_lines(after, c)
        =~= run_lines(before, cursor) + (seq![rejected(MotionError::MalformedLine, c)] + run_lines(
        after,
        c,
    )));
}

/// Parses the lines of a program in order, starting from the origin; each
/// line's step records its outcome and the cursor after it.
pub fn parse_program(lines: &Vec<Vec<u8>>) -> (r: Vec<LineStep>)
    ensures
        r@ == run_lines(lines@.map_values(|l: Vec<u8>| l@), Point3 { x: 0, y: 0, z: 0 }),
{
    let ghost ls = lines@.map_values(|l: Vec<u8>| l@);
    let mut out: Vec<LineStep> = Vec::new();
    let mut cursor = Point3::origin();
    let mut i: usize = 0;
    assert(ls.subrange(0, ls.len() as int) =~= ls);
    while i < lines.len()
        invariant
            i <= lines@.len(),
            ls == lines@.map_values(|l: Vec<u8>| l@),
            cursor.wf(),
            out@ + run_lines(ls.subrange(i as int, ls.len() as int), cursor) == run_lines(
                ls,
                Point3 { x: 0, y: 0, z: 0 },
            ),
        decreases lines@.len() - i,
    {
        let ghost rest = ls.subrange(i as int, ls.len() as int);
        assert(rest[0] == lines@[i as int]@);
        assert(rest.drop_first() =~= ls.subrange(i + 1, ls.len() as int));
        let st = parse_line(lines[i].as_slice(), cursor);
        let ghost before = out@;
        out.push(st);
        assert(out@ + run_lines(ls.subrange(i + 1, ls.len() as int), st.cursor) =~= before
            + run_lines(rest, cursor));
        cursor = st.cursor;
        i = i + 1;
    }
    assert(ls.subrange(i as int, ls.len() as int) =~= Seq::<Seq<u8>>::empty());
    assert(out@ + run_lines(Seq::<Seq<u8>>::empty(), cursor) =~= out@);
    out
}

} // verus!
