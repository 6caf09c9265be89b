//! Where an overlay's box goes on the canvas.

use crate::config::Position;
use vstd::prelude::*;

verus! {

/// Whether a box is at the start, the middle or the end of an axis.
#[derive(Debug, Clone, Copy, PartialEq, Eq, Structural)]
pub enum Anchor {
    Start,
    Middle,
    End,
}

/// Where a position is anchored from left to right.
pub open spec fn column(position: Position) -> Anchor {
    match position {
        Position::TopLeft | Position::Left | Position::BottomLeft => Anchor::Start,
        Position::Top | Position::Bottom => Anchor::Middle,
        Position::TopRight | Position::Right | Position::BottomRight => Anchor::End,
    }
}

/// Where a position is anchored from top to bottom.
pub open spec fn row(position: Position) -> Anchor {
    match position {
        Position::TopLeft | Position::Top | Position::TopRight => Anchor::Start,
        Position::Left | Position::Right => Anchor::Middle,
        Position::BottomLeft | Position::Bottom | Position::BottomRight => Anchor::End,
    }
}

/// Where a box begins on an axis: at a distance of `edge` from the end that it is
/// anchored at, or centred; never before the axis begins.
pub open spec fn start(anchor: Anchor, length: int, size: int, edge: int) -> int {
    match anchor {
        Anchor::Start => edge,
        Anchor::Middle => if size <= length {
            (length - size) / 2
        } else {
            0
        },
        Anchor::End => if size + edge <= length {
            length - size - edge
        } else {
            0
        },
    }
}

fn start_of(anchor: Anchor, length: u32, size: u32, edge: u32) -> (r: u32)
    ensures
        r == start(anchor, length as int, size as int, edge as int),
{
    match anchor {
        Anchor::Start => edge,
        Anchor::Middle => if size <= length {
            (length - size) / 2
        } else {
            0
        },
        Anchor::End => if size <= length && edge <= length - size {
            length - size - edge
        } else {
            0
        },
    }
}

/// The top left corner of a box on a canvas, given where it is anchored and how
/// far from the canvas's edges it stays.
pub fn place(
    canvas_w: u32,
    canvas_h: u32,
    box_w: u32,
    box_h: u32,
    position: Position,
    edge: u32,
) -> (r: (u32, u32))
    ensures
        r.0 == start(column(position), canvas_w as int, box_w as int, edge as int),
        r.1 == start(row(position), canvas_h as int, box_h as int, edge as int),
{
    let (h, v) = match position {
        Position::TopLeft => (Anchor::Start, Anchor::Start),
        Position::Top => (Anchor::Middle, Anchor::Start),
        Position::TopRight => (Anchor::End, Anchor::Start),
        Position::Left => (Anchor::Start, Anchor::Middle),
        Position::Right => (Anchor::End, Anchor::Middle),
        Position::BottomLeft => (Anchor::Start, Anchor::End),
        Position::Bottom => (Anchor::Middle, Anchor::End),
        Position::BottomRight => (Anchor::End, Anchor::End),
    };
    (start_of(h, canvas_w, box_w, edge), start_of(v, canvas_h, box_h, edge))
}

/// A box that leaves room for both margins lies within the canvas, and no closer
/// to its edges than they ask.
pub proof fn law_box_stays_on_canvas(anchor: Anchor, length: int, size: int, edge: int)
    requires
        0 <= size,
        0 <= edge,
        size + 2 * edge <= length,
    ensures
        edge <= start(anchor, length, size, edge),
        start(anchor, length, size, edge) + size + edge <= length,
{
}

/// Where each position puts a box that leaves room for its margins: on the left or at
/// the top it keeps exactly the margin from there, on the right or at the bottom
/// exactly the margin from there, and in the middle both sides differ by a pixel at
/// most.
pub proof fn law_positions_keep_their_side(position: Position, w: int, h: int, bw: int, bh: int, edge: int)
    requires
        0 <= bw,
        0 <= bh,
        0 <= edge,
        bw + 2 * edge <= w,
        bh + 2 * edge <= h,
    ensures
        ({
            let x = start(column(position), w, bw, edge);
            let y = start(row(position), h, bh, edge);
            let right = w - bw - x;
            let below = h - bh - y;
            match position {
                Position::TopLeft => x == edge && y == edge,
                Position::Top => 0 <= right - x <= 1 && y == edge,
                Position::TopRight => right == edge && y == edge,
                Position::Left => x == edge && 0 <= below - y <= 1,
                Position::Right => right == edge && 0 <= below - y <= 1,
                Position::BottomLeft => x == edge && below == edge,
                Position::Bottom => 0 <= right - x <= 1 && below == edge,
                Position::BottomRight => right == edge && below == edge,
            }
        }),
{
}

/// A box without room for its margins starts no further in than it has to: at the
/// margin where it is anchored at the start, and else nowhere past the margin that
/// is left.
pub proof fn law_large_boxes_start_at_the_edge(length: int, size: int, edge: int)
    requires
        0 <= length,
        0 <= size,
        0 <= edge,
    ensures
        start(Anchor::Start, length, size, edge) == edge,
        size > length ==> start(Anchor::Middle, length, size, edge) == 0,
        size <= length ==> 0 <= length - size - 2 * start(Anchor::Middle, length, size, edge) <= 1,
        size + edge > length ==> start(Anchor::End, length, size, edge) == 0,
        size + edge <= length ==> start(Anchor::End, length, size, edge) + size + edge == length,
{
}

} // verus!
