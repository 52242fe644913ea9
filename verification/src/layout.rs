//! Screen areas and the small text pieces that the views share.
use vstd::prelude::*;

verus! {

/// The widest the content of a view gets, in columns.
pub const CONTENT_WIDTH: u16 = 70;

/// A rectangle of the terminal: its top-left cell and its size.
#[derive(Clone, Copy, Debug, PartialEq, Eq, Structural)]
pub struct Area {
    pub x: u16,
    pub y: u16,
    pub width: u16,
    pub height: u16,
}

/// The part of `area` that content occupies: the same top-left cell and
/// height, and at most `CONTENT_WIDTH` columns.
pub fn left_aligned_content(area: Area) -> (r: Area)
    ensures
        r.x == area.x,
        r.y == area.y,
        r.height == area.height,
        r.width == (if area.width < CONTENT_WIDTH {
            area.width
        } else {
            CONTENT_WIDTH
        }),
{
    let width = if area.width < CONTENT_WIDTH {
        area.width
    } else {
        CONTENT_WIDTH
    };
    Area { x: area.x, y: area.y, width, height: area.height }
}

/// The text of a tab segment: the label with one space on each side.
pub fn segment_text(label: &str) -> (s: String)
    ensures
        s@ == " "@ + label@ + " "@,
{
    let mut s = String::from_str(" ");
    s.append(label);
    s.append(" ");
    s
}

} // verus!
