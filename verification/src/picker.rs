//! Layout arithmetic for the board-picker overlay.
//!
//! The picker is drawn centered over the terminal area: up to 60 cells wide
//! with a 4-cell margin on narrow screens, and the full height minus a 4-cell
//! margin. The header shows the project directory, left-truncated with a
//! `...` prefix when it does not fit. Only the arithmetic lives here; the
//! drawing itself is the UI collaborator's.

use vstd::prelude::*;

verus! {

/// A rectangle on the terminal cell grid.
#[derive(Clone, Copy, PartialEq, Eq, Structural, Debug)]
pub struct PickerRect {
    pub x: u16,
    pub y: u16,
    pub width: u16,
    pub height: u16,
}

pub open spec fn sat_sub(a: int, b: int) -> int {
    if a >= b {
        a - b
    } else {
        0
    }
}

pub open spec fn min_int(a: int, b: int) -> int {
    if a <= b {
        a
    } else {
        b
    }
}

/// Where the picker overlay sits: centered in `area`, at most 60 cells wide,
/// 4 cells of margin on both axes when the area is large enough.
pub fn picker_rect(area: PickerRect) -> (r: PickerRect)
    requires
        area.x + area.width <= u16::MAX,
        area.y + area.height <= u16::MAX,
    ensures
        r.width == min_int(60, sat_sub(area.width as int, 4)),
        r.height == sat_sub(area.height as int, 4),
        r.x == area.x + (area.width - r.width) / 2,
        r.y == area.y + (area.height - r.height) / 2,
{
    let avail: u16 = if area.width >= 4 {
        area.width - 4
    } else {
        0
    };
    let width: u16 = if avail < 60 {
        avail
    } else {
        60
    };
    let height: u16 = if area.height >= 4 {
        area.height - 4
    } else {
        0
    };
    let x: u16 = area.x + (area.width - width) / 2;
    let y: u16 = area.y + (area.height - height) / 2;
    PickerRect { x, y, width, height }
}

/// The directory line of the picker header: unchanged when it fits in the
/// overlay, otherwise `...` followed by as many of its last characters as
/// fit. Total on every width; overlays too narrow to truncate sensibly show
/// the directory as it is.
pub open spec fn spec_dir_display(dir: Seq<char>, width: int) -> Seq<char> {
    if width >= 8 && dir.len() > width - 4 {
        "..."@ + dir.subrange(dir.len() - (width - 7), dir.len() as int)
    } else {
        dir
    }
}

pub fn dir_display(dir: &str, width: u16) -> (r: String)
    ensures
        r@ == spec_dir_display(dir@, width as int),
{
    let n = dir.unicode_len();
    if width >= 8 && n > (width - 4) as usize {
        let keep = (width - 7) as usize;
        let tail = dir.substring_char(n - keep, n);
        let mut out = String::from_str("...");
        out.append(tail);
        out
    } else {
        dir.to_owned()
    }
}

} // verus!
