use vstd::prelude::*;

verus! {

/// `a - b`, floored at 0.
pub open spec fn sat_sub(a: int, b: int) -> int {
    if a >= b {
        a - b
    } else {
        0
    }
}

/// Top of the block of `line_count` lines, each `line_height` high, centred in the room
/// that an overlay `overlay_h` high leaves below the count text (at `count_y`,
/// `count_height` high) and a margin.
pub open spec fn specs_start_y(
    count_y: int,
    count_height: int,
    overlay_h: int,
    margin: int,
    line_count: int,
    line_height: int,
) -> int {
    let remaining = sat_sub(sat_sub(sat_sub(overlay_h, count_y), count_height), margin);
    count_y + count_height + margin + sat_sub(remaining, line_count * line_height) / 2
}

/// Where the lines of system details start, below the count text.
pub fn calculate_specs_start_y(
    count_y: u32,
    count_height: u32,
    overlay_h: u32,
    margin: u32,
    line_count: usize,
    line_height: u32,
) -> (y: u32)
    requires
        line_count * line_height <= u32::MAX,
        specs_start_y(
            count_y as int,
            count_height as int,
            overlay_h as int,
            margin as int,
            line_count as int,
            line_height as int,
        ) <= u32::MAX,
    ensures
        y == specs_start_y(
            count_y as int,
            count_height as int,
            overlay_h as int,
            margin as int,
            line_count as int,
            line_height as int,
        ),
{
    let remaining: u32 = overlay_h.saturating_sub(count_y).saturating_sub(count_height).saturating_sub(
        margin,
    );
    let content_height: u32 = if line_height == 0 {
        0
    } else {
        proof {
            assert(line_count <= u32::MAX) by (nonlinear_arith)
                requires
                    line_count * line_height <= u32::MAX,
                    line_height >= 1,
            ;
        }
        line_count as u32 * line_height
    };
    let vertical_padding: u32 = remaining.saturating_sub(content_height) / 2;
    count_y + count_height + margin + vertical_padding
}

/// Top-left corner for text `text_width` wide, centred in a box `width` wide at (x, y),
/// one twentieth of the width below its top.
pub fn calculate_centered_position(x: u32, y: u32, width: u32, text_width: u32) -> (r: (u32, u32))
    requires
        x + sat_sub(width as int, text_width as int) / 2 <= u32::MAX,
        y + width / 20 <= u32::MAX,
    ensures
        r.0 == x + sat_sub(width as int, text_width as int) / 2,
        r.1 == y + width / 20,
{
    (x + width.saturating_sub(text_width) / 2, y + width / 20)
}

} // verus!
