use vstd::prelude::*;

pub mod audio;
pub mod commands;
pub mod hotkeys;
pub mod meeting;
pub mod pcm;
pub mod prompt;
pub mod text;
pub mod video;
pub mod whisper;

use crate::audio::div_toward_zero;

verus! {

/// Width of the push-to-talk overlay window, in pixels.
pub const OVERLAY_WIDTH: i32 = 420;

/// Height of the push-to-talk overlay window, in pixels.
pub const OVERLAY_HEIGHT: i32 = 90;

/// Gap between the overlay and the bottom of the screen, in pixels.
pub const OVERLAY_MARGIN: i32 = 8;

/// Left edge of the overlay: centred on a monitor at `x` that is `width` pixels wide.
pub open spec fn overlay_x(x: int, width: int) -> int {
    x + div_toward_zero(width - OVERLAY_WIDTH, 2)
}

/// Top edge of the overlay: at the bottom of a monitor at `y` that is `height` pixels high.
pub open spec fn overlay_y(y: int, height: int) -> int {
    y + height - OVERLAY_HEIGHT - OVERLAY_MARGIN
}

/// Where the overlay goes on the primary monitor, given the monitor's position and size.
pub fn overlay_position(x: i32, y: i32, width: u32, height: u32) -> (p: (i32, i32))
    requires
        width <= i32::MAX,
        height <= i32::MAX,
        i32::MIN <= overlay_x(x as int, width as int) <= i32::MAX,
        i32::MIN <= y + height <= i32::MAX,
        i32::MIN <= overlay_y(y as int, height as int),
    ensures
        p.0 == overlay_x(x as int, width as int),
        p.1 == overlay_y(y as int, height as int),
{
    let w = width as i32;
    let h = height as i32;
    let dx = w - OVERLAY_WIDTH;
    let half = if dx >= 0 {
        dx / 2
    } else {
        -((-dx) / 2)
    };
    (x + half, y + h - OVERLAY_HEIGHT - OVERLAY_MARGIN)
}

} // verus!
