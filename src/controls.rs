use vstd::prelude::*;
use crate::geometry::{BOT_PADDLE_SPEED, PADDLE_HALF_HEIGHT, PADDLE_SPEED};

verus! {

pub open spec fn player_speed_spec(up: bool, down: bool) -> int {
    if down {
        -PADDLE_SPEED
    } else if up {
        PADDLE_SPEED as int
    } else {
        0
    }
}

/// Vertical paddle velocity for the two direction keys; down wins when both
/// are held.
pub fn player_speed(up: bool, down: bool) -> (r: i64)
    ensures
        r == player_speed_spec(up, down),
{
    if down {
        -PADDLE_SPEED
    } else if up {
        PADDLE_SPEED
    } else {
        0
    }
}

/// `delta` capped to the bot's largest speed in either direction.
pub open spec fn tracking_spec(delta: int) -> int {
    if delta > BOT_PADDLE_SPEED {
        BOT_PADDLE_SPEED as int
    } else if delta < -BOT_PADDLE_SPEED {
        -BOT_PADDLE_SPEED
    } else {
        delta
    }
}

/// Vertical bot velocity that closes a gap of `delta` without overshoot.
pub fn tracking_speed(delta: i64) -> (r: i64)
    ensures
        r == tracking_spec(delta as int),
{
    if delta > BOT_PADDLE_SPEED {
        BOT_PADDLE_SPEED
    } else if delta < -BOT_PADDLE_SPEED {
        -BOT_PADDLE_SPEED
    } else {
        delta
    }
}

/// Paddle centre after the boundary clamp in a playfield of half height
/// `half_h`.
pub open spec fn clamp_spec(y: int, half_h: int) -> int {
    if y + PADDLE_HALF_HEIGHT > half_h {
        half_h - PADDLE_HALF_HEIGHT
    } else if y - PADDLE_HALF_HEIGHT < -half_h {
        -half_h + PADDLE_HALF_HEIGHT
    } else {
        y
    }
}

pub fn clamp_paddle(y: i64, half_h: i64) -> (r: i64)
    requires
        -0x1_0000_0000_0000 <= y <= 0x1_0000_0000_0000,
        0 <= half_h <= 0x1_0000_0000_0000,
    ensures
        r == clamp_spec(y as int, half_h as int),
{
    if y + PADDLE_HALF_HEIGHT > half_h {
        half_h - PADDLE_HALF_HEIGHT
    } else if y - PADDLE_HALF_HEIGHT < -half_h {
        -half_h + PADDLE_HALF_HEIGHT
    } else {
        y
    }
}

/// A paddle that fits the playfield ends up inside it, and an edge that was
/// past a bound is moved flush with that bound.
pub proof fn lemma_clamp_flush(y: int, half_h: int)
    requires
        PADDLE_HALF_HEIGHT <= half_h,
    ensures
        clamp_spec(y, half_h) + PADDLE_HALF_HEIGHT <= half_h,
        clamp_spec(y, half_h) - PADDLE_HALF_HEIGHT >= -half_h,
        y + PADDLE_HALF_HEIGHT > half_h ==> clamp_spec(y, half_h) + PADDLE_HALF_HEIGHT
            == half_h,
        y - PADDLE_HALF_HEIGHT < -half_h ==> clamp_spec(y, half_h) - PADDLE_HALF_HEIGHT
            == -half_h,
        -half_h <= y - PADDLE_HALF_HEIGHT && y + PADDLE_HALF_HEIGHT <= half_h
            ==> clamp_spec(y, half_h) == y,
{
}

/// A paddle exactly as tall as the playfield is always brought back to the
/// centre line.
pub proof fn lemma_full_height_clamp(y: int)
    ensures
        clamp_spec(y, PADDLE_HALF_HEIGHT as int) == 0,
{
}

/// The bot moves at full speed toward a ball farther than its speed, and
/// exactly onto a nearer one.
pub proof fn lemma_tracking(delta: int)
    ensures
        delta > BOT_PADDLE_SPEED ==> tracking_spec(delta) == BOT_PADDLE_SPEED,
        delta < -BOT_PADDLE_SPEED ==> tracking_spec(delta) == -BOT_PADDLE_SPEED,
        -BOT_PADDLE_SPEED <= delta <= BOT_PADDLE_SPEED ==> tracking_spec(delta) == delta,
{
}

} // verus!
