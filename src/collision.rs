use vstd::prelude::*;
use crate::geometry::{
    at_speed, heading_vec, in_band, Vec2i, BALL_HALF, PADDLE_HALF_HEIGHT, PADDLE_HALF_WIDTH,
};
use crate::world::{in_reach, Ball, Paddle, Side, GoalEvent, ball_vel_ok};

verus! {

/// The ball's top edge is above the upper bound or its bottom edge below the
/// lower one.
pub open spec fn wall_hit(pos: Vec2i, half_h: int) -> bool {
    pos.y + BALL_HALF > half_h || pos.y - BALL_HALF < -half_h
}

/// The goal a ball has breached, if its left or right edge is past a bound.
pub open spec fn goal_side(pos: Vec2i, half_w: int) -> Option<Side> {
    if pos.x + BALL_HALF > half_w || pos.x - BALL_HALF < -half_w {
        Some(if pos.x < 0 { Side::Player } else { Side::Opponent })
    } else {
        None
    }
}

/// The boxes of a ball at `ball` and a paddle at `paddle` overlap.
pub open spec fn overlaps(ball: Vec2i, paddle: Vec2i) -> bool {
    &&& ball.x - BALL_HALF < paddle.x + PADDLE_HALF_WIDTH
    &&& ball.x + BALL_HALF > paddle.x - PADDLE_HALF_WIDTH
    &&& ball.y - BALL_HALF < paddle.y + PADDLE_HALF_HEIGHT
    &&& ball.y + BALL_HALF > paddle.y - PADDLE_HALF_HEIGHT
}

/// Direction for a ball centred on a paddle: away from that paddle's side.
pub open spec fn away_from(paddle: Vec2i) -> Vec2i {
    if paddle.x <= 0 {
        Vec2i { x: 1, y: 0 }
    } else {
        Vec2i { x: -1i64, y: 0 }
    }
}

/// Ball speed along the line from the paddle's centre through the ball's.
pub open spec fn bounce_off(ball: Vec2i, paddle: Vec2i) -> Vec2i {
    heading_vec(ball.x - paddle.x, ball.y - paddle.y, away_from(paddle))
}

pub open spec fn wall_vel(pos: Vec2i, vel: Vec2i, half_h: int) -> Vec2i {
    if wall_hit(pos, half_h) {
        Vec2i { x: vel.x, y: (-vel.y) as i64 }
    } else {
        vel
    }
}

/// Velocity after the paddles are tried in order; the last overlap wins.
pub open spec fn after_paddles(pos: Vec2i, vel: Vec2i, paddles: Seq<Paddle>) -> Vec2i
    decreases paddles.len(),
{
    if paddles.len() == 0 {
        vel
    } else {
        let v = after_paddles(pos, vel, paddles.drop_last());
        if overlaps(pos, paddles.last().pos) {
            bounce_off(pos, paddles.last().pos)
        } else {
            v
        }
    }
}

/// A ball after wall and paddle collisions at its current position.
pub open spec fn resolved(b: Ball, paddles: Seq<Paddle>, half_h: int) -> Ball {
    Ball { vel: after_paddles(b.pos, wall_vel(b.pos, b.vel, half_h), paddles), ..b }
}

/// The goal events of `balls`, in their order.
pub open spec fn goal_events(balls: Seq<Ball>, half_w: int) -> Seq<GoalEvent>
    decreases balls.len(),
{
    if balls.len() == 0 {
        seq![]
    } else {
        let rest = goal_events(balls.drop_last(), half_w);
        match goal_side(balls.last().pos, half_w) {
            Some(side) => rest.push(GoalEvent { ball: balls.last().id, side }),
            None => rest,
        }
    }
}

pub fn goal_of(pos: Vec2i, half_w: i64) -> (r: Option<Side>)
    requires
        in_reach(pos),
        0 <= half_w,
    ensures
        r == goal_side(pos, half_w as int),
{
    if pos.x + BALL_HALF > half_w || pos.x - BALL_HALF < -half_w {
        Some(if pos.x < 0 { Side::Player } else { Side::Opponent })
    } else {
        None
    }
}

fn overlaps_exec(ball: Vec2i, paddle: Vec2i) -> (r: bool)
    requires
        in_reach(ball),
        in_reach(paddle),
    ensures
        r == overlaps(ball, paddle),
{
    ball.x - BALL_HALF < paddle.x + PADDLE_HALF_WIDTH
        && ball.x + BALL_HALF > paddle.x - PADDLE_HALF_WIDTH
        && ball.y - BALL_HALF < paddle.y + PADDLE_HALF_HEIGHT
        && ball.y + BALL_HALF > paddle.y - PADDLE_HALF_HEIGHT
}

/// Some paddle of `paddles` overlaps a ball at `pos`.
pub open spec fn touches_any(pos: Vec2i, paddles: Seq<Paddle>) -> bool {
    exists|k: int| 0 <= k < paddles.len() && overlaps(pos, (#[trigger] paddles[k]).pos)
}

/// After touching any paddle a ball has ball speed up to rounding.
pub proof fn lemma_after_paddles_band(pos: Vec2i, vel: Vec2i, paddles: Seq<Paddle>)
    requires
        touches_any(pos, paddles),
    ensures
        in_band(after_paddles(pos, vel, paddles).x as int, after_paddles(pos, vel, paddles).y as int),
    decreases paddles.len(),
{
    let last = paddles.last();
    if overlaps(pos, last.pos) {
        crate::laws::lemma_paddle_bounce_speed(pos, last.pos);
    } else {
        let rest = paddles.drop_last();
        let k = choose|k: int| 0 <= k < paddles.len() && overlaps(pos, (#[trigger] paddles[k]).pos);
        assert(k != paddles.len() - 1);
        assert(rest[k] == paddles[k]);
        lemma_after_paddles_band(pos, vel, rest);
    }
}

/// Wall bounce, then every paddle in order, for one ball.
pub fn resolve_ball(b: Ball, paddles: &Vec<Paddle>, half_h: i64) -> (r: Ball)
    requires
        in_reach(b.pos),
        ball_vel_ok(b.vel),
        0 <= half_h,
        forall|k: int| 0 <= k < paddles@.len() ==> in_reach(#[trigger] paddles@[k].pos),
    ensures
        r == resolved(b, paddles@, half_h as int),
        ball_vel_ok(r.vel),
        touches_any(b.pos, paddles@) ==> in_band(r.vel.x as int, r.vel.y as int),
{
    let mut v = b.vel;
    if b.pos.y + BALL_HALF > half_h || b.pos.y - BALL_HALF < -half_h {
        v = Vec2i { x: v.x, y: -v.y };
    }
    let ghost v0 = v;
    let mut k: usize = 0;
    while k < paddles.len()
        invariant
            0 <= k <= paddles@.len(),
            in_reach(b.pos),
            forall|j: int| 0 <= j < paddles@.len() ==> in_reach(#[trigger] paddles@[j].pos),
            v == after_paddles(b.pos, v0, paddles@.subrange(0, k as int)),
            ball_vel_ok(v),
        decreases paddles@.len() - k,
    {
        let p = paddles[k].pos;
        proof {
            assert(paddles@.subrange(0, k + 1).drop_last() =~= paddles@.subrange(0, k as int));
        }
        if overlaps_exec(b.pos, p) {
            let fallback = if p.x <= 0 { Vec2i { x: 1, y: 0 } } else { Vec2i { x: -1, y: 0 } };
            v = at_speed(b.pos.x - p.x, b.pos.y - p.y, fallback);
        }
        k = k + 1;
    }
    proof {
        assert(paddles@.subrange(0, paddles@.len() as int) =~= paddles@);
        if touches_any(b.pos, paddles@) {
            lemma_after_paddles_band(b.pos, v0, paddles@);
        }
    }
    Ball { vel: v, ..b }
}

} // verus!
