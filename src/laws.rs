use vstd::prelude::*;
use crate::collision::{after_paddles, away_from, bounce_off, goal_events, goal_side, overlaps, resolved, wall_hit};
use crate::controls::tracking_spec;
use crate::geometry::{
    in_band, is_axis_unit, lemma_heading_band, Vec2i, BALL_SPEED,
    BOT_PADDLE_SPEED,
};
use crate::world::{
    bot_vel, count_side, ids_ordered, is_nearest, kept, launched_from, moved, names, Ball,
    GoalEvent, Paddle, Side, COORD_LIMIT, launch_vel, launch_dir_ok,
};

verus! {

/// Position after `n` integration steps at constant velocity `v`.
pub open spec fn drift(p: Vec2i, v: Vec2i, n: nat) -> Vec2i
    decreases n,
{
    if n == 0 {
        p
    } else {
        moved(drift(p, v, (n - 1) as nat), v)
    }
}

/// Integration is linear: after `n` steps at constant velocity a point has
/// moved by exactly `n` times that velocity.
pub proof fn lemma_integration_linear(p: Vec2i, v: Vec2i, n: nat)
    requires
        -COORD_LIMIT <= p.x <= COORD_LIMIT,
        -COORD_LIMIT <= p.y <= COORD_LIMIT,
        -BALL_SPEED <= v.x <= BALL_SPEED,
        -BALL_SPEED <= v.y <= BALL_SPEED,
        n * BALL_SPEED <= COORD_LIMIT,
    ensures
        drift(p, v, n).x == p.x + n * v.x,
        drift(p, v, n).y == p.y + n * v.y,
    decreases n,
{
    if n > 0 {
        let m = (n - 1) as nat;
        assert(m * BALL_SPEED <= COORD_LIMIT) by (nonlinear_arith)
            requires n * BALL_SPEED <= COORD_LIMIT, m == n - 1;
        lemma_integration_linear(p, v, m);
        assert(n * v.x == m * v.x + v.x && n * v.y == m * v.y + v.y) by (nonlinear_arith)
            requires m == n - 1;
        assert(-COORD_LIMIT <= m * v.x <= COORD_LIMIT && -COORD_LIMIT <= m * v.y <= COORD_LIMIT)
            by (nonlinear_arith)
            requires
                m * BALL_SPEED <= COORD_LIMIT,
                -BALL_SPEED <= v.x <= BALL_SPEED,
                -BALL_SPEED <= v.y <= BALL_SPEED,
                m >= 0;
    }
}

proof fn lemma_no_overlap_keeps(pos: Vec2i, vel: Vec2i, paddles: Seq<Paddle>)
    requires
        forall|k: int| 0 <= k < paddles.len() ==> !overlaps(pos, #[trigger] paddles[k].pos),
    ensures
        after_paddles(pos, vel, paddles) == vel,
    decreases paddles.len(),
{
    if paddles.len() > 0 {
        let rest = paddles.drop_last();
        assert forall|k: int| 0 <= k < rest.len() implies !overlaps(pos, #[trigger] rest[k].pos) by {
            assert(rest[k] == paddles[k]);
        }
        lemma_no_overlap_keeps(pos, vel, rest);
        assert(!overlaps(pos, paddles[paddles.len() - 1].pos));
    }
}

/// A ball past the top or bottom bound that touches no paddle keeps its
/// horizontal velocity and has its vertical velocity negated.
pub proof fn lemma_wall_bounce(b: Ball, paddles: Seq<Paddle>, half_h: int)
    requires
        wall_hit(b.pos, half_h),
        crate::world::ball_vel_ok(b.vel),
        forall|k: int| 0 <= k < paddles.len() ==> !overlaps(b.pos, #[trigger] paddles[k].pos),
    ensures
        resolved(b, paddles, half_h).vel.x == b.vel.x,
        resolved(b, paddles, half_h).vel.y == -b.vel.y,
{
    lemma_no_overlap_keeps(b.pos, Vec2i { x: b.vel.x, y: (-b.vel.y) as i64 }, paddles);
}

/// A bounce off an overlapping paddle has ball speed up to rounding (its
/// squared speed lies between `(BALL_SPEED - 2)^2` and `BALL_SPEED^2`)
/// whatever the incoming velocity, and so never stops the ball.
pub proof fn lemma_paddle_bounce_speed(ball: Vec2i, paddle: Vec2i)
    requires
        overlaps(ball, paddle),
    ensures
        in_band(bounce_off(ball, paddle).x as int, bounce_off(ball, paddle).y as int),
        bounce_off(ball, paddle) != (Vec2i { x: 0, y: 0 }),
{
    let fb = away_from(paddle);
    assert(is_axis_unit(fb));
    lemma_heading_band(ball.x - paddle.x, ball.y - paddle.y, fb);
}

/// Every launched ball has ball speed up to rounding, and so moves.
pub proof fn lemma_launch_speed(b: Ball, o: Ball)
    requires
        launched_from(b, o),
    ensures
        b.vel != (Vec2i { x: 0, y: 0 }),
        in_band(b.vel.x as int, b.vel.y as int),
        b.id == o.id,
        b.pos == o.pos,
{
    let d = choose|d: Vec2i| launch_dir_ok(d) && b == (Ball { vel: launch_vel(d), ..o });
    lemma_heading_band(d.x as int, d.y as int, Vec2i { x: 1, y: 0 });
}

/// With a single ball, a bot heads for it at full speed when it is farther
/// than that speed and lands on it exactly when it is nearer.
pub proof fn lemma_bot_single(ball: Ball, p: Paddle)
    ensures
        bot_vel(seq![ball], p).x == p.vel.x,
        bot_vel(seq![ball], p).y == tracking_spec(ball.pos.y - p.pos.y) as i64,
        ball.pos.y - p.pos.y > BOT_PADDLE_SPEED ==> bot_vel(seq![ball], p).y == BOT_PADDLE_SPEED,
        0 <= ball.pos.y - p.pos.y <= BOT_PADDLE_SPEED ==> bot_vel(seq![ball], p).y == ball.pos.y
            - p.pos.y,
{
    let s = seq![ball];
    assert(is_nearest(s, p.pos, 0));
    let c = choose|c: int| is_nearest(s, p.pos, c);
    assert(c == 0);
}

proof fn lemma_names_push(events: Seq<GoalEvent>, e: GoalEvent, id: u64)
    ensures
        names(events.push(e), id) == (names(events, id) || e.ball == id),
{
    let pushed = events.push(e);
    if names(events, id) {
        let k = choose|k: int| 0 <= k < events.len() && (#[trigger] events[k]).ball == id;
        assert(pushed[k] == events[k]);
    }
    if e.ball == id {
        assert(pushed[events.len() as int] == e);
    }
    if names(pushed, id) {
        let k = choose|k: int| 0 <= k < pushed.len() && (#[trigger] pushed[k]).ball == id;
        if k < events.len() {
            assert(events[k] == pushed[k]);
        }
    }
}

proof fn lemma_events_below(balls: Seq<Ball>, half_w: int, x: u64)
    requires
        forall|i: int| 0 <= i < balls.len() ==> (#[trigger] balls[i]).id < x,
    ensures
        forall|k: int| 0 <= k < goal_events(balls, half_w).len() ==> (#[trigger] goal_events(balls, half_w)[k]).ball < x,
    decreases balls.len(),
{
    if balls.len() > 0 {
        let rest = balls.drop_last();
        assert forall|i: int| 0 <= i < rest.len() implies (#[trigger] rest[i]).id < x by {
            assert(rest[i] == balls[i]);
        }
        lemma_events_below(rest, half_w, x);
        assert(balls.last() == balls[balls.len() - 1]);
    }
}

proof fn lemma_kept_same(balls: Seq<Ball>, e1: Seq<GoalEvent>, e2: Seq<GoalEvent>)
    requires
        forall|i: int| 0 <= i < balls.len() ==> names(e1, (#[trigger] balls[i]).id) == names(e2, balls[i].id),
    ensures
        kept(balls, e1) == kept(balls, e2),
    decreases balls.len(),
{
    if balls.len() > 0 {
        let rest = balls.drop_last();
        assert forall|i: int| 0 <= i < rest.len() implies names(e1, (#[trigger] rest[i]).id) == names(e2, rest[i].id) by {
            assert(rest[i] == balls[i]);
        }
        lemma_kept_same(rest, e1, e2);
        assert(balls.last() == balls[balls.len() - 1]);
    }
}

/// Balls with the same ids in the same order keep the same number of balls.
pub proof fn lemma_kept_len(a: Seq<Ball>, b: Seq<Ball>, events: Seq<GoalEvent>)
    requires
        a.len() == b.len(),
        forall|i: int| 0 <= i < a.len() ==> (#[trigger] a[i]).id == b[i].id,
    ensures
        kept(a, events).len() == kept(b, events).len(),
    decreases a.len(),
{
    if a.len() > 0 {
        let (ra, rb) = (a.drop_last(), b.drop_last());
        assert forall|i: int| 0 <= i < ra.len() implies (#[trigger] ra[i]).id == rb[i].id by {
            assert(ra[i] == a[i] && rb[i] == b[i]);
        }
        lemma_kept_len(ra, rb, events);
        assert(a.last().id == a[a.len() - 1].id);
    }
}

/// Every ball past the left or right bound gives one goal event and is then
/// removed: the balls that stay and the events together number the balls.
pub proof fn lemma_goal_accounting(balls: Seq<Ball>, half_w: int, next_id: u64)
    requires
        ids_ordered(balls, next_id),
    ensures
        kept(balls, goal_events(balls, half_w)).len() + goal_events(balls, half_w).len()
            == balls.len(),
    decreases balls.len(),
{
    if balls.len() > 0 {
        let rest = balls.drop_last();
        let l = balls.last();
        assert(l == balls[balls.len() - 1]);
        assert(ids_ordered(rest, next_id)) by {
            assert forall|i: int, j: int| 0 <= i < j < rest.len() implies rest[i].id < rest[j].id by {
                assert(rest[i] == balls[i] && rest[j] == balls[j]);
            }
            assert forall|i: int| 0 <= i < rest.len() implies rest[i].id < next_id by {
                assert(rest[i] == balls[i]);
            }
        }
        lemma_goal_accounting(rest, half_w, next_id);
        let er = goal_events(rest, half_w);
        let e = goal_events(balls, half_w);
        assert forall|i: int| 0 <= i < rest.len() implies (#[trigger] rest[i]).id < l.id by {
            assert(rest[i] == balls[i]);
        }
        lemma_events_below(rest, half_w, l.id);
        assert(!names(er, l.id));
        match goal_side(l.pos, half_w) {
            Some(side) => {
                let ev = GoalEvent { ball: l.id, side };
                assert(e == er.push(ev));
                assert forall|i: int| 0 <= i < rest.len() implies names(e, (#[trigger] rest[i]).id)
                    == names(er, rest[i].id) by {
                    lemma_names_push(er, ev, rest[i].id);
                }
                lemma_kept_same(rest, e, er);
                lemma_names_push(er, ev, l.id);
            },
            None => {
                assert(e == er);
            },
        }
    }
}

/// A lone ball past the left bound gives exactly one goal event, on the
/// player's side; it scores one point for the opponent and none for the
/// player, and the ball is removed.
pub proof fn lemma_left_goal(b: Ball, half_w: int)
    requires
        b.pos.x - crate::geometry::BALL_HALF < -half_w,
        b.pos.x < 0,
    ensures
        goal_events(seq![b], half_w) == seq![GoalEvent { ball: b.id, side: Side::Player }],
        count_side(goal_events(seq![b], half_w), Side::Player) == 1,
        count_side(goal_events(seq![b], half_w), Side::Opponent) == 0,
        kept(seq![b], goal_events(seq![b], half_w)).len() == 0,
{
    let s = seq![b];
    assert(s.drop_last() =~= Seq::<Ball>::empty());
    assert(s.last() == b);
    assert(goal_side(b.pos, half_w) == Some(Side::Player));
    assert(goal_events(Seq::<Ball>::empty(), half_w) == Seq::<GoalEvent>::empty());
    assert(goal_events(s, half_w) == Seq::<GoalEvent>::empty().push(
        GoalEvent { ball: b.id, side: Side::Player },
    ));
    let e = goal_events(s, half_w);
    assert(e =~= seq![GoalEvent { ball: b.id, side: Side::Player }]);
    assert(e.drop_last() =~= Seq::<GoalEvent>::empty());
    assert(count_side(Seq::<GoalEvent>::empty(), Side::Player) == 0);
    assert(count_side(Seq::<GoalEvent>::empty(), Side::Opponent) == 0);
    assert(e.last().side == Side::Player);
    assert(e[0].ball == b.id);
    assert(kept(Seq::<Ball>::empty(), e) == Seq::<Ball>::empty());
    assert(names(e, b.id));
}

/// Goal events name each ball past the left or right bound exactly once, with
/// the side of the goal it breached, and name no other ball: their ids rise
/// strictly in event order.
pub proof fn lemma_goal_events_exact(balls: Seq<Ball>, half_w: int, next_id: u64)
    requires
        ids_ordered(balls, next_id),
    ensures
        forall|k1: int, k2: int| 0 <= k1 < k2 < goal_events(balls, half_w).len()
            ==> (#[trigger] goal_events(balls, half_w)[k1]).ball < (#[trigger] goal_events(balls, half_w)[k2]).ball,
        forall|i: int| 0 <= i < balls.len() && (#[trigger] goal_side(balls[i].pos, half_w)) is Some
            ==> names(goal_events(balls, half_w), balls[i].id),
        forall|i: int, k: int| 0 <= i < balls.len() && 0 <= k < goal_events(balls, half_w).len()
            && (#[trigger] goal_events(balls, half_w)[k]).ball == (#[trigger] balls[i]).id
            ==> goal_side(balls[i].pos, half_w) == Some(goal_events(balls, half_w)[k].side),
    decreases balls.len(),
{
    if balls.len() > 0 {
        let rest = balls.drop_last();
        let l = balls.last();
        let n = balls.len() - 1;
        assert(l == balls[n]);
        assert(ids_ordered(rest, next_id)) by {
            assert forall|i: int, j: int| 0 <= i < j < rest.len() implies rest[i].id < rest[j].id by {
                assert(rest[i] == balls[i] && rest[j] == balls[j]);
            }
            assert forall|i: int| 0 <= i < rest.len() implies rest[i].id < next_id by {
                assert(rest[i] == balls[i]);
            }
        }
        lemma_goal_events_exact(rest, half_w, next_id);
        assert forall|i: int| 0 <= i < rest.len() implies (#[trigger] rest[i]).id < l.id by {
            assert(rest[i] == balls[i]);
        }
        lemma_events_below(rest, half_w, l.id);
        let er = goal_events(rest, half_w);
        let e = goal_events(balls, half_w);
        assert forall|i: int| 0 <= i < balls.len() && (#[trigger] goal_side(balls[i].pos, half_w)) is Some
            implies names(e, balls[i].id) by {
            if i < n {
                assert(rest[i] == balls[i]);
                assert(goal_side(rest[i].pos, half_w) is Some);
                let k = choose|k: int| 0 <= k < er.len() && (#[trigger] er[k]).ball == rest[i].id;
                assert(e[k] == er[k]);
            } else {
                assert(e[er.len() as int].ball == l.id);
            }
        }
        assert forall|i: int, k: int| 0 <= i < balls.len() && 0 <= k < e.len()
            && (#[trigger] e[k]).ball == (#[trigger] balls[i]).id
            implies goal_side(balls[i].pos, half_w) == Some(e[k].side) by {
            if k < er.len() {
                assert(e[k] == er[k]);
                assert(er[k].ball < l.id);
                if i == n {
                } else {
                    assert(rest[i] == balls[i]);
                    assert(er[k].ball == rest[i].id);
                }
            } else {
                assert(e[k].ball == l.id);
                if i < n {
                    assert(balls[i].id < balls[n].id);
                }
            }
        }
        assert forall|k1: int, k2: int| 0 <= k1 < k2 < e.len()
            implies (#[trigger] e[k1]).ball < (#[trigger] e[k2]).ball by {
            assert(e[k1] == er[k1]);
            if k2 < er.len() {
                assert(e[k2] == er[k2]);
            } else {
                assert(er[k1].ball < l.id);
            }
        }
    }
}

} // verus!
