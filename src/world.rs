use vstd::prelude::*;
use crate::controls::{
    clamp_paddle, clamp_spec, player_speed, player_speed_spec, tracking_spec, tracking_speed,
};
use crate::geometry::{at_speed, heading_vec, norm_sq, Vec2i, BALL_SPEED, PADDLE_OFFSET, PADDLE_SPEED};
use crate::random::random_in;
use crate::timer::{LaunchTimer, BALL_LAUNCH_TIME};
use crate::collision::{goal_events, goal_of, resolve_ball, resolved, touches_any};
use crate::geometry::in_band;
use crate::laws::{lemma_goal_accounting, lemma_kept_len};

verus! {

/// Horizontal spread of a launch direction; the vertical spread is half of
/// it, which favours flat launches.
pub const LAUNCH_SPREAD: i64 = 1_000_000;
pub const LAUNCH_SPREAD_Y: i64 = 500_000;

/// Balls created by each repopulation in the standard game.
pub const BALLS_AMOUNT: u64 = 100_000;

/// Largest coordinate magnitude a tick accepts.
pub const COORD_LIMIT: i64 = 0x100_0000_0000;

/// Who moves a paddle.
#[derive(Clone, Copy, Debug, PartialEq, Eq, Structural)]
pub enum Control {
    Player,
    Bot,
}

/// One side of the playfield: the player's goal is on the left, the
/// opponent's on the right.
#[derive(Clone, Copy, Debug, PartialEq, Eq, Structural)]
pub enum Side {
    Player,
    Opponent,
}

#[derive(Clone, Copy, Debug, PartialEq, Eq, Structural)]
pub struct Paddle {
    pub control: Control,
    pub pos: Vec2i,
    pub vel: Vec2i,
}

#[derive(Clone, Copy, Debug, PartialEq, Eq, Structural)]
pub struct Ball {
    pub id: u64,
    pub pos: Vec2i,
    pub vel: Vec2i,
}

/// A ball left the playfield through the goal of `side`.
#[derive(Clone, Copy, Debug, PartialEq, Eq, Structural)]
pub struct GoalEvent {
    pub ball: u64,
    pub side: Side,
}

/// `winner` has just scored.
#[derive(Clone, Copy, Debug, PartialEq, Eq, Structural)]
pub struct ScoreEvent {
    pub winner: Side,
}

/// What one tick consumes: the direction keys, the time since the last tick
/// in microseconds, and the playfield's half extents.
#[derive(Clone, Copy, Debug, PartialEq, Eq, Structural)]
pub struct TickInput {
    pub up: bool,
    pub down: bool,
    pub elapsed: u64,
    pub half_width: i64,
    pub half_height: i64,
}

/// A paddle with its controller's velocity.
pub open spec fn steered(p: Paddle, balls: Seq<Ball>, up: bool, down: bool) -> Paddle {
    match p.control {
        Control::Player => Paddle { vel: Vec2i { x: 0, y: player_speed_spec(up, down) as i64 }, ..p },
        Control::Bot => Paddle { vel: bot_vel(balls, p), ..p },
    }
}

/// A paddle after steering, one step of motion and the boundary clamp.
pub open spec fn paddle_after(p: Paddle, balls: Seq<Ball>, up: bool, down: bool, half_h: int) -> Paddle {
    let s = steered(p, balls, up, down);
    let m = moved(s.pos, s.vel);
    Paddle { pos: Vec2i { x: m.x, y: clamp_spec(m.y as int, half_h) as i64 }, ..s }
}

/// Every ball moved one step by its velocity.
pub open spec fn stepped(balls: Seq<Ball>) -> Seq<Ball> {
    Seq::new(balls.len(), |i: int| Ball { pos: moved(balls[i].pos, balls[i].vel), ..balls[i] })
}

/// Every ball after wall and paddle collisions.
pub open spec fn resolved_all(balls: Seq<Ball>, paddles: Seq<Paddle>, half_h: int) -> Seq<Ball> {
    Seq::new(balls.len(), |i: int| resolved(balls[i], paddles, half_h))
}

/// Paddles, live balls, scores and the launch countdown.
pub struct World {
    pub paddles: Vec<Paddle>,
    pub balls: Vec<Ball>,
    pub ball_count: u64,
    pub next_id: u64,
    pub player_score: u64,
    pub opponent_score: u64,
    pub timer: LaunchTimer,
    pub batch: u64,
}

pub open spec fn in_limits(v: Vec2i) -> bool {
    -COORD_LIMIT <= v.x <= COORD_LIMIT && -COORD_LIMIT <= v.y <= COORD_LIMIT
}

/// Within a tick's reach of the limits: twice the limit in each coordinate.
pub open spec fn in_reach(v: Vec2i) -> bool {
    -2 * COORD_LIMIT <= v.x <= 2 * COORD_LIMIT && -2 * COORD_LIMIT <= v.y <= 2 * COORD_LIMIT
}

pub open spec fn ball_vel_ok(v: Vec2i) -> bool {
    -BALL_SPEED <= v.x <= BALL_SPEED && -BALL_SPEED <= v.y <= BALL_SPEED
}

pub open spec fn paddle_vel_ok(v: Vec2i) -> bool {
    v.x == 0 && -PADDLE_SPEED <= v.y <= PADDLE_SPEED
}

pub open spec fn ids_ordered(balls: Seq<Ball>, next_id: u64) -> bool {
    &&& forall|i: int, j: int| 0 <= i < j < balls.len() ==> balls[i].id < balls[j].id
    &&& forall|i: int| 0 <= i < balls.len() ==> balls[i].id < next_id
}

/// The side that scores when the goal of `breached` is crossed.
pub open spec fn other(breached: Side) -> Side {
    match breached {
        Side::Player => Side::Opponent,
        Side::Opponent => Side::Player,
    }
}

/// How many of `events` breached the goal of `side`.
pub open spec fn count_side(events: Seq<GoalEvent>, side: Side) -> nat
    decreases events.len(),
{
    if events.len() == 0 {
        0
    } else {
        count_side(events.drop_last(), side) + if events.last().side == side { 1nat } else { 0 }
    }
}

/// Some event of `events` names ball `id`.
pub open spec fn names(events: Seq<GoalEvent>, id: u64) -> bool {
    exists|k: int| 0 <= k < events.len() && (#[trigger] events[k]).ball == id
}

/// The balls that no event names, in their order.
pub open spec fn kept(balls: Seq<Ball>, events: Seq<GoalEvent>) -> Seq<Ball>
    decreases balls.len(),
{
    if balls.len() == 0 {
        seq![]
    } else {
        let rest = kept(balls.drop_last(), events);
        if names(events, balls.last().id) {
            rest
        } else {
            rest.push(balls.last())
        }
    }
}

/// `n` resting balls at the centre with ids counted up from `start`.
pub open spec fn fresh_balls(start: u64, n: nat) -> Seq<Ball> {
    Seq::new(n, |k: int| Ball { id: (start + k) as u64, pos: Vec2i { x: 0, y: 0 }, vel: Vec2i { x: 0, y: 0 } })
}

/// A launch direction as drawn: a horizontal part up to the spread and a
/// vertical part up to half of it.
pub open spec fn launch_dir_ok(d: Vec2i) -> bool {
    -LAUNCH_SPREAD <= d.x <= LAUNCH_SPREAD && -LAUNCH_SPREAD_Y <= d.y <= LAUNCH_SPREAD_Y
}

/// The launch velocity for a drawn direction; a zero draw launches to the
/// right.
pub open spec fn launch_vel(d: Vec2i) -> Vec2i {
    heading_vec(d.x as int, d.y as int, Vec2i { x: 1, y: 0 })
}

/// `b` is `o` launched along some direction that a draw can give.
pub open spec fn launched_from(b: Ball, o: Ball) -> bool {
    exists|d: Vec2i| launch_dir_ok(d) && b == (Ball { vel: launch_vel(d), ..o })
}

/// Draws one launch direction at random.
pub fn launch_direction() -> (d: Vec2i)
    ensures
        launch_dir_ok(d),
{
    let x = random_in(-LAUNCH_SPREAD, LAUNCH_SPREAD);
    let y = random_in(-LAUNCH_SPREAD_Y, LAUNCH_SPREAD_Y);
    Vec2i { x, y }
}

pub open spec fn moved(p: Vec2i, v: Vec2i) -> Vec2i {
    Vec2i { x: (p.x + v.x) as i64, y: (p.y + v.y) as i64 }
}

pub open spec fn dist_sq(a: Vec2i, b: Vec2i) -> int {
    norm_sq(a.x - b.x, a.y - b.y)
}

/// Ball `i` is the nearest to `p`, and the first of the nearest in order.
pub open spec fn is_nearest(balls: Seq<Ball>, p: Vec2i, i: int) -> bool {
    &&& 0 <= i < balls.len()
    &&& forall|j: int| 0 <= j < balls.len() ==> dist_sq(balls[i].pos, p) <= dist_sq(balls[j].pos, p)
    &&& forall|j: int| 0 <= j < i ==> dist_sq(balls[i].pos, p) < dist_sq(balls[j].pos, p)
}

/// The bot's velocity toward the nearest ball; unchanged with no ball.
pub open spec fn bot_vel(balls: Seq<Ball>, p: Paddle) -> Vec2i {
    if balls.len() == 0 {
        p.vel
    } else {
        let i = choose|i: int| is_nearest(balls, p.pos, i);
        Vec2i { x: p.vel.x, y: tracking_spec(balls[i].pos.y - p.pos.y) as i64 }
    }
}

/// The number a score counter shows: the count itself while it fits an
/// `i16`, and 0 past that.
pub fn display_value(count: u64) -> (r: i16)
    ensures
        r == if count <= i16::MAX { count as int } else { 0 },
{
    if count <= 32767 {
        count as i16
    } else {
        0
    }
}

fn dist_sq_exec(a: Vec2i, b: Vec2i) -> (r: i128)
    requires
        in_limits(a),
        in_limits(b),
    ensures
        r == dist_sq(a, b),
{
    let dx = (a.x as i128) - (b.x as i128);
    let dy = (a.y as i128) - (b.y as i128);
    assert(dx * dx <= 0x10_0000_0000_0000_0000_0000 && dy * dy <= 0x10_0000_0000_0000_0000_0000
        && dx * dx >= 0 && dy * dy >= 0) by (nonlinear_arith)
        requires
            -0x200_0000_0000 <= dx <= 0x200_0000_0000,
            -0x200_0000_0000 <= dy <= 0x200_0000_0000;
    dx * dx + dy * dy
}

/// Index of the ball nearest to `p`, the first one on a tie.
pub fn nearest_ball(balls: &Vec<Ball>, p: Vec2i) -> (r: Option<usize>)
    requires
        in_limits(p),
        forall|i: int| 0 <= i < balls@.len() ==> in_limits(#[trigger] balls@[i].pos),
    ensures
        r.is_none() <==> balls@.len() == 0,
        r matches Some(i) ==> is_nearest(balls@, p, i as int),
{
    if balls.len() == 0 {
        return None;
    }
    let mut best: usize = 0;
    let mut best_d = dist_sq_exec(balls[0].pos, p);
    let mut i: usize = 1;
    while i < balls.len()
        invariant
            1 <= i <= balls@.len(),
            best < i,
            in_limits(p),
            forall|k: int| 0 <= k < balls@.len() ==> in_limits(#[trigger] balls@[k].pos),
            best_d == dist_sq(balls@[best as int].pos, p),
            forall|j: int| 0 <= j < i ==> best_d <= dist_sq(#[trigger] balls@[j].pos, p),
            forall|j: int| 0 <= j < best ==> best_d < dist_sq(#[trigger] balls@[j].pos, p),
        decreases balls@.len() - i,
    {
        let d = dist_sq_exec(balls[i].pos, p);
        if d < best_d {
            best = i;
            best_d = d;
        }
        i = i + 1;
    }
    Some(best)
}

proof fn lemma_same_ids(a: Seq<Ball>, b: Seq<Ball>, next_id: u64)
    requires
        ids_ordered(a, next_id),
        a.len() == b.len(),
        forall|j: int| 0 <= j < a.len() ==> #[trigger] b[j].id == a[j].id,
    ensures
        ids_ordered(b, next_id),
{
    assert forall|i: int, j: int| 0 <= i < j < b.len() implies b[i].id < b[j].id by {
        assert(b[i].id == a[i].id && b[j].id == a[j].id);
    }
    assert forall|i: int| 0 <= i < b.len() implies b[i].id < next_id by {
        assert(b[i].id == a[i].id);
    }
}

fn named_in(events: &Vec<GoalEvent>, id: u64) -> (r: bool)
    ensures
        r == names(events@, id),
{
    let mut k: usize = 0;
    while k < events.len()
        invariant
            0 <= k <= events@.len(),
            forall|j: int| 0 <= j < k ==> (#[trigger] events@[j]).ball != id,
        decreases events@.len() - k,
    {
        if events[k].ball == id {
            return true;
        }
        k = k + 1;
    }
    false
}

proof fn lemma_nearest_unique(balls: Seq<Ball>, p: Vec2i, i: int, j: int)
    requires
        is_nearest(balls, p, i),
        is_nearest(balls, p, j),
    ensures
        i == j,
{
    if i < j {
        assert(dist_sq(balls[j].pos, p) < dist_sq(balls[i].pos, p));
    } else if j < i {
        assert(dist_sq(balls[i].pos, p) < dist_sq(balls[j].pos, p));
    }
}

impl World {
    pub open spec fn wf(&self) -> bool {
        &&& self.ball_count == self.balls@.len()
        &&& ids_ordered(self.balls@, self.next_id)
        &&& forall|i: int| 0 <= i < self.balls@.len() ==> ball_vel_ok(#[trigger] self.balls@[i].vel)
        &&& forall|k: int| 0 <= k < self.paddles@.len() ==> paddle_vel_ok(#[trigger] self.paddles@[k].vel)
        &&& self.timer.wf()
    }

    /// Every position is small enough for a tick to work on.
    pub open spec fn within_limits(&self) -> bool {
        &&& forall|i: int| 0 <= i < self.balls@.len() ==> in_limits(#[trigger] self.balls@[i].pos)
        &&& forall|k: int| 0 <= k < self.paddles@.len() ==> in_limits(#[trigger] self.paddles@[k].pos)
    }

    /// A playfield of half width `half_w` with the player's paddle on the
    /// left, the bot's on the right, no balls and a fresh launch countdown of
    /// `launch_delay` microseconds; each repopulation brings `batch` balls.
    pub fn new(half_w: i64, batch: u64, launch_delay: u64) -> (r: World)
        requires
            0 <= half_w <= COORD_LIMIT,
        ensures
            r.wf(),
            r.within_limits(),
            r.paddles@ == seq![
                Paddle { control: Control::Player, pos: Vec2i { x: (-half_w + PADDLE_OFFSET) as i64, y: 0 }, vel: Vec2i { x: 0, y: 0 } },
                Paddle { control: Control::Bot, pos: Vec2i { x: (half_w - PADDLE_OFFSET) as i64, y: 0 }, vel: Vec2i { x: 0, y: 0 } },
            ],
            r.balls@.len() == 0,
            r.ball_count == 0,
            r.next_id == 0,
            r.player_score == 0,
            r.opponent_score == 0,
            r.timer.duration == launch_delay,
            r.timer.elapsed == 0,
            !r.timer.finished,
            r.batch == batch,
    {
        let zero = Vec2i { x: 0, y: 0 };
        let mut paddles: Vec<Paddle> = Vec::new();
        paddles.push(Paddle { control: Control::Player, pos: Vec2i { x: -half_w + PADDLE_OFFSET, y: 0 }, vel: zero });
        paddles.push(Paddle { control: Control::Bot, pos: Vec2i { x: half_w - PADDLE_OFFSET, y: 0 }, vel: zero });
        let r = World {
            paddles,
            balls: Vec::new(),
            ball_count: 0,
            next_id: 0,
            player_score: 0,
            opponent_score: 0,
            timer: LaunchTimer::new(launch_delay),
            batch,
        };
        assert(r.paddles@ =~= seq![
            Paddle { control: Control::Player, pos: Vec2i { x: (-half_w + PADDLE_OFFSET) as i64, y: 0 }, vel: zero },
            Paddle { control: Control::Bot, pos: Vec2i { x: (half_w - PADDLE_OFFSET) as i64, y: 0 }, vel: zero },
        ]);
        r
    }

    /// The standard game: batches of `BALLS_AMOUNT` balls launched after
    /// `BALL_LAUNCH_TIME`.
    pub fn standard(half_w: i64) -> (r: World)
        requires
            0 <= half_w <= COORD_LIMIT,
        ensures
            r.wf(),
            r.within_limits(),
            r.paddles@ == seq![
                Paddle { control: Control::Player, pos: Vec2i { x: (-half_w + PADDLE_OFFSET) as i64, y: 0 }, vel: Vec2i { x: 0, y: 0 } },
                Paddle { control: Control::Bot, pos: Vec2i { x: (half_w - PADDLE_OFFSET) as i64, y: 0 }, vel: Vec2i { x: 0, y: 0 } },
            ],
            r.balls@.len() == 0,
            r.ball_count == 0,
            r.next_id == 0,
            r.player_score == 0,
            r.opponent_score == 0,
            r.batch == BALLS_AMOUNT,
            r.timer.duration == BALL_LAUNCH_TIME,
            r.timer.elapsed == 0,
            !r.timer.finished,
    {
        World::new(half_w, BALLS_AMOUNT, BALL_LAUNCH_TIME)
    }

    pub fn score(&self, side: Side) -> (r: u64)
        ensures
            r == match side {
                Side::Player => self.player_score,
                Side::Opponent => self.opponent_score,
            },
    {
        match side {
            Side::Player => self.player_score,
            Side::Opponent => self.opponent_score,
        }
    }

    /// Sets every player paddle's vertical velocity from the direction keys.
    pub fn player_input(&mut self, up: bool, down: bool)
        requires
            old(self).wf(),
        ensures
            final(self).wf(),
            final(self).balls == old(self).balls,
            final(self).paddles@.len() == old(self).paddles@.len(),
            forall|k: int| 0 <= k < final(self).paddles@.len() ==> {
                let (p, q) = (#[trigger] old(self).paddles@[k], final(self).paddles@[k]);
                &&& q.control == p.control
                &&& q.pos == p.pos
                &&& q.vel == if p.control == Control::Player {
                    Vec2i { x: 0, y: player_speed_spec(up, down) as i64 }
                } else {
                    p.vel
                }
            },
            final(self).same_but_paddles(*old(self)),
    {
        let speed = player_speed(up, down);
        let mut k: usize = 0;
        while k < self.paddles.len()
            invariant
                old(self).wf(),
                0 <= k <= self.paddles@.len(),
                self.paddles@.len() == old(self).paddles@.len(),
                self.same_but_paddles(*old(self)),
                speed == player_speed_spec(up, down),
                forall|j: int| 0 <= j < self.paddles@.len() ==> {
                    let (p, q) = (#[trigger] old(self).paddles@[j], self.paddles@[j]);
                    &&& q.control == p.control
                    &&& q.pos == p.pos
                    &&& q.vel == if j < k && p.control == Control::Player {
                        Vec2i { x: 0, y: player_speed_spec(up, down) as i64 }
                    } else {
                        p.vel
                    }
                },
                forall|j: int| 0 <= j < self.paddles@.len() ==> paddle_vel_ok(#[trigger] self.paddles@[j].vel),
            decreases self.paddles@.len() - k,
        {
            let mut p = self.paddles[k];
            if p.control == Control::Player {
                p.vel = Vec2i { x: 0, y: speed };
            }
            self.paddles.set(k, p);
            k = k + 1;
        }
    }

    /// Points every bot paddle at the nearest ball, capped at its speed; with
    /// no ball a bot keeps its velocity.
    pub fn bot_ai(&mut self)
        requires
            old(self).wf(),
            old(self).within_limits(),
        ensures
            final(self).wf(),
            final(self).within_limits(),
            final(self).same_but_paddles(*old(self)),
            final(self).paddles@.len() == old(self).paddles@.len(),
            forall|k: int| 0 <= k < final(self).paddles@.len() ==> {
                let (p, q) = (#[trigger] old(self).paddles@[k], final(self).paddles@[k]);
                &&& q.control == p.control
                &&& q.pos == p.pos
                &&& q.vel == if p.control == Control::Bot {
                    bot_vel(old(self).balls@, p)
                } else {
                    p.vel
                }
            },
    {
        let mut k: usize = 0;
        while k < self.paddles.len()
            invariant
                old(self).wf(),
                old(self).within_limits(),
                0 <= k <= self.paddles@.len(),
                self.paddles@.len() == old(self).paddles@.len(),
                self.same_but_paddles(*old(self)),
                forall|j: int| 0 <= j < self.paddles@.len() ==> {
                    let (p, q) = (#[trigger] old(self).paddles@[j], self.paddles@[j]);
                    &&& q.control == p.control
                    &&& q.pos == p.pos
                    &&& q.vel == if j < k && p.control == Control::Bot {
                        bot_vel(old(self).balls@, p)
                    } else {
                        p.vel
                    }
                },
                forall|j: int| 0 <= j < self.paddles@.len() ==> paddle_vel_ok(#[trigger] self.paddles@[j].vel),
                forall|j: int| 0 <= j < self.paddles@.len() ==> in_limits(#[trigger] self.paddles@[j].pos),
            decreases self.paddles@.len() - k,
        {
            let mut p = self.paddles[k];
            assert(old(self).paddles@[k as int] == p);
            if p.control == Control::Bot {
                match nearest_ball(&self.balls, p.pos) {
                    Some(i) => {
                        let target = self.balls[i].pos.y;
                        p.vel = Vec2i { x: p.vel.x, y: tracking_speed(target - p.pos.y) };
                        proof {
                            let c = choose|c: int| is_nearest(old(self).balls@, p.pos, c);
                            lemma_nearest_unique(old(self).balls@, p.pos, i as int, c);
                        }
                    },
                    None => {},
                }
            }
            self.paddles.set(k, p);
            k = k + 1;
        }
    }

    /// Moves every paddle and ball by its velocity.
    pub fn update_velocity(&mut self)
        requires
            old(self).wf(),
            old(self).within_limits(),
        ensures
            final(self).wf(),
            final(self).paddles@.len() == old(self).paddles@.len(),
            final(self).balls@.len() == old(self).balls@.len(),
            forall|k: int| 0 <= k < final(self).paddles@.len() ==> {
                let (p, q) = (#[trigger] old(self).paddles@[k], final(self).paddles@[k]);
                q == Paddle { pos: moved(p.pos, p.vel), ..p }
            },
            forall|i: int| 0 <= i < final(self).balls@.len() ==> {
                let (b, c) = (#[trigger] old(self).balls@[i], final(self).balls@[i]);
                c == Ball { pos: moved(b.pos, b.vel), ..b }
            },
            final(self).ball_count == old(self).ball_count,
            final(self).next_id == old(self).next_id,
            final(self).player_score == old(self).player_score,
            final(self).opponent_score == old(self).opponent_score,
            final(self).timer == old(self).timer,
            final(self).batch == old(self).batch,
    {
        let mut k: usize = 0;
        while k < self.paddles.len()
            invariant
                old(self).wf(),
                old(self).within_limits(),
                0 <= k <= self.paddles@.len(),
                self.paddles@.len() == old(self).paddles@.len(),
                self.same_but_paddles(*old(self)),
                forall|j: int| 0 <= j < self.paddles@.len() ==> {
                    let (p, q) = (#[trigger] old(self).paddles@[j], self.paddles@[j]);
                    q == if j < k { Paddle { pos: moved(p.pos, p.vel), ..p } } else { p }
                },
            decreases self.paddles@.len() - k,
        {
            let mut p = self.paddles[k];
            assert(old(self).paddles@[k as int] == p);
            assert(paddle_vel_ok(p.vel) && in_limits(p.pos));
            p.pos = Vec2i { x: p.pos.x + p.vel.x, y: p.pos.y + p.vel.y };
            self.paddles.set(k, p);
            k = k + 1;
        }
        let mut i: usize = 0;
        while i < self.balls.len()
            invariant
                old(self).wf(),
                old(self).within_limits(),
                0 <= i <= self.balls@.len(),
                self.balls@.len() == old(self).balls@.len(),
                self.paddles@.len() == old(self).paddles@.len(),
                forall|j: int| 0 <= j < self.paddles@.len() ==> {
                    let (p, q) = (#[trigger] old(self).paddles@[j], self.paddles@[j]);
                    q == Paddle { pos: moved(p.pos, p.vel), ..p }
                },
                forall|j: int| 0 <= j < self.balls@.len() ==> {
                    let (b, c) = (#[trigger] old(self).balls@[j], self.balls@[j]);
                    c == if j < i { Ball { pos: moved(b.pos, b.vel), ..b } } else { b }
                },
                self.ball_count == old(self).ball_count,
                self.next_id == old(self).next_id,
                self.player_score == old(self).player_score,
                self.opponent_score == old(self).opponent_score,
                self.timer == old(self).timer,
                self.batch == old(self).batch,
            decreases self.balls@.len() - i,
        {
            let mut b = self.balls[i];
            assert(old(self).balls@[i as int] == b);
            assert(ball_vel_ok(b.vel) && in_limits(b.pos));
            b.pos = Vec2i { x: b.pos.x + b.vel.x, y: b.pos.y + b.vel.y };
            self.balls.set(i, b);
            i = i + 1;
        }
        proof {
            assert forall|j: int| 0 <= j < self.paddles@.len() implies paddle_vel_ok(
                #[trigger] self.paddles@[j].vel) by {
                assert(old(self).paddles@[j].vel == self.paddles@[j].vel);
            }
            assert forall|j: int| 0 <= j < self.balls@.len() implies ball_vel_ok(
                #[trigger] self.balls@[j].vel) && self.balls@[j].id == old(self).balls@[j].id by {
                assert(old(self).balls@[j].vel == self.balls@[j].vel);
            }
            lemma_same_ids(old(self).balls@, self.balls@, self.next_id);
        }
    }

    /// Pulls every paddle back inside the playfield of half height `half_h`.
    pub fn paddle_boundaries(&mut self, half_h: i64)
        requires
            old(self).wf(),
            0 <= half_h <= COORD_LIMIT,
            forall|k: int| 0 <= k < old(self).paddles@.len() ==> in_limits(
                #[trigger] old(self).paddles@[k].pos) || in_reach(old(self).paddles@[k].pos),
        ensures
            final(self).wf(),
            final(self).same_but_paddles(*old(self)),
            final(self).paddles@.len() == old(self).paddles@.len(),
            forall|k: int| 0 <= k < final(self).paddles@.len() ==> {
                let (p, q) = (#[trigger] old(self).paddles@[k], final(self).paddles@[k]);
                q == Paddle { pos: Vec2i { x: p.pos.x, y: clamp_spec(p.pos.y as int, half_h as int) as i64 }, ..p }
            },
    {
        let mut k: usize = 0;
        while k < self.paddles.len()
            invariant
                old(self).wf(),
                0 <= half_h <= COORD_LIMIT,
                forall|j: int| 0 <= j < old(self).paddles@.len() ==> in_limits(
                    #[trigger] old(self).paddles@[j].pos) || in_reach(old(self).paddles@[j].pos),
                0 <= k <= self.paddles@.len(),
                self.paddles@.len() == old(self).paddles@.len(),
                self.same_but_paddles(*old(self)),
                forall|j: int| 0 <= j < self.paddles@.len() ==> {
                    let (p, q) = (#[trigger] old(self).paddles@[j], self.paddles@[j]);
                    q == if j < k {
                        Paddle { pos: Vec2i { x: p.pos.x, y: clamp_spec(p.pos.y as int, half_h as int) as i64 }, ..p }
                    } else {
                        p
                    }
                },
            decreases self.paddles@.len() - k,
        {
            let mut p = self.paddles[k];
            assert(old(self).paddles@[k as int] == p);
            p.pos = Vec2i { x: p.pos.x, y: clamp_paddle(p.pos.y, half_h) };
            self.paddles.set(k, p);
            k = k + 1;
        }
        proof {
            assert forall|j: int| 0 <= j < self.paddles@.len() implies paddle_vel_ok(
                #[trigger] self.paddles@[j].vel) by {
                assert(old(self).paddles@[j].vel == self.paddles@[j].vel);
            }
        }
    }

    /// Wall and paddle collisions for every ball, and a goal event for each
    /// ball past the left or right bound, in ball order.
    pub fn ball_bounce(&mut self, half_w: i64, half_h: i64) -> (events: Vec<GoalEvent>)
        requires
            old(self).wf(),
            0 <= half_w <= COORD_LIMIT,
            0 <= half_h <= COORD_LIMIT,
            forall|i: int| 0 <= i < old(self).balls@.len() ==> in_reach(#[trigger] old(self).balls@[i].pos),
            forall|k: int| 0 <= k < old(self).paddles@.len() ==> in_reach(#[trigger] old(self).paddles@[k].pos),
        ensures
            final(self).wf(),
            final(self).same_but_balls(*old(self)),
            final(self).balls@.len() == old(self).balls@.len(),
            forall|i: int| 0 <= i < final(self).balls@.len() ==> #[trigger] final(self).balls@[i]
                == resolved(old(self).balls@[i], old(self).paddles@, half_h as int),
            forall|i: int| 0 <= i < final(self).balls@.len() && touches_any(
                old(self).balls@[i].pos,
                old(self).paddles@,
            ) ==> in_band(#[trigger] final(self).balls@[i].vel.x as int, final(self).balls@[i].vel.y as int),
            events@ == goal_events(old(self).balls@, half_w as int),
    {
        let mut events: Vec<GoalEvent> = Vec::new();
        let mut i: usize = 0;
        while i < self.balls.len()
            invariant
                old(self).wf(),
                0 <= half_w <= COORD_LIMIT,
                0 <= half_h <= COORD_LIMIT,
                forall|j: int| 0 <= j < old(self).balls@.len() ==> in_reach(#[trigger] old(self).balls@[j].pos),
                forall|k: int| 0 <= k < old(self).paddles@.len() ==> in_reach(#[trigger] old(self).paddles@[k].pos),
                0 <= i <= self.balls@.len(),
                self.balls@.len() == old(self).balls@.len(),
                self.same_but_balls(*old(self)),
                forall|j: int| 0 <= j < self.balls@.len() ==> #[trigger] self.balls@[j] == if j < i {
                    resolved(old(self).balls@[j], old(self).paddles@, half_h as int)
                } else {
                    old(self).balls@[j]
                },
                forall|j: int| 0 <= j < self.balls@.len() ==> ball_vel_ok(#[trigger] self.balls@[j].vel),
                forall|j: int| 0 <= j < i && touches_any(old(self).balls@[j].pos, old(self).paddles@)
                    ==> in_band(#[trigger] self.balls@[j].vel.x as int, self.balls@[j].vel.y as int),
                events@ == goal_events(old(self).balls@.subrange(0, i as int), half_w as int),
            decreases self.balls@.len() - i,
        {
            let b = self.balls[i];
            assert(b == old(self).balls@[i as int]);
            proof {
                assert(old(self).balls@.subrange(0, i + 1).drop_last()
                    =~= old(self).balls@.subrange(0, i as int));
            }
            match goal_of(b.pos, half_w) {
                Some(side) => events.push(GoalEvent { ball: b.id, side }),
                None => {},
            }
            let r = resolve_ball(b, &self.paddles, half_h);
            self.balls.set(i, r);
            i = i + 1;
        }
        proof {
            assert(old(self).balls@.subrange(0, old(self).balls@.len() as int) =~= old(self).balls@);
            assert forall|j: int| 0 <= j < self.balls@.len() implies #[trigger] self.balls@[j].id
                == old(self).balls@[j].id by {
                assert(self.balls@[j] == resolved(old(self).balls@[j], old(self).paddles@, half_h as int));
            }
            lemma_same_ids(old(self).balls@, self.balls@, self.next_id);
        }
        events
    }

    /// Adds a point to the scoring side of each event and reports who
    /// scored, in event order.
    pub fn update_score(&mut self, events: &Vec<GoalEvent>) -> (scored: Vec<ScoreEvent>)
        requires
            old(self).wf(),
            old(self).player_score + events@.len() <= u64::MAX,
            old(self).opponent_score + events@.len() <= u64::MAX,
        ensures
            final(self).wf(),
            final(self).paddles == old(self).paddles,
            final(self).balls == old(self).balls,
            final(self).ball_count == old(self).ball_count,
            final(self).next_id == old(self).next_id,
            final(self).timer == old(self).timer,
            final(self).batch == old(self).batch,
            final(self).player_score == old(self).player_score + count_side(events@, Side::Opponent),
            final(self).opponent_score == old(self).opponent_score + count_side(events@, Side::Player),
            scored@.len() == events@.len(),
            forall|k: int| 0 <= k < events@.len() ==> (#[trigger] scored@[k]).winner == other(events@[k].side),
    {
        let mut scored: Vec<ScoreEvent> = Vec::new();
        let mut k: usize = 0;
        while k < events.len()
            invariant
                old(self).wf(),
                old(self).player_score + events@.len() <= u64::MAX,
                old(self).opponent_score + events@.len() <= u64::MAX,
                0 <= k <= events@.len(),
                self.paddles == old(self).paddles,
                self.balls == old(self).balls,
                self.ball_count == old(self).ball_count,
                self.next_id == old(self).next_id,
                self.timer == old(self).timer,
                self.batch == old(self).batch,
                self.player_score == old(self).player_score + count_side(events@.subrange(0, k as int), Side::Opponent),
                self.opponent_score == old(self).opponent_score + count_side(events@.subrange(0, k as int), Side::Player),
                self.player_score <= old(self).player_score + k,
                self.opponent_score <= old(self).opponent_score + k,
                scored@.len() == k,
                forall|j: int| 0 <= j < k ==> (#[trigger] scored@[j]).winner == other(events@[j].side),
            decreases events@.len() - k,
        {
            let e = events[k];
            proof {
                assert(events@.subrange(0, k + 1).drop_last() =~= events@.subrange(0, k as int));
            }
            let winner = match e.side {
                Side::Player => Side::Opponent,
                Side::Opponent => Side::Player,
            };
            match winner {
                Side::Player => self.player_score = self.player_score + 1,
                Side::Opponent => self.opponent_score = self.opponent_score + 1,
            }
            scored.push(ScoreEvent { winner });
            k = k + 1;
        }
        proof {
            assert(events@.subrange(0, events@.len() as int) =~= events@);
        }
        scored
    }

    /// Removes every ball that an event names and counts the live balls
    /// again.
    pub fn remove_off_screen_balls(&mut self, events: &Vec<GoalEvent>)
        requires
            old(self).wf(),
        ensures
            final(self).wf(),
            final(self).balls@ == kept(old(self).balls@, events@),
            final(self).ball_count == final(self).balls@.len(),
            final(self).paddles == old(self).paddles,
            final(self).next_id == old(self).next_id,
            final(self).player_score == old(self).player_score,
            final(self).opponent_score == old(self).opponent_score,
            final(self).timer == old(self).timer,
            final(self).batch == old(self).batch,
    {
        let mut live: Vec<Ball> = Vec::new();
        let mut i: usize = 0;
        while i < self.balls.len()
            invariant
                old(self).wf(),
                self.balls == old(self).balls,
                0 <= i <= self.balls@.len(),
                live@ == kept(self.balls@.subrange(0, i as int), events@),
                live@.len() <= i,
                ids_ordered(live@, self.next_id),
                forall|a: int, j: int| 0 <= a < live@.len() && i <= j < self.balls@.len()
                    ==> #[trigger] live@[a].id < #[trigger] self.balls@[j].id,
                forall|a: int| 0 <= a < live@.len() ==> ball_vel_ok(#[trigger] live@[a].vel),
            decreases self.balls@.len() - i,
        {
            let b = self.balls[i];
            proof {
                assert(self.balls@.subrange(0, i + 1).drop_last() =~= self.balls@.subrange(0, i as int));
            }
            if !named_in(events, b.id) {
                live.push(b);
            }
            i = i + 1;
        }
        proof {
            assert(self.balls@.subrange(0, self.balls@.len() as int) =~= self.balls@);
        }
        self.ball_count = live.len() as u64;
        self.balls = live;
    }

    pub fn should_spawn_balls(&self) -> (r: bool)
        ensures
            r == (self.ball_count == 0),
    {
        self.ball_count == 0
    }

    /// With no ball left, creates a batch of resting balls at the centre,
    /// restarts the launch countdown and sets the count to the batch size;
    /// otherwise changes nothing. Tells whether it spawned.
    pub fn spawn_ball(&mut self) -> (spawned: bool)
        requires
            old(self).wf(),
            old(self).next_id + old(self).batch <= u64::MAX,
        ensures
            final(self).wf(),
            spawned == (old(self).ball_count == 0),
            final(self).paddles == old(self).paddles,
            final(self).player_score == old(self).player_score,
            final(self).opponent_score == old(self).opponent_score,
            final(self).batch == old(self).batch,
            spawned ==> {
                &&& final(self).balls@ == fresh_balls(old(self).next_id, old(self).batch as nat)
                &&& final(self).ball_count == old(self).batch
                &&& final(self).next_id == old(self).next_id + old(self).batch
                &&& final(self).timer == (LaunchTimer { elapsed: 0, finished: false, ..old(self).timer })
            },
            !spawned ==> {
                &&& final(self).balls == old(self).balls
                &&& final(self).ball_count == old(self).ball_count
                &&& final(self).next_id == old(self).next_id
                &&& final(self).timer == old(self).timer
            },
    {
        if !self.should_spawn_balls() {
            return false;
        }
        let start = self.next_id;
        let mut k: u64 = 0;
        while k < self.batch
            invariant
                old(self).wf(),
                old(self).ball_count == 0,
                start == old(self).next_id,
                start + old(self).batch <= u64::MAX,
                self.batch == old(self).batch,
                self.paddles == old(self).paddles,
                self.player_score == old(self).player_score,
                self.opponent_score == old(self).opponent_score,
                self.timer == old(self).timer,
                0 <= k <= self.batch,
                self.balls@ == fresh_balls(start, k as nat),
            decreases self.batch - k,
        {
            self.balls.push(Ball { id: start + k, pos: Vec2i { x: 0, y: 0 }, vel: Vec2i { x: 0, y: 0 } });
            k = k + 1;
            assert(self.balls@ =~= fresh_balls(start, k as nat));
        }
        self.next_id = start + self.batch;
        self.ball_count = self.batch;
        self.timer.reset();
        true
    }

    /// Sets every ball's velocity to ball speed along its drawn direction.
    pub fn launch_with(&mut self, dirs: &Vec<Vec2i>)
        requires
            old(self).wf(),
            dirs@.len() == old(self).balls@.len(),
            forall|i: int| 0 <= i < dirs@.len() ==> launch_dir_ok(#[trigger] dirs@[i]),
        ensures
            final(self).wf(),
            final(self).same_but_balls(*old(self)),
            final(self).balls@.len() == old(self).balls@.len(),
            forall|i: int| 0 <= i < final(self).balls@.len() ==> #[trigger] final(self).balls@[i]
                == (Ball { vel: launch_vel(dirs@[i]), ..old(self).balls@[i] }),
            forall|i: int| 0 <= i < final(self).balls@.len() ==> in_band(
                #[trigger] final(self).balls@[i].vel.x as int,
                final(self).balls@[i].vel.y as int,
            ),
    {
        let mut i: usize = 0;
        while i < self.balls.len()
            invariant
                old(self).wf(),
                dirs@.len() == old(self).balls@.len(),
                forall|j: int| 0 <= j < dirs@.len() ==> launch_dir_ok(#[trigger] dirs@[j]),
                0 <= i <= self.balls@.len(),
                self.balls@.len() == old(self).balls@.len(),
                self.same_but_balls(*old(self)),
                forall|j: int| 0 <= j < self.balls@.len() ==> #[trigger] self.balls@[j] == if j < i {
                    Ball { vel: launch_vel(dirs@[j]), ..old(self).balls@[j] }
                } else {
                    old(self).balls@[j]
                },
                forall|j: int| 0 <= j < self.balls@.len() ==> ball_vel_ok(#[trigger] self.balls@[j].vel),
                forall|j: int| 0 <= j < i ==> in_band(#[trigger] self.balls@[j].vel.x as int, self.balls@[j].vel.y as int),
            decreases self.balls@.len() - i,
        {
            let d = dirs[i];
            assert(launch_dir_ok(dirs@[i as int]));
            let mut b = self.balls[i];
            b.vel = at_speed(d.x, d.y, Vec2i { x: 1, y: 0 });
            self.balls.set(i, b);
            i = i + 1;
        }
        proof {
            assert forall|j: int| 0 <= j < self.balls@.len() implies #[trigger] self.balls@[j].id
                == old(self).balls@[j].id by {
                assert(self.balls@[j] == Ball { vel: launch_vel(dirs@[j]), ..old(self).balls@[j] });
            }
            lemma_same_ids(old(self).balls@, self.balls@, self.next_id);
        }
    }

    /// Launches every ball at ball speed in a random direction.
    pub fn launch_ball(&mut self)
        requires
            old(self).wf(),
        ensures
            final(self).wf(),
            final(self).same_but_balls(*old(self)),
            final(self).balls@.len() == old(self).balls@.len(),
            forall|i: int| 0 <= i < final(self).balls@.len() ==> launched_from(
                #[trigger] final(self).balls@[i],
                old(self).balls@[i],
            ),
            forall|i: int| 0 <= i < final(self).balls@.len() ==> in_band(
                #[trigger] final(self).balls@[i].vel.x as int,
                final(self).balls@[i].vel.y as int,
            ),
    {
        let mut dirs: Vec<Vec2i> = Vec::new();
        let mut i: usize = 0;
        while i < self.balls.len()
            invariant
                0 <= i <= self.balls@.len(),
                dirs@.len() == i,
                forall|j: int| 0 <= j < i ==> launch_dir_ok(#[trigger] dirs@[j]),
            decreases self.balls@.len() - i,
        {
            dirs.push(launch_direction());
            i = i + 1;
        }
        self.launch_with(&dirs);
        assert forall|i: int| 0 <= i < self.balls@.len() implies launched_from(
            #[trigger] self.balls@[i],
            old(self).balls@[i],
        ) by {
            assert(launch_dir_ok(dirs@[i]));
            assert(self.balls@[i] == Ball { vel: launch_vel(dirs@[i]), ..old(self).balls@[i] });
        }
    }

    /// Positions, playfield and counters leave a tick room to work without
    /// overflow.
    pub open spec fn tick_ready(&self, half_w: i64, half_h: i64) -> bool {
        &&& self.within_limits()
        &&& 0 <= half_w <= COORD_LIMIT
        &&& 0 <= half_h <= COORD_LIMIT
        &&& self.player_score + self.balls@.len() <= u64::MAX
        &&& self.opponent_score + self.balls@.len() <= u64::MAX
        &&& self.next_id + self.batch <= u64::MAX
    }

    pub fn can_tick(&self, half_w: i64, half_h: i64) -> (r: bool)
        ensures
            r == self.tick_ready(half_w, half_h),
    {
        let mut i: usize = 0;
        while i < self.balls.len()
            invariant
                0 <= i <= self.balls@.len(),
                forall|j: int| 0 <= j < i ==> in_limits(#[trigger] self.balls@[j].pos),
            decreases self.balls@.len() - i,
        {
            let q = self.balls[i].pos;
            if q.x < -COORD_LIMIT || q.x > COORD_LIMIT || q.y < -COORD_LIMIT || q.y > COORD_LIMIT {
                return false;
            }
            i = i + 1;
        }
        let mut k: usize = 0;
        while k < self.paddles.len()
            invariant
                0 <= k <= self.paddles@.len(),
                forall|j: int| 0 <= j < k ==> in_limits(#[trigger] self.paddles@[j].pos),
            decreases self.paddles@.len() - k,
        {
            let q = self.paddles[k].pos;
            if q.x < -COORD_LIMIT || q.x > COORD_LIMIT || q.y < -COORD_LIMIT || q.y > COORD_LIMIT {
                return false;
            }
            k = k + 1;
        }
        let n = self.balls.len() as u64;
        0 <= half_w && half_w <= COORD_LIMIT && 0 <= half_h && half_h <= COORD_LIMIT
            && self.player_score <= u64::MAX - n && self.opponent_score <= u64::MAX - n
            && self.next_id <= u64::MAX - self.batch
    }

    /// One fixed step: controllers, motion, paddle clamp, collisions, scoring,
    /// removal of scored balls, repopulation and launch. Returns who scored.
    pub fn tick(&mut self, input: &TickInput) -> (scored: Vec<ScoreEvent>)
        requires
            old(self).wf(),
            old(self).tick_ready(input.half_width, input.half_height),
        ensures
            final(self).wf(),
            final(self).batch == old(self).batch,
            final(self).paddles@.len() == old(self).paddles@.len(),
            forall|k: int| 0 <= k < final(self).paddles@.len() ==> #[trigger] final(self).paddles@[k]
                == paddle_after(old(self).paddles@[k], old(self).balls@, input.up, input.down, input.half_height as int),
            final(self).player_score == old(self).player_score + count_side(
                goal_events(stepped(old(self).balls@), input.half_width as int),
                Side::Opponent,
            ),
            final(self).opponent_score == old(self).opponent_score + count_side(
                goal_events(stepped(old(self).balls@), input.half_width as int),
                Side::Player,
            ),
            scored@.len() == goal_events(stepped(old(self).balls@), input.half_width as int).len(),
            forall|k: int| 0 <= k < scored@.len() ==> (#[trigger] scored@[k]).winner == other(
                goal_events(stepped(old(self).balls@), input.half_width as int)[k].side,
            ),
            final(self).ball_count == if scored@.len() == old(self).balls@.len() {
                old(self).batch as int
            } else {
                old(self).balls@.len() - scored@.len()
            },
            scored@.len() == old(self).balls@.len() && input.elapsed < old(self).timer.duration
                ==> final(self).balls@ == fresh_balls(old(self).next_id, old(self).batch as nat),
            scored@.len() == old(self).balls@.len() && input.elapsed >= old(self).timer.duration
                ==> {
                &&& final(self).balls@.len() == old(self).batch
                &&& forall|i: int| 0 <= i < old(self).batch ==> launched_from(
                    #[trigger] final(self).balls@[i],
                    fresh_balls(old(self).next_id, old(self).batch as nat)[i],
                )
            },
            scored@.len() < old(self).balls@.len() ==> {
                let survivors = kept(
                    resolved_all(stepped(old(self).balls@), final(self).paddles@, input.half_height as int),
                    goal_events(stepped(old(self).balls@), input.half_width as int),
                );
                let fires = !old(self).timer.finished && old(self).timer.elapsed + input.elapsed
                    >= old(self).timer.duration;
                &&& final(self).balls@.len() == survivors.len()
                &&& !fires ==> final(self).balls@ == survivors
                &&& fires ==> forall|i: int| 0 <= i < survivors.len() ==> launched_from(
                    #[trigger] final(self).balls@[i],
                    survivors[i],
                )
            },
    {
        let ghost w0 = *self;
        self.player_input(input.up, input.down);
        proof {
            assert forall|k: int| 0 <= k < self.paddles@.len() implies in_limits(
                #[trigger] self.paddles@[k].pos) by {
                assert(self.paddles@[k].pos == w0.paddles@[k].pos);
            }
        }
        self.bot_ai();
        let ghost w1 = *self;
        self.update_velocity();
        let ghost w2 = *self;
        proof {
            assert forall|k: int| 0 <= k < self.paddles@.len() implies in_limits(
                #[trigger] self.paddles@[k].pos) || in_reach(self.paddles@[k].pos) by {
                assert(in_limits(w1.paddles@[k].pos) && paddle_vel_ok(w1.paddles@[k].vel));
            }
        }
        self.paddle_boundaries(input.half_height);
        let ghost w3 = *self;
        proof {
            assert(self.balls@ =~= stepped(w0.balls@));
            assert forall|i: int| 0 <= i < self.balls@.len() implies in_reach(
                #[trigger] self.balls@[i].pos) by {
                assert(in_limits(w0.balls@[i].pos) && ball_vel_ok(w0.balls@[i].vel));
            }
            assert forall|k: int| 0 <= k < self.paddles@.len() implies in_reach(
                #[trigger] self.paddles@[k].pos) by {
                assert(in_limits(w1.paddles@[k].pos) && paddle_vel_ok(w1.paddles@[k].vel));
            }
            assert forall|k: int| 0 <= k < self.paddles@.len() implies #[trigger] self.paddles@[k]
                == paddle_after(w0.paddles@[k], w0.balls@, input.up, input.down, input.half_height as int) by {
                assert(w2.paddles@[k] == Paddle { pos: moved(w1.paddles@[k].pos, w1.paddles@[k].vel), ..w1.paddles@[k] });
            }
        }
        let events = self.ball_bounce(input.half_width, input.half_height);
        let ghost w4 = *self;
        proof {
            lemma_goal_accounting(w3.balls@, input.half_width as int, w3.next_id);
        }
        let scored = self.update_score(&events);
        self.remove_off_screen_balls(&events);
        proof {
            assert forall|i: int| 0 <= i < w4.balls@.len() implies (#[trigger] w4.balls@[i]).id == w3.balls@[i].id by {
                assert(w4.balls@[i] == resolved(w3.balls@[i], w3.paddles@, input.half_height as int));
            }
            lemma_kept_len(w4.balls@, w3.balls@, events@);
            assert(w4.balls@ =~= resolved_all(w3.balls@, w3.paddles@, input.half_height as int));
        }
        let ghost w5 = *self;
        let spawned = self.spawn_ball();
        let ghost w6 = *self;
        if self.timer.tick(input.elapsed) {
            self.launch_ball();
        }
        proof {
            if !spawned {
                assert(w6.balls@ == w5.balls@);
            }
        }
        scored
    }

    /// Everything but the balls is as in `o`.
    pub open spec fn same_but_balls(&self, o: World) -> bool {
        &&& self.paddles == o.paddles
        &&& self.ball_count == o.ball_count
        &&& self.next_id == o.next_id
        &&& self.player_score == o.player_score
        &&& self.opponent_score == o.opponent_score
        &&& self.timer == o.timer
        &&& self.batch == o.batch
    }

    /// Everything but the paddles is as in `o`.
    pub open spec fn same_but_paddles(&self, o: World) -> bool {
        &&& self.balls == o.balls
        &&& self.ball_count == o.ball_count
        &&& self.next_id == o.next_id
        &&& self.player_score == o.player_score
        &&& self.opponent_score == o.opponent_score
        &&& self.timer == o.timer
        &&& self.batch == o.batch
    }
}

} // verus!
