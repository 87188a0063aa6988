use pong::controls::{clamp_paddle, player_speed, tracking_speed};
use pong::geometry::{at_speed, ceil_sqrt, Vec2i, BALL_SPEED, PADDLE_SPEED};
use pong::timer::LaunchTimer;
use pong::world::{
    display_value, launch_direction, nearest_ball, Ball, Control, GoalEvent, Side, TickInput,
    World, BALLS_AMOUNT,
};

const HALF_W: i64 = 640_000;
const HALF_H: i64 = 400_000;
const XY_DIAG: i64 = 9_899;

fn v(x: i64, y: i64) -> Vec2i {
    Vec2i { x, y }
}

fn with_balls(balls: &[(Vec2i, Vec2i)]) -> World {
    let mut w = World::new(HALF_W, 10, 1_000_000);
    for (i, (p, q)) in balls.iter().enumerate() {
        w.balls.push(Ball { id: i as u64, pos: *p, vel: *q });
    }
    w.ball_count = balls.len() as u64;
    w.next_id = balls.len() as u64;
    w
}

fn speed_sq(q: Vec2i) -> i64 {
    q.x * q.x + q.y * q.y
}

fn input(elapsed: u64) -> TickInput {
    TickInput { up: false, down: false, elapsed, half_width: HALF_W, half_height: HALF_H }
}

#[test]
fn ceil_sqrt_values() {
    assert_eq!(ceil_sqrt(1), 1);
    assert_eq!(ceil_sqrt(2), 2);
    assert_eq!(ceil_sqrt(4), 2);
    assert_eq!(ceil_sqrt(5), 3);
    assert_eq!(ceil_sqrt(16), 4);
    assert_eq!(ceil_sqrt(17), 5);
    assert_eq!(ceil_sqrt(1_000_000_000_000), 1_000_000);
}

#[test]
fn at_speed_scales_direction() {
    assert_eq!(at_speed(3, 4, v(1, 0)), v(8_400, 11_200));
    assert_eq!(at_speed(-3, -4, v(1, 0)), v(-8_400, -11_200));
    assert_eq!(at_speed(0, 7, v(1, 0)), v(0, BALL_SPEED));
    assert_eq!(at_speed(0, 0, v(-1, 0)), v(-BALL_SPEED, 0));
    let r = at_speed(1000, -333, v(1, 0));
    assert!(speed_sq(r) <= BALL_SPEED * BALL_SPEED);
    assert!(speed_sq(r) >= (BALL_SPEED - 2) * (BALL_SPEED - 2));
}

#[test]
fn player_keys_down_wins() {
    assert_eq!(player_speed(true, false), PADDLE_SPEED);
    assert_eq!(player_speed(false, true), -PADDLE_SPEED);
    assert_eq!(player_speed(true, true), -PADDLE_SPEED);
    assert_eq!(player_speed(false, false), 0);
}

#[test]
fn integration_is_linear() {
    let mut w = with_balls(&[(v(1_000, -2_000), v(700, -300))]);
    for _ in 0..25 {
        w.update_velocity();
    }
    assert_eq!(w.balls[0].pos, v(1_000 + 25 * 700, -2_000 - 25 * 300));
    assert_eq!(w.balls[0].vel, v(700, -300));
}

#[test]
fn wall_bounce_flips_vertical_velocity() {
    let mut w = with_balls(&[(v(0, HALF_H - 4_000), v(2_000, 9_000))]);
    let events = w.ball_bounce(HALF_W, HALF_H);
    assert!(events.is_empty());
    assert_eq!(w.balls[0].vel, v(2_000, -9_000));
    let mut w = with_balls(&[(v(0, -HALF_H + 4_000), v(0, -9_000))]);
    w.ball_bounce(HALF_W, HALF_H);
    assert_eq!(w.balls[0].vel, v(0, 9_000));
}

#[test]
fn paddle_bounce_heads_away_from_paddle_centre() {
    let left = w_left_paddle_x();
    let mut w = with_balls(&[(v(left + 3_000, 4_000), v(-BALL_SPEED, 0))]);
    w.ball_bounce(HALF_W, HALF_H);
    assert_eq!(w.balls[0].vel, v(8_400, 11_200));
    assert_eq!(speed_sq(w.balls[0].vel), BALL_SPEED * BALL_SPEED);
    let mut w = with_balls(&[(v(left + 10_000, -250_000), v(-5_000, 1_000))]);
    w.ball_bounce(HALF_W, HALF_H);
    let q = w.balls[0].vel;
    assert!(q.x > 0 && q.y < 0);
    assert!(speed_sq(q) <= BALL_SPEED * BALL_SPEED);
    assert!(speed_sq(q) >= (BALL_SPEED - 2) * (BALL_SPEED - 2));
}

fn w_left_paddle_x() -> i64 {
    -HALF_W + 50_000
}

#[test]
fn ball_on_paddle_centre_is_sent_away() {
    let right = HALF_W - 50_000;
    let mut w = with_balls(&[(v(right, 0), v(BALL_SPEED, 0))]);
    w.ball_bounce(HALF_W, HALF_H);
    assert_eq!(w.balls[0].vel, v(-BALL_SPEED, 0));
}

#[test]
fn left_goal_scores_for_opponent() {
    let mut w = with_balls(&[(v(-HALF_W - 1_000, 0), v(-BALL_SPEED, 0)), (v(0, 0), v(0, 0))]);
    let scored = w.tick(&input(1));
    assert_eq!(scored.len(), 1);
    assert_eq!(scored[0].winner, Side::Opponent);
    assert_eq!(w.score(Side::Opponent), 1);
    assert_eq!(w.score(Side::Player), 0);
    assert_eq!(w.ball_count, 1);
    assert_eq!(w.balls.len(), 1);
    assert_eq!(w.balls[0].id, 1);
}

#[test]
fn goal_event_names_ball_and_side() {
    let mut w = with_balls(&[(v(HALF_W, 0), v(0, 0)), (v(-HALF_W, 0), v(0, 0))]);
    let events = w.ball_bounce(HALF_W, HALF_H);
    assert_eq!(
        events,
        vec![GoalEvent { ball: 0, side: Side::Opponent }, GoalEvent { ball: 1, side: Side::Player }]
    );
    let scored = w.update_score(&events);
    assert_eq!(scored[0].winner, Side::Player);
    assert_eq!(scored[1].winner, Side::Opponent);
    w.remove_off_screen_balls(&events);
    assert!(w.balls.is_empty());
    assert_eq!(w.ball_count, 0);
}

#[test]
fn removing_unknown_ball_changes_nothing() {
    let mut w = with_balls(&[(v(0, 0), v(0, 0))]);
    w.remove_off_screen_balls(&vec![GoalEvent { ball: 99, side: Side::Player }]);
    assert_eq!(w.ball_count, 1);
    assert_eq!(w.balls[0].id, 0);
}

#[test]
fn repopulate_then_launch() {
    let mut w = World::new(HALF_W, 10, 1_000_000);
    w.tick(&input(16_667));
    assert_eq!(w.ball_count, 10);
    assert_eq!(w.balls.len(), 10);
    assert!(w.balls.iter().all(|b| b.vel == v(0, 0) && b.pos == v(0, 0)));
    let mut ticks = 0;
    while w.balls.iter().all(|b| b.vel == v(0, 0)) {
        w.tick(&input(16_667));
        ticks += 1;
        assert!(ticks < 100);
    }
    assert_eq!(ticks, 59);
    for b in w.balls.iter() {
        assert_ne!(b.vel, v(0, 0));
        assert!(speed_sq(b.vel) <= BALL_SPEED * BALL_SPEED);
        assert!(speed_sq(b.vel) >= (BALL_SPEED - 2) * (BALL_SPEED - 2));
    }
}

#[test]
fn standard_world_spawns_full_batch() {
    let mut w = World::standard(HALF_W);
    assert!(w.should_spawn_balls());
    assert!(w.spawn_ball());
    assert_eq!(w.ball_count, BALLS_AMOUNT);
    assert_eq!(w.balls.len() as u64, BALLS_AMOUNT);
    assert!(!w.should_spawn_balls());
    assert!(!w.spawn_ball());
}

#[test]
fn launch_draws_vary_within_range() {
    let mut first = None;
    let mut varied = false;
    for _ in 0..200 {
        let d = launch_direction();
        assert!(-1_000_000 <= d.x && d.x <= 1_000_000);
        assert!(-500_000 <= d.y && d.y <= 500_000);
        match first {
            None => first = Some(d),
            Some(f) => varied |= f != d,
        }
    }
    assert!(varied);
}

#[test]
fn launch_with_given_directions() {
    let mut w = with_balls(&[(v(0, 0), v(0, 0)), (v(5, 5), v(0, 0))]);
    w.launch_with(&vec![v(600, 800), v(0, 0)]);
    assert_eq!(w.balls[0].vel, v(8_400, 11_200));
    assert_eq!(w.balls[1].vel, v(BALL_SPEED, 0));
    assert_eq!(w.balls[1].pos, v(5, 5));
}

#[test]
fn bot_tracks_single_ball() {
    let bot_x = HALF_W - 50_000;
    let mut w = with_balls(&[(v(bot_x, 25_000), v(0, 0))]);
    w.bot_ai();
    assert_eq!(w.paddles[1].control, Control::Bot);
    assert_eq!(w.paddles[1].vel, v(0, 10_000));
    let mut w = with_balls(&[(v(bot_x, 3_000), v(0, 0))]);
    w.bot_ai();
    assert_eq!(w.paddles[1].vel, v(0, 3_000));
    let mut w = with_balls(&[(v(bot_x, -40_000), v(0, 0))]);
    w.bot_ai();
    assert_eq!(w.paddles[1].vel, v(0, -10_000));
    assert_eq!(w.paddles[0].vel, v(0, 0));
}

#[test]
fn bot_without_balls_keeps_velocity() {
    let mut w = World::new(HALF_W, 10, 1_000_000);
    w.paddles[1].vel = v(0, 7);
    w.bot_ai();
    assert_eq!(w.paddles[1].vel, v(0, 7));
}

#[test]
fn nearest_ball_prefers_first_on_tie() {
    let balls = vec![
        Ball { id: 0, pos: v(0, 10), vel: v(0, 0) },
        Ball { id: 1, pos: v(0, -10), vel: v(0, 0) },
        Ball { id: 2, pos: v(0, 50), vel: v(0, 0) },
    ];
    assert_eq!(nearest_ball(&balls, v(0, 0)), Some(0));
    assert_eq!(nearest_ball(&balls, v(0, 40)), Some(2));
    assert_eq!(nearest_ball(&Vec::new(), v(0, 0)), None);
}

#[test]
fn tracking_caps_speed() {
    assert_eq!(tracking_speed(25_000), 10_000);
    assert_eq!(tracking_speed(-25_000), -10_000);
    assert_eq!(tracking_speed(9_999), 9_999);
    assert_eq!(tracking_speed(0), 0);
}

#[test]
fn paddle_clamp_is_flush() {
    let half_h = 500_000;
    assert_eq!(clamp_paddle(200_000, half_h), 100_000);
    assert_eq!(clamp_paddle(-150_000, half_h), -100_000);
    assert_eq!(clamp_paddle(50_000, half_h), 50_000);
}

#[test]
fn full_height_paddle_clamps_to_centre() {
    for y in [-30_000, -1, 0, 1, 10_000, 400_000] {
        assert_eq!(clamp_paddle(y, 400_000), 0);
    }
    let mut w = World::new(HALF_W, 10, 1_000_000);
    let mut i = TickInput { up: true, down: false, elapsed: 1, half_width: HALF_W, half_height: 400_000 };
    w.tick(&i);
    assert_eq!(w.paddles[0].vel, v(0, PADDLE_SPEED));
    assert_eq!(w.paddles[0].pos.y, 0);
    i.up = false;
    i.down = true;
    w.tick(&i);
    assert_eq!(w.paddles[0].pos.y, 0);
}

#[test]
fn launch_timer_fires_once() {
    let mut t = LaunchTimer::new(100);
    assert!(!t.tick(60));
    assert!(t.tick(60));
    assert_eq!(t.elapsed, 100);
    assert!(!t.tick(60));
    t.reset();
    assert_eq!(t.elapsed, 0);
    assert!(t.tick(100));
}

#[test]
fn display_value_falls_back_to_zero() {
    assert_eq!(display_value(0), 0);
    assert_eq!(display_value(32_767), 32_767);
    assert_eq!(display_value(32_768), 0);
}

#[test]
fn can_tick_checks_limits() {
    let w = World::new(HALF_W, 10, 1_000_000);
    assert!(w.can_tick(HALF_W, HALF_H));
    assert!(!w.can_tick(-1, HALF_H));
    let w = with_balls(&[(v(0x100_0000_0001, 0), v(0, 0))]);
    assert!(!w.can_tick(HALF_W, HALF_H));
}

#[test]
fn short_offset_bounce_keeps_speed() {
    let left = w_left_paddle_x();
    let mut w = with_balls(&[(v(left + 1, 1), v(-BALL_SPEED, 0))]);
    w.ball_bounce(HALF_W, HALF_H);
    let q = w.balls[0].vel;
    assert_eq!(q, v(XY_DIAG, XY_DIAG));
    assert!(speed_sq(q) <= BALL_SPEED * BALL_SPEED);
    assert!(speed_sq(q) >= (BALL_SPEED - 2) * (BALL_SPEED - 2));
}

#[test]
fn short_launch_draw_keeps_speed() {
    let mut w = with_balls(&[(v(0, 0), v(0, 0)), (v(0, 0), v(0, 0))]);
    w.launch_with(&vec![v(1, 1), v(-1, 0)]);
    assert_eq!(w.balls[0].vel, v(XY_DIAG, XY_DIAG));
    assert_eq!(w.balls[1].vel, v(-BALL_SPEED, 0));
    for b in w.balls.iter() {
        assert!(speed_sq(b.vel) >= (BALL_SPEED - 2) * (BALL_SPEED - 2));
        assert!(speed_sq(b.vel) <= BALL_SPEED * BALL_SPEED);
    }
}

#[test]
fn standard_world_layout() {
    let w = World::standard(HALF_W);
    assert_eq!(w.paddles.len(), 2);
    assert_eq!(w.paddles[0].control, Control::Player);
    assert_eq!(w.paddles[0].pos, v(-HALF_W + 50_000, 0));
    assert_eq!(w.paddles[1].control, Control::Bot);
    assert_eq!(w.paddles[1].pos, v(HALF_W - 50_000, 0));
    assert_eq!(w.next_id, 0);
    assert_eq!(w.timer.elapsed, 0);
    assert!(!w.timer.finished);
    assert_eq!(w.timer.duration, 10_000_000);
}

#[test]
fn spawn_and_launch_in_one_tick() {
    let mut w = World::new(HALF_W, 5, 1_000);
    w.tick(&input(2_000));
    assert_eq!(w.ball_count, 5);
    for b in w.balls.iter() {
        assert_eq!(b.pos, v(0, 0));
        assert!(speed_sq(b.vel) >= (BALL_SPEED - 2) * (BALL_SPEED - 2));
    }
}
