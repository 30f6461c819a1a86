use car_game::{
    car_label, handle_collision, high_score_line, move_player, reset_score, run_frame, score_line,
    spawn_car, start_world, update, CollisionEvent, CollisionState, FrameInput, GameState, Keys,
    SpawnError, SpawnTimer, Sprite, World,
};

fn no_keys() -> Keys {
    Keys { up: false, down: false, left: false, right: false, reset: false }
}

fn begin(a: &str, b: &str) -> CollisionEvent {
    CollisionEvent { state: CollisionState::Begin, first: a.to_string(), second: b.to_string() }
}

fn has(w: &World, label: &str) -> bool {
    w.sprites.iter().any(|s| s.label == label)
}

fn player_pos(w: &World) -> (i64, i64) {
    let p = w.sprites.iter().find(|s| s.label == "player").unwrap();
    (p.x, p.y)
}

fn state_with(score: u32, high_score: u32) -> GameState {
    let mut s = GameState::new(high_score);
    s.score = score;
    s
}

fn frame(delta: u64, keys: Keys, click: Option<(i64, i64)>, events: Vec<CollisionEvent>) -> FrameInput {
    FrameInput { delta, keys, click, events }
}

#[test]
fn labels_are_written_in_decimal() {
    assert_eq!(car_label(0), "car0");
    assert_eq!(car_label(12), "car12");
    assert_eq!(car_label(4294967295), "car4294967295");
    assert_eq!(score_line(0), "Score: 0");
    assert_eq!(score_line(105), "Score: 105");
    assert_eq!(high_score_line(3), "High score: 3");
}

#[test]
fn default_state_seeds_high_score() {
    let s = GameState::default();
    assert_eq!(s.high_score, 2);
    assert_eq!(s.score, 0);
    assert_eq!(s.car_index, 0);
    assert_eq!(s.spawn_timer.period, 2_000_000);
    assert_eq!(s.spawn_timer.elapsed, 0);
}

#[test]
fn start_world_shows_state() {
    let s = GameState::default();
    let w = start_world(&s);
    assert_eq!(w.sprites.len(), 2);
    assert_eq!(player_pos(&w), (-300_000_000, 0));
    assert!(has(&w, "firstCar"));
    assert_eq!(w.score_text, "Score: 0");
    assert_eq!(w.high_score_text, "High score: 2");
}

#[test]
fn scoring_collision_below_high_score() {
    let mut s = state_with(0, 2);
    let mut w = start_world(&s);
    let scored = handle_collision(&mut w, &mut s, &begin("firstCar", "player"));
    assert!(scored);
    assert_eq!(s.score, 1);
    assert_eq!(s.high_score, 2);
    assert_eq!(w.score_text, "Score: 1");
    assert_eq!(w.high_score_text, "High score: 2");
    assert!(!has(&w, "firstCar"));
    assert!(has(&w, "player"));
    assert_eq!(w.sprites.len(), 1);
}

#[test]
fn score_passing_high_score_raises_it_in_same_frame() {
    let mut s = state_with(2, 2);
    let mut w = start_world(&s);
    let effects = update(&mut w, &mut s, &frame(0, no_keys(), None, vec![begin("player", "firstCar")]), (0, 0));
    assert_eq!(effects.impacts, 1);
    assert_eq!(s.score, 3);
    assert_eq!(s.high_score, 3);
    assert_eq!(w.score_text, "Score: 3");
    assert_eq!(w.high_score_text, "High score: 3");
}

#[test]
fn reset_keeps_high_score() {
    let mut s = state_with(5, 5);
    let mut w = start_world(&s);
    reset_score(&mut w, &mut s);
    assert_eq!(s.score, 0);
    assert_eq!(w.score_text, "Score: 0");
    assert_eq!(s.high_score, 5);
    assert_eq!(w.high_score_text, "High score: 5");
}

#[test]
fn reset_key_in_a_frame() {
    let mut s = state_with(5, 5);
    let mut w = start_world(&s);
    let mut keys = no_keys();
    keys.reset = true;
    update(&mut w, &mut s, &frame(1000, keys, None, vec![]), (0, 0));
    assert_eq!(s.score, 0);
    assert_eq!(w.score_text, "Score: 0");
    assert_eq!(s.high_score, 5);
}

#[test]
fn timer_fires_on_fourth_half_second() {
    let mut t = SpawnTimer::new(2_000_000);
    assert_eq!(t.tick(500_000), 0);
    assert_eq!(t.tick(500_000), 0);
    assert_eq!(t.tick(500_000), 0);
    let fired = t.tick(500_000);
    assert_eq!(fired, 1);
    assert!(SpawnTimer::just_finished(fired));
    assert_eq!(t.elapsed, 0);
    assert_eq!(t.tick(500_000), 0);
    assert_eq!(t.elapsed, 500_000);
}

#[test]
fn timer_carries_over_and_counts_several_periods() {
    let mut t = SpawnTimer::new(2_000_000);
    assert_eq!(t.tick(1_500_000), 0);
    assert_eq!(t.tick(5_000_000), 3);
    assert_eq!(t.elapsed, 500_000);
    assert!(!SpawnTimer::just_finished(0));
}

#[test]
fn timed_spawn_in_fourth_frame() {
    let mut s = GameState::default();
    let mut w = start_world(&s);
    for _ in 0..3 {
        update(&mut w, &mut s, &frame(500_000, no_keys(), None, vec![]), (7, 9));
        assert_eq!(s.car_index, 0);
        assert_eq!(w.sprites.len(), 2);
    }
    update(&mut w, &mut s, &frame(500_000, no_keys(), None, vec![]), (7, 9));
    assert_eq!(s.car_index, 1);
    assert_eq!(s.spawn_timer.elapsed, 0);
    let car = w.sprites.iter().find(|c| c.label == "car0").unwrap();
    assert_eq!((car.x, car.y), (7, 9));
    assert_eq!(car.scale_percent, 50);
    assert!(car.collision);
}

#[test]
fn keys_add_up_and_no_keys_freeze() {
    let s = GameState::default();
    let mut w = start_world(&s);
    let mut keys = no_keys();
    keys.up = true;
    keys.right = true;
    move_player(&mut w, keys, 500_000);
    assert_eq!(player_pos(&w), (-300_000_000 + 50_000_000, 50_000_000));
    let mut both = no_keys();
    both.up = true;
    both.down = true;
    both.left = true;
    move_player(&mut w, both, 1_000_000);
    assert_eq!(player_pos(&w), (-300_000_000 + 50_000_000 - 100_000_000, 50_000_000));
    let before = player_pos(&w);
    move_player(&mut w, no_keys(), 3_000_000);
    assert_eq!(player_pos(&w), before);
}

#[test]
fn other_collisions_are_ignored() {
    let mut s = GameState::default();
    let mut w = start_world(&s);
    let end = CollisionEvent { state: CollisionState::End, first: "player".to_string(), second: "firstCar".to_string() };
    assert!(!handle_collision(&mut w, &mut s, &end));
    assert!(!handle_collision(&mut w, &mut s, &begin("firstCar", "car3")));
    assert!(!handle_collision(&mut w, &mut s, &begin("player1", "firstCar")));
    assert_eq!(s.score, 0);
    assert_eq!(w.sprites.len(), 2);
    assert_eq!(w.score_text, "Score: 0");
}

#[test]
fn collision_with_missing_obstacle_still_scores() {
    let mut s = GameState::default();
    let mut w = start_world(&s);
    let effects = update(
        &mut w,
        &mut s,
        &frame(0, no_keys(), None, vec![begin("firstCar", "player"), begin("player", "firstCar")]),
        (0, 0),
    );
    assert_eq!(effects.impacts, 2);
    assert_eq!(s.score, 2);
    assert_eq!(s.high_score, 2);
    assert!(has(&w, "player"));
    assert_eq!(w.sprites.len(), 1);
}

#[test]
fn click_spawns_with_fresh_labels() {
    let mut s = GameState::default();
    let mut w = start_world(&s);
    update(&mut w, &mut s, &frame(0, no_keys(), Some((10, -20)), vec![]), (0, 0));
    update(&mut w, &mut s, &frame(0, no_keys(), Some((30, 40)), vec![]), (0, 0));
    assert_eq!(s.car_index, 2);
    let c0 = w.sprites.iter().find(|c| c.label == "car0").unwrap();
    assert_eq!((c0.x, c0.y), (10, -20));
    let c1 = w.sprites.iter().find(|c| c.label == "car1").unwrap();
    assert_eq!((c1.x, c1.y), (30, 40));
}

#[test]
fn adding_a_taken_label_is_refused() {
    let s = GameState::default();
    let mut w = start_world(&s);
    let car = Sprite { label: "firstCar".to_string(), x: 5, y: 5, scale_percent: 50, collision: true };
    assert_eq!(w.add_sprite(car), Err(SpawnError::DuplicateLabel));
    assert_eq!(w.sprites.len(), 2);
    let first = w.sprites.iter().find(|c| c.label == "firstCar").unwrap();
    assert_eq!((first.x, first.y), (0, 0));
    let fresh = Sprite { label: "car7".to_string(), x: 5, y: 6, scale_percent: 50, collision: true };
    assert_eq!(w.add_sprite(fresh), Ok(()));
    assert_eq!(w.sprites.len(), 3);
}

#[test]
fn spawn_uses_and_advances_the_index() {
    let mut s = GameState::default();
    let mut w = start_world(&s);
    spawn_car(&mut w, &mut s, 1, 2);
    spawn_car(&mut w, &mut s, 3, 4);
    assert_eq!(s.car_index, 2);
    assert_eq!(w.sprites.len(), 4);
    assert_eq!(w.sprites[2].label, "car0");
    assert_eq!((w.sprites[2].x, w.sprites[2].y), (1, 2));
    assert_eq!(w.sprites[3].label, "car1");
    assert_eq!(w.sprites[3].scale_percent, 50);
}

#[test]
fn removing_a_missing_sprite_does_nothing() {
    let s = GameState::default();
    let mut w = start_world(&s);
    assert!(w.remove_sprite(&"car9".to_string()).is_none());
    assert_eq!(w.sprites.len(), 2);
    let removed = w.remove_sprite(&"firstCar".to_string()).unwrap();
    assert_eq!(removed.label, "firstCar");
    assert_eq!(w.find(&"player".to_string()), Some(0));
    assert_eq!(w.find(&"firstCar".to_string()), None);
}

#[test]
fn random_spawns_land_on_the_field() {
    let mut s = GameState::default();
    let mut w = start_world(&s);
    for _ in 0..20 {
        run_frame(&mut w, &mut s, &frame(2_000_000, no_keys(), None, vec![]));
    }
    assert_eq!(s.car_index, 20);
    let cars: Vec<_> = w.sprites.iter().filter(|c| c.label.starts_with("car")).collect();
    assert_eq!(cars.len(), 20);
    for c in &cars {
        assert!(c.x >= -550_000_000 && c.x < 550_000_000);
        assert!(c.y >= -320_000_000 && c.y < 320_000_000);
    }
    assert!(cars.iter().any(|c| c.x != -550_000_000));
    assert!(cars.iter().any(|c| c.y != -320_000_000));
}

