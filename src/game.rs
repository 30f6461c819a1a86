use vstd::prelude::*;
use crate::labels::{
    car_label, car_label_of, high_score_line, high_score_line_of, lemma_car_labels_distinct, score_line,
    score_line_of,
};
use crate::timer::SpawnTimer;
use crate::world::{
    has_label, labels_unique, lemma_push, lemma_remove, lemma_sprite_of, player_label, sprite_of,
    Sprite, World,
};

verus! {

/// How far the player moves per microsecond a direction key is held, in
/// micro-units: 100 units per second.
pub const MOVEMENT_SPEED: i64 = 100;

/// Period of the timed spawner in microseconds: two seconds.
pub const SPAWN_PERIOD: u64 = 2000000;

/// Half the width of the field where timed obstacles appear, in micro-units.
pub const FIELD_HALF_WIDTH: i64 = 550000000;

/// Half the height of the field where timed obstacles appear, in micro-units.
pub const FIELD_HALF_HEIGHT: i64 = 320000000;

/// Scale of every obstacle, in percent.
pub const CAR_SCALE_PERCENT: u32 = 50;

/// What the game keeps from one frame to the next.
pub struct GameState {
    pub high_score: u32,
    pub score: u32,
    /// Index of the next obstacle; it names it and is never used twice.
    pub car_index: u32,
    pub spawn_timer: SpawnTimer,
}

impl GameState {
    /// A game about to start with the given high score.
    pub fn new(high_score: u32) -> (r: GameState)
        ensures
            r.high_score == high_score,
            r.score == 0,
            r.car_index == 0,
            r.spawn_timer.period == SPAWN_PERIOD,
            r.spawn_timer.elapsed == 0,
            r.spawn_timer.wf(),
    {
        GameState { high_score, score: 0, car_index: 0, spawn_timer: SpawnTimer::new(SPAWN_PERIOD) }
    }
}

impl Default for GameState {
    fn default() -> (r: GameState)
        ensures
            r.high_score == 2,
            r.score == 0,
            r.car_index == 0,
            r.spawn_timer.period == SPAWN_PERIOD,
            r.spawn_timer.elapsed == 0,
    {
        GameState::new(2)
    }
}

/// Whether two sprites start or stop touching.
#[derive(Debug, Clone, Copy, PartialEq, Eq, Structural)]
pub enum CollisionState {
    Begin,
    End,
}

/// Two sprites, by label, that started or stopped touching.
pub struct CollisionEvent {
    pub state: CollisionState,
    pub first: String,
    pub second: String,
}

/// The keys held during a frame.
#[derive(Debug, Clone, Copy, PartialEq, Eq, Structural)]
pub struct Keys {
    pub up: bool,
    pub down: bool,
    pub left: bool,
    pub right: bool,
    pub reset: bool,
}

/// What happened since the last frame.
pub struct FrameInput {
    /// Time elapsed since the last frame, in microseconds.
    pub delta: u64,
    pub keys: Keys,
    /// Where the primary button was just pressed, if it was.
    pub click: Option<(i64, i64)>,
    pub events: Vec<CollisionEvent>,
}

/// What the frame asks of the engine besides the world it changed.
pub struct FrameEffects {
    /// How many impact sounds to play.
    pub impacts: u32,
}

/// The texts of the world show the state, the score does not exceed the high
/// score, the world and the timer are well formed, and every obstacle on the
/// field was named by an index below the next one.
pub open spec fn consistent(w: World, s: GameState) -> bool {
    &&& w.wf()
    &&& s.spawn_timer.wf()
    &&& s.score <= s.high_score
    &&& w.score_text@ == score_line_of(s.score as nat)
    &&& w.high_score_text@ == high_score_line_of(s.high_score as nat)
    &&& forall|k: nat| #[trigger] w.has(car_label_of(k)) ==> k < s.car_index
}

/// A collision that scores: it begins, and the player takes part.
pub open spec fn is_scoring(e: CollisionEvent) -> bool {
    e.state == CollisionState::Begin && (e.first@ == player_label() || e.second@ == player_label())
}

/// The sprite labelled `l` is the obstacle of event `e`.
pub open spec fn is_obstacle_of(e: CollisionEvent, l: Seq<char>) -> bool {
    l != player_label() && (e.first@ == l || e.second@ == l)
}

/// How many of `es` score.
pub open spec fn count_scoring(es: Seq<CollisionEvent>) -> nat
    decreases es.len(),
{
    if es.len() == 0 {
        0
    } else {
        count_scoring(es.drop_last()) + if is_scoring(es.last()) {
            1nat
        } else {
            0nat
        }
    }
}

/// Whether a scoring event of `es` destroys the sprite labelled `l`.
pub open spec fn destroyed_by(es: Seq<CollisionEvent>, l: Seq<char>) -> bool
    decreases es.len(),
{
    if es.len() == 0 {
        false
    } else {
        destroyed_by(es.drop_last(), l) || (is_scoring(es.last()) && is_obstacle_of(es.last(), l))
    }
}

/// The player's moves along x and y while `keys` are held for `delta`
/// microseconds: each held key adds its direction, scaled by time.
pub open spec fn displacement(keys: Keys, delta: nat) -> (int, int) {
    let unit = MOVEMENT_SPEED * delta;
    let dx = (if keys.right { unit } else { 0 }) - (if keys.left { unit } else { 0 });
    let dy = (if keys.up { unit } else { 0 }) - (if keys.down { unit } else { 0 });
    (dx, dy)
}

/// The larger of two numbers.
pub open spec fn max_of(a: int, b: int) -> int {
    if a >= b { a } else { b }
}

/// How many obstacles a frame spawns: one for a click, one when the timer fires.
pub open spec fn spawn_count(s: GameState, input: FrameInput) -> nat {
    (if input.click is Some { 1nat } else { 0nat }) + (if s.spawn_timer.fires_on(input.delta as nat)
        > 0 {
        1nat
    } else {
        0nat
    })
}

/// The labels a frame gives to the obstacles it spawns.
pub open spec fn spawned_label(s: GameState, input: FrameInput, l: Seq<char>) -> bool {
    (spawn_count(s, input) >= 1 && l == car_label_of(s.car_index as nat)) || (spawn_count(s, input) >= 2
        && l == car_label_of((s.car_index + 1) as nat))
}

/// With no direction key held the player does not move, however long the
/// frame.
pub proof fn lemma_no_keys_no_move(keys: Keys, delta: nat)
    requires
        !keys.up && !keys.down && !keys.left && !keys.right,
    ensures
        displacement(keys, delta) == (0int, 0int),
{
}

/// The sprite labelled `l` is on the field, at `(x, y)`, at obstacle scale
/// and colliding.
pub open spec fn spawned_at(w: World, l: Seq<char>, x: i64, y: i64) -> bool {
    let sp = sprite_of(w.sprites@, l);
    w.has(l) && sp.x == x && sp.y == y && sp.scale_percent == CAR_SCALE_PERCENT && sp.collision
}

proof fn lemma_car_label_not_player(n: nat)
    ensures
        car_label_of(n) != player_label(),
{
    assert(car_label_of(n)[0] == 'c');
    assert(player_label()[0] == 'p');
}

fn player_name() -> (r: String)
    ensures
        r@ == player_label(),
{
    proof {
        reveal_strlit("player");
    }
    String::from_str("player")
}

/// Relies on rand's `Rng::gen_range` over `thread_rng`: a value of `[lo, hi)`,
/// drawn at random.
#[verifier::external_body]
fn random_between(lo: i64, hi: i64) -> (r: i64)
    requires
        lo < hi,
    ensures
        lo <= r < hi,
{
    rand::Rng::gen_range(&mut rand::thread_rng(), lo..hi)
}

/// Handles one collision event: a scoring one destroys the obstacle, counts a
/// point and raises the high score to the score where it passes it; any other
/// event changes nothing.
pub fn handle_collision(world: &mut World, state: &mut GameState, event: &CollisionEvent) -> (scored: bool)
    requires
        consistent(*old(world), *old(state)),
        old(state).score < u32::MAX,
    ensures
        consistent(*final(world), *final(state)),
        scored == is_scoring(*event),
        final(state).score == old(state).score + if scored { 1int } else { 0int },
        final(state).high_score == max_of(old(state).high_score as int, final(state).score as int),
        final(state).car_index == old(state).car_index,
        final(state).spawn_timer == old(state).spawn_timer,
        forall|l: Seq<char>| #[trigger] final(world).has(l) <==> old(world).has(l) && !(scored && is_obstacle_of(*event, l)),
        forall|l: Seq<char>|
            final(world).has(l) ==> #[trigger] sprite_of(final(world).sprites@, l) == sprite_of(old(world).sprites@, l),
        final(world).player() == old(world).player(),
{
    let player = player_name();
    let scored = event.state == CollisionState::Begin && (event.first.eq(&player) || event.second.eq(&player));
    if !scored {
        return false;
    }
    if !event.first.eq(&player) {
        let ghost s0 = world.sprites@;
        let removed = world.remove_sprite(&event.first);
        proof {
            if let Some(sp) = removed {
                let i = choose|i: int|
                    0 <= i < s0.len() && s0[i] == sp && sp.label@ == event.first@ && world.sprites@ == s0.remove(i);
                lemma_remove(s0, i);
            }
        }
    }
    if !event.second.eq(&player) {
        let ghost s1 = world.sprites@;
        let removed = world.remove_sprite(&event.second);
        proof {
            if let Some(sp) = removed {
                let i = choose|i: int|
                    0 <= i < s1.len() && s1[i] == sp && sp.label@ == event.second@ && world.sprites@ == s1.remove(i);
                lemma_remove(s1, i);
            }
        }
    }
    state.score = state.score + 1;
    world.score_text = score_line(state.score);
    if state.score > state.high_score {
        state.high_score = state.score;
        world.high_score_text = high_score_line(state.high_score);
    }
    proof {
        assert forall|k: nat| #[trigger] world.has(car_label_of(k)) implies k < state.car_index by {
            assert(old(world).has(car_label_of(k)));
        }
    }
    true
}

/// Moves the player by what the held keys ask for; with no key held it stays.
pub fn move_player(world: &mut World, keys: Keys, delta: u64)
    requires
        old(world).wf(),
        MOVEMENT_SPEED * delta <= i64::MAX,
        i64::MIN <= old(world).player().x + displacement(keys, delta as nat).0 <= i64::MAX,
        i64::MIN <= old(world).player().y + displacement(keys, delta as nat).1 <= i64::MAX,
    ensures
        final(world).wf(),
        final(world).player().x == old(world).player().x + displacement(keys, delta as nat).0,
        final(world).player().y == old(world).player().y + displacement(keys, delta as nat).1,
        final(world).player().label == old(world).player().label,
        final(world).player().scale_percent == old(world).player().scale_percent,
        final(world).player().collision == old(world).player().collision,
        forall|l: Seq<char>| #[trigger] final(world).has(l) <==> old(world).has(l),
        forall|l: Seq<char>|
            l != player_label() && old(world).has(l) ==> #[trigger] sprite_of(final(world).sprites@, l)
                == sprite_of(old(world).sprites@, l),
        final(world).score_text == old(world).score_text,
        final(world).high_score_text == old(world).high_score_text,
{
    let player = player_name();
    let i = match world.find(&player) {
        Some(i) => i,
        None => {
            return;
        },
    };
    let ghost s0 = world.sprites@;
    proof {
        lemma_sprite_of(s0, i as int);
    }
    let step: i64 = MOVEMENT_SPEED * (delta as i64);
    let up: i64 = if keys.up { step } else { 0 };
    let down: i64 = if keys.down { step } else { 0 };
    let left: i64 = if keys.left { step } else { 0 };
    let right: i64 = if keys.right { step } else { 0 };
    let x: i64 = world.sprites[i].x + (right - left);
    let y: i64 = world.sprites[i].y + (up - down);
    world.sprites[i].x = x;
    world.sprites[i].y = y;
    proof {
        let s1 = world.sprites@;
        assert(s1.len() == s0.len());
        assert forall|a: int| 0 <= a < s1.len() && a != i implies #[trigger] s1[a] == s0[a] by {}
        assert(labels_unique(s1)) by {
            assert forall|a: int, b: int|
                0 <= a < s1.len() && 0 <= b < s1.len() && a != b implies (#[trigger] s1[a]).label@
                != (#[trigger] s1[b]).label@ by {
                assert(s1[a].label == s0[a].label && s1[b].label == s0[b].label);
            }
        }
        assert forall|l: Seq<char>| #[trigger] has_label(s1, l) <==> has_label(s0, l) by {
            if has_label(s1, l) {
                let a = choose|a: int| 0 <= a < s1.len() && (#[trigger] s1[a]).label@ == l;
                assert(s1[a].label == s0[a].label);
            }
            if has_label(s0, l) {
                let a = choose|a: int| 0 <= a < s0.len() && (#[trigger] s0[a]).label@ == l;
                assert(s1[a].label == s0[a].label);
            }
        }
        lemma_sprite_of(s1, i as int);
        assert forall|l: Seq<char>|
            l != player_label() && has_label(s0, l) implies #[trigger] sprite_of(s1, l) == sprite_of(s0, l) by {
            let a = choose|a: int| 0 <= a < s0.len() && (#[trigger] s0[a]).label@ == l;
            assert(s1[a] == s0[a]);
            lemma_sprite_of(s0, a);
            lemma_sprite_of(s1, a);
        }
    }
}

/// Spawns an obstacle at `(x, y)` under the label of the next index, and
/// moves the index on. The label is always free: no obstacle on the field was
/// named by this index or a later one.
pub fn spawn_car(world: &mut World, state: &mut GameState, x: i64, y: i64)
    requires
        consistent(*old(world), *old(state)),
        old(state).car_index < u32::MAX,
    ensures
        consistent(*final(world), *final(state)),
        final(state).car_index == old(state).car_index + 1,
        final(state).score == old(state).score,
        final(state).high_score == old(state).high_score,
        final(state).spawn_timer == old(state).spawn_timer,
        final(world).sprites@ == old(world).sprites@.push(
            Sprite {
                label: final(world).sprites@.last().label,
                x,
                y,
                scale_percent: CAR_SCALE_PERCENT,
                collision: true,
            },
        ),
        final(world).sprites@.last().label@ == car_label_of(old(state).car_index as nat),
        spawned_at(*final(world), car_label_of(old(state).car_index as nat), x, y),
        forall|l: Seq<char>|
            #[trigger] final(world).has(l) <==> old(world).has(l) || l == car_label_of(old(state).car_index as nat),
        forall|l: Seq<char>|
            old(world).has(l) ==> #[trigger] sprite_of(final(world).sprites@, l) == sprite_of(old(world).sprites@, l),
        final(world).player() == old(world).player(),
{
    let label = car_label(state.car_index);
    state.car_index = state.car_index + 1;
    let ghost s0 = world.sprites@;
    let sprite = Sprite { label, x, y, scale_percent: CAR_SCALE_PERCENT, collision: true };
    proof {
        assert(!old(world).has(car_label_of(old(state).car_index as nat)));
    }
    let added = world.add_sprite(sprite);
    proof {
        assert(added is Ok);
        lemma_car_label_not_player(old(state).car_index as nat);
        lemma_push(s0, sprite);
        lemma_sprite_of(world.sprites@, s0.len() as int);
        assert forall|k: nat| #[trigger] world.has(car_label_of(k)) implies k < state.car_index by {
            assert(has_label(s0.push(sprite), car_label_of(k)));
            if k != old(state).car_index {
                lemma_car_labels_distinct(k, old(state).car_index as nat);
                assert(old(world).has(car_label_of(k)));
            }
        }
    }
}

/// Sets the score back to zero; the high score stays.
pub fn reset_score(world: &mut World, state: &mut GameState)
    requires
        consistent(*old(world), *old(state)),
    ensures
        consistent(*final(world), *final(state)),
        final(state).score == 0,
        final(state).high_score == old(state).high_score,
        final(state).car_index == old(state).car_index,
        final(state).spawn_timer == old(state).spawn_timer,
        final(world).sprites == old(world).sprites,
        final(world).score_text@ == score_line_of(0),
{
    state.score = 0;
    world.score_text = score_line(0);
    proof {
        assert forall|k: nat| #[trigger] world.has(car_label_of(k)) implies k < state.car_index by {
            assert(old(world).has(car_label_of(k)));
        }
    }
}

/// Runs one frame: collisions in the order given, then movement, then a
/// spawn at the click, then a spawn at `spot` if the timer fires, then the
/// reset key.
pub fn update(world: &mut World, state: &mut GameState, input: &FrameInput, spot: (i64, i64)) -> (effects:
    FrameEffects)
    requires
        consistent(*old(world), *old(state)),
        old(state).score + input.events@.len() <= u32::MAX,
        old(state).car_index + 2 <= u32::MAX,
        MOVEMENT_SPEED * input.delta <= i64::MAX,
        i64::MIN <= old(world).player().x + displacement(input.keys, input.delta as nat).0 <= i64::MAX,
        i64::MIN <= old(world).player().y + displacement(input.keys, input.delta as nat).1 <= i64::MAX,
    ensures
        consistent(*final(world), *final(state)),
        effects.impacts == count_scoring(input.events@),
        final(state).score == if input.keys.reset {
            0
        } else {
            old(state).score + count_scoring(input.events@)
        },
        final(state).high_score == max_of(
            old(state).high_score as int,
            old(state).score + count_scoring(input.events@),
        ),
        !input.keys.reset ==> final(state).score >= old(state).score,
        final(state).high_score >= old(state).high_score,
        final(state).car_index == old(state).car_index + spawn_count(*old(state), *input),
        final(state).spawn_timer.period == old(state).spawn_timer.period,
        final(state).spawn_timer.elapsed == old(state).spawn_timer.elapsed_after(input.delta as nat),
        final(world).player().x == old(world).player().x + displacement(input.keys, input.delta as nat).0,
        final(world).player().y == old(world).player().y + displacement(input.keys, input.delta as nat).1,
        forall|l: Seq<char>|
            #[trigger] final(world).has(l) <==> (old(world).has(l) && !destroyed_by(input.events@, l))
                || spawned_label(*old(state), *input, l),
        input.click matches Some(c) ==> spawned_at(*final(world), car_label_of(old(state).car_index as nat), c.0, c.1),
        old(state).spawn_timer.fires_on(input.delta as nat) > 0 ==> spawned_at(
            *final(world),
            car_label_of((old(state).car_index + if input.click is Some { 1int } else { 0int }) as nat),
            spot.0,
            spot.1,
        ),
        forall|l: Seq<char>|
            l != player_label() && final(world).has(l) && !spawned_label(*old(state), *input, l) ==> #[trigger] sprite_of(
                final(world).sprites@,
                l,
            ) == sprite_of(old(world).sprites@, l),
{
    let ghost w0 = *world;
    let ghost s0 = *state;
    let mut impacts: u32 = 0;
    let mut i: usize = 0;
    while i < input.events.len()
        invariant
            i <= input.events@.len(),
            consistent(*world, *state),
            s0.score + input.events@.len() <= u32::MAX,
            impacts == count_scoring(input.events@.take(i as int)),
            state.score == s0.score + count_scoring(input.events@.take(i as int)),
            state.high_score == max_of(s0.high_score as int, state.score as int),
            state.car_index == s0.car_index,
            state.spawn_timer == s0.spawn_timer,
            world.player() == w0.player(),
            forall|l: Seq<char>|
                #[trigger] world.has(l) <==> w0.has(l) && !destroyed_by(input.events@.take(i as int), l),
            forall|l: Seq<char>| world.has(l) ==> #[trigger] sprite_of(world.sprites@, l) == sprite_of(w0.sprites@, l),
        decreases input.events@.len() - i,
    {
        proof {
            assert(input.events@.take(i as int + 1).drop_last() =~= input.events@.take(i as int));
            assert(input.events@.take(i as int + 1).last() == input.events@[i as int]);
            assert(count_scoring(input.events@.take(i as int)) <= i) by {
                lemma_count_scoring_bound(input.events@.take(i as int));
            }
        }
        let scored = handle_collision(world, state, &input.events[i]);
        if scored {
            impacts = impacts + 1;
        }
        i = i + 1;
    }
    proof {
        assert(input.events@.take(input.events@.len() as int) =~= input.events@);
    }
    let ghost w1 = *world;
    move_player(world, input.keys, input.delta);
    let ghost w2 = *world;
    let ghost s2 = *state;
    if let Some((cx, cy)) = input.click {
        spawn_car(world, state, cx, cy);
    }
    let ghost w3 = *world;
    let ghost s3 = *state;
    let fired = state.spawn_timer.tick(input.delta);
    if SpawnTimer::just_finished(fired) {
        spawn_car(world, state, spot.0, spot.1);
    }
    let ghost w4 = *world;
    if input.keys.reset {
        reset_score(world, state);
    }
    proof {
        assert forall|l: Seq<char>|
            #[trigger] world.has(l) <==> (w0.has(l) && !destroyed_by(input.events@, l)) || spawned_label(
                s0,
                *input,
                l,
            ) by {
            assert(world.has(l) == w4.has(l));
            assert(w4.has(l) <==> w3.has(l) || (fired > 0 && l == car_label_of(s3.car_index as nat)));
            assert(w3.has(l) <==> w2.has(l) || (input.click is Some && l == car_label_of(s2.car_index as nat)));
            assert(w2.has(l) == w1.has(l));
        }
        assert forall|l: Seq<char>|
            l != player_label() && world.has(l) && !spawned_label(s0, *input, l) implies #[trigger] sprite_of(
                world.sprites@,
                l,
            ) == sprite_of(w0.sprites@, l) by {
            assert(w4.has(l) <==> w3.has(l) || (fired > 0 && l == car_label_of(s3.car_index as nat)));
            assert(w3.has(l) <==> w2.has(l) || (input.click is Some && l == car_label_of(s2.car_index as nat)));
            assert(w2.has(l) == w1.has(l));
            assert(sprite_of(world.sprites@, l) == sprite_of(w4.sprites@, l));
            assert(sprite_of(w4.sprites@, l) == sprite_of(w3.sprites@, l));
            assert(sprite_of(w3.sprites@, l) == sprite_of(w2.sprites@, l));
            assert(sprite_of(w2.sprites@, l) == sprite_of(w1.sprites@, l));
        }
        if input.click is Some {
            let l = car_label_of(s0.car_index as nat);
            assert(w3.has(l));
            assert(sprite_of(w4.sprites@, l) == sprite_of(w3.sprites@, l));
            assert(sprite_of(world.sprites@, l) == sprite_of(w4.sprites@, l));
        }
    }
    FrameEffects { impacts }
}

proof fn lemma_count_scoring_bound(es: Seq<CollisionEvent>)
    ensures
        count_scoring(es) <= es.len(),
    decreases es.len(),
{
    if es.len() > 0 {
        lemma_count_scoring_bound(es.drop_last());
    }
}

/// Runs one frame with a timed obstacle, if one is due, placed at random on
/// the field.
pub fn run_frame(world: &mut World, state: &mut GameState, input: &FrameInput) -> (effects: FrameEffects)
    requires
        consistent(*old(world), *old(state)),
        old(state).score + input.events@.len() <= u32::MAX,
        old(state).car_index + 2 <= u32::MAX,
        MOVEMENT_SPEED * input.delta <= i64::MAX,
        i64::MIN <= old(world).player().x + displacement(input.keys, input.delta as nat).0 <= i64::MAX,
        i64::MIN <= old(world).player().y + displacement(input.keys, input.delta as nat).1 <= i64::MAX,
    ensures
        consistent(*final(world), *final(state)),
        effects.impacts == count_scoring(input.events@),
        final(state).score == if input.keys.reset {
            0
        } else {
            old(state).score + count_scoring(input.events@)
        },
        final(state).high_score == max_of(
            old(state).high_score as int,
            old(state).score + count_scoring(input.events@),
        ),
        !input.keys.reset ==> final(state).score >= old(state).score,
        final(state).high_score >= old(state).high_score,
        final(state).car_index == old(state).car_index + spawn_count(*old(state), *input),
        final(state).spawn_timer.period == old(state).spawn_timer.period,
        final(state).spawn_timer.elapsed == old(state).spawn_timer.elapsed_after(input.delta as nat),
        final(world).player().x == old(world).player().x + displacement(input.keys, input.delta as nat).0,
        final(world).player().y == old(world).player().y + displacement(input.keys, input.delta as nat).1,
        forall|l: Seq<char>|
            #[trigger] final(world).has(l) <==> (old(world).has(l) && !destroyed_by(input.events@, l))
                || spawned_label(*old(state), *input, l),
        input.click matches Some(c) ==> spawned_at(*final(world), car_label_of(old(state).car_index as nat), c.0, c.1),
        forall|l: Seq<char>|
            l != player_label() && final(world).has(l) && !spawned_label(*old(state), *input, l) ==> #[trigger] sprite_of(
                final(world).sprites@,
                l,
            ) == sprite_of(old(world).sprites@, l),
{
    let x = random_between(-FIELD_HALF_WIDTH, FIELD_HALF_WIDTH);
    let y = random_between(-FIELD_HALF_HEIGHT, FIELD_HALF_HEIGHT);
    update(world, state, input, (x, y))
}

/// Where the player starts, in micro-units along x.
pub const PLAYER_START_X: i64 = -300000000;

/// The field as a game starts: the player at `(PLAYER_START_X, 0)` and one
/// obstacle labelled `firstCar` at the centre, both at half scale and
/// colliding, with texts that show `state`.
pub fn start_world(state: &GameState) -> (w: World)
    requires
        state.score <= state.high_score,
        state.spawn_timer.wf(),
    ensures
        consistent(w, *state),
        w.sprites@.len() == 2,
        w.player().x == PLAYER_START_X,
        w.player().y == 0,
        w.player().scale_percent == CAR_SCALE_PERCENT,
        w.player().collision,
        w.sprites@[1].label@ == seq!['f', 'i', 'r', 's', 't', 'C', 'a', 'r'],
        w.sprites@[1].x == 0 && w.sprites@[1].y == 0,
        w.sprites@[1].scale_percent == CAR_SCALE_PERCENT,
        w.sprites@[1].collision,
{
    proof {
        reveal_strlit("firstCar");
    }
    let player = Sprite {
        label: player_name(),
        x: PLAYER_START_X,
        y: 0,
        scale_percent: CAR_SCALE_PERCENT,
        collision: true,
    };
    let first = Sprite {
        label: String::from_str("firstCar"),
        x: 0,
        y: 0,
        scale_percent: CAR_SCALE_PERCENT,
        collision: true,
    };
    let mut sprites: Vec<Sprite> = Vec::new();
    sprites.push(player);
    sprites.push(first);
    let w = World { sprites, score_text: score_line(state.score), high_score_text: high_score_line(state.high_score) };
    proof {
        let s = w.sprites@;
        assert(s[0].label@ == player_label());
        assert(s[0].label@[0] != s[1].label@[0]);
        assert(labels_unique(s));
        lemma_sprite_of(s, 0);
    }
    w
}

} // verus!
