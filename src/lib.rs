//! Rules of a small arcade car game, kept apart from the engine that draws it.
//!
//! Distances are in micro-units and time in microseconds, so that a speed of
//! 100 units per second moves a sprite by 100 micro-units per microsecond.

pub mod game;
pub mod labels;
pub mod timer;
pub mod world;

pub use game::{
    handle_collision, move_player, reset_score, run_frame, spawn_car, update, CollisionEvent,
    CollisionState, FrameEffects, FrameInput, GameState, Keys, start_world,
};
pub use labels::{car_label, high_score_line, score_line};
pub use timer::SpawnTimer;
pub use world::{SpawnError, Sprite, World};
