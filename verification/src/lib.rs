//! Verified game logic of an Asteroids-style arcade game: the highscore
//! board, the game-state machine, the asteroid spawner, hit-test pairing,
//! sprite animation stepping and keyed asset tracking.

pub mod highscore;
pub mod text;
pub mod scoreboard;
pub mod game_state;
pub mod spawner;
pub mod hit_test;
pub mod animation;
pub mod shadows;
pub mod asteroids;
pub mod settings;
pub mod embedded;
pub mod paths;
pub mod asset_map;
pub mod menus;
pub mod movement;
pub mod controls;
