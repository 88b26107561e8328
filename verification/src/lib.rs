pub mod beatmap;
pub mod data;
pub mod input;
pub mod state;
pub mod tween;
pub mod update;
