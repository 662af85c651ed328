pub mod actions;
pub mod board;
pub mod builder;
pub mod curriculum;
pub mod data;
pub mod dice;
pub mod engine;
pub mod gamestate;
pub mod model;
mod outside;
pub mod pathing;
pub mod pitch;
pub mod player;
pub mod procedures;
pub mod rules;
pub mod table;
