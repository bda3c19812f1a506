#![allow(non_snake_case)]

pub mod board;
pub mod rays;
pub mod rules;
pub mod counting;
pub mod search;
pub mod game;
