pub mod movement;
pub mod end_turn;
pub mod chasing;
pub mod combat;
