pub mod action;
pub mod board;
pub mod boards;
pub mod catalog;
pub mod dev_card;
pub mod game;
pub mod hex;
pub mod index;
pub mod junction;
pub mod longest_road;
pub mod moves;
pub mod player;
pub mod port;
pub mod resource;
pub mod rng;
pub mod road;
pub mod trade;
pub mod wf_check;

pub use board::Board;
pub use board::BoardType;
pub use game::Game;
pub use player::Player;
pub use player::PlayerId;
pub use trade::Trade;
