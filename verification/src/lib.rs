pub mod bidding;
pub mod deck;
pub mod describe;
pub mod game_state;
pub mod hands;
pub mod interactive;
pub mod message;
pub mod ordered_card;
pub mod player;
pub mod scoring;
pub mod settings;
pub mod trick;
pub mod types;
