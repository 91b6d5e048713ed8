pub mod card;
pub mod chance;
pub mod counting;
pub mod event;
pub mod game;
pub mod hand;
pub mod laws;
pub mod model;
pub mod pile;
pub mod preserve;
pub mod state;
pub mod text;

pub use crate::card::Card;
pub use crate::event::{Event, InputType, Response, ResponseError};
pub use crate::game::Game;
pub use crate::hand::{Hand, HandError, HandView};
pub use crate::model::GameView;
pub use crate::state::{Phase, State};
