pub mod commentary;
pub mod tags;
pub mod deal;
pub mod play;
pub mod auction;
pub mod pbn;
