pub mod card;

pub use card::{AnnotatedCall, BidSuit, Call, Card, Direction, Rank, Strain, Suit};
pub use card::{RANKS_DISPLAY_ORDER, SUITS_DISPLAY_ORDER};
pub mod hand;
pub use hand::{Hand, Holding};
pub mod analysis;
pub mod analysis_laws;
pub mod deal;
pub use deal::Deal;
pub mod commentary;
pub mod play;
pub use commentary::{CommentaryBlock, FormattedText, TextSpan};
pub use play::{PlaySequence, Trick};
pub mod auction;
pub use auction::{Auction, Contract};
pub mod board;
pub use board::{Board, Vulnerability};
pub mod metadata;
pub use metadata::{ColorSettings, PaperSize};
pub mod rank_order;
pub use rank_order::rank_display_cmp;
