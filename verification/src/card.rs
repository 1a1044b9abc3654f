//! Every card type of the crate, gathered under one roof: the French
//! playing cards and the symbol-matching cards.

pub use crate::frenchcard::all_ranks;
pub use crate::frenchcard::all_suits;
pub use crate::frenchcard::rank_at;
pub use crate::frenchcard::rank_value;
pub use crate::frenchcard::suit_at;
pub use crate::frenchcard::FrenchCard;
pub use crate::frenchcard::FrenchRank;
pub use crate::frenchcard::FrenchSuit;
pub use crate::spotitcard::alphabet;
pub use crate::spotitcard::symbol_at;
pub use crate::spotitcard::SpotItCard;
pub use crate::spotitcard::SpotItSymbol;
pub use crate::spotitcard::ALPHABET_SIZE;
