//! Game rules of the Kamplud' marble platformer: score bookkeeping and its
//! save-file record, level listing and naming, the presence texts, the
//! pause switch, contact handling for the player, coin pickup, movement
//! choice and the reading of level scene metadata.

pub mod text;
pub mod levels;
pub mod presence;
pub mod score;
pub mod components;
pub mod play;
pub mod flow;
pub mod scene;
