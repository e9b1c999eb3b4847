//! The plugin's screens: their state and the decisions behind them.

pub mod app_data;
pub mod event_handler;
pub mod flows;
pub mod handshake;
pub mod message;
pub mod state;
pub mod upload;
pub mod upload_plan;

use vstd::prelude::*;

use crate::text::str_eq;

verus! {

pub const COMIC_DATA_CARD_ID: &'static str = "band-comic-data";
pub const COMIC_DATA_CARD_NAME: &'static str = "腕上漫画 · 数据";

/// Whether a card render request is for the comic-data card (the only card
/// this plugin draws); the caller renders it when this holds.
pub fn render_card(card_id: &str) -> (known: bool)
    ensures
        known == (card_id@ == COMIC_DATA_CARD_ID@),
{
    str_eq(card_id, COMIC_DATA_CARD_ID)
}

} // verus!
