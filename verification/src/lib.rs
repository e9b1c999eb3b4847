//! Verified core of the band-comic companion plugin: the reliable-transfer
//! windows, the upload protocol, the handshake bookkeeping, the data the
//! watch app sends back, the image format of the watch, and the plain data
//! manipulation behind the plugin's screens.

pub mod base64;
pub mod events;
pub mod lvgl;
pub mod network;
pub mod seqs;
pub mod text;
pub mod transfer;
pub mod ui;
