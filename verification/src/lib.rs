//! A real-time group-chat broker.
//!
//! The heart of the crate is the [`lobby::Lobby`]: the single registry that
//! tracks which live connections belong to which rooms and fans text frames
//! out to the right outbound channels. Around it stand the message-envelope
//! protocol ([`messages`]), the per-connection actor state machine ([`ws`]),
//! and the user/group directory that the HTTP layer consults ([`directory`],
//! [`user`], [`group`]).

pub mod directory;
pub mod errors;
pub mod group;
pub mod lobby;
pub mod messages;
pub mod user;
pub mod ws;
