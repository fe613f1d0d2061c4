//! Local rich-presence services: process detection, game transports and the
//! activity bridge, as verified decision logic.

pub mod app_ids;
pub mod bridge;
pub mod cards;
pub mod census;
pub mod commands;
pub mod consumer;
pub mod detectables;
pub mod detection;
pub mod error;
pub mod flood;
pub mod frame;
pub mod gauge;
pub mod handoff;
pub mod handover;
pub mod ipc;
pub mod json;
pub mod matching;
pub mod members;
pub mod message;
pub mod names;
pub mod origin;
pub mod paths;
pub mod payload;
pub mod presence;
pub mod procfs;
pub mod protocol;
pub mod publications;
pub mod query;
pub mod readback;
pub mod replay;
pub mod router;
pub mod scan_loop;
pub mod scanning;
pub mod server;
pub mod serving;
pub mod sink;
pub mod slots;
pub mod sorted_index;
pub mod state;
pub mod stream;
pub mod table;
pub mod text;
pub mod text_laws;
pub mod time;
pub mod user;
pub mod ws;
