//! Verified core of the Nocturne Car Thing daemon: wire formats, protocol
//! state machines and the small policies that drive Bluetooth, audio and
//! display behaviour.

pub mod accessory;
pub mod address;
pub mod ancs;
pub mod ancs_client;
pub mod audio;
pub mod base64_codec;
pub mod bluetooth;
pub mod brightness;
pub mod bytes_util;
pub mod chunking;
pub mod control;
pub mod dispatch;
pub mod events;
pub mod hci;
pub mod image_cache;
pub mod json;
pub mod msgpack_value;
pub mod notification_board;
pub mod ota;
pub mod pairing;
pub mod reassembly;
pub mod reconnect;
pub mod replies;
pub mod recording;
pub mod search;
pub mod spp;
pub mod text;
pub mod wind;
