//! Stream URL, playlist and segment logic behind the `play` HLS/HTTP player.
pub mod error;
pub mod text;
pub mod num;
pub mod media;
pub mod paths;
pub mod weburl;
pub mod variants;
pub mod urls;
pub mod curl;
pub mod hls;
pub mod assoc;
pub mod prefs;
pub mod fetch;
pub mod download;
pub mod player;
pub mod proxy;
pub mod cli;
pub mod desk;
pub mod capture;
