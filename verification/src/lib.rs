//! Recording of system audio to WAV, FLAC and MP3.
pub mod agent;
pub mod backend;
pub mod bits;
pub mod commands;
pub mod config;
pub mod crc;
pub mod dispatcher;
pub mod encoder;
pub mod error;
pub mod flac_dec;
pub mod flac_enc;
pub mod flac_mux;
pub mod hrt;
pub mod ieee;
pub mod instance;
pub mod json;
pub mod lame;
pub mod loopback;
pub mod mock;
pub mod monitor;
pub mod mp3;
pub mod muxer;
pub mod null;
pub mod output;
pub mod paths;
pub mod pcm;
pub mod pipeline;
pub mod probe;
pub mod satellite;
pub mod server;
pub mod state;
pub mod telemetry;
pub mod telemetry_client;
pub mod text;
pub mod types;
pub mod wasapi;
pub mod wav;
pub mod window;
