//! Polyhedron: the verified core of a real-time lesson service that
//! transcribes a trainer's speech, translates it once per language and
//! synthesizes it once per voice.
//!
//! - `asr`: audio frame encoding and transcript events
//! - `whisper`: the streaming recognizer's buffer, prompt and line logic
//! - `group`: grouping of sample chunks into fixed-size groups
//! - `lesson`: recognizer choice and the shared-pipeline registries
//! - `speech`: splitting synthesized speech marks into lines
//! - `class`: lesson creation, listing and membership
//! - `base64box`: byte payloads carried as base64 text
//! - `config`: where settings are read from
//! - `text`: trimming and comma-separated lists

pub mod asr;
pub mod base64box;
pub mod class;
pub mod config;
pub mod group;
pub mod lesson;
pub mod speech;
pub mod text;
pub mod whisper;
