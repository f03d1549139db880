//! Agent Viewer's core: readers for character files, playback and speech
//! timing, and the viewer's own decisions, with their behaviour proved.
pub mod actor;
pub mod agent15;
pub mod audio;
pub mod bytes;
pub mod canvas;
pub mod character;
pub mod cli;
pub mod compound;
pub mod details;
pub mod dump;
pub mod error;
pub mod player;
pub mod png;
pub mod reader;
pub mod selection;
pub mod sequence;
pub mod speech;
pub mod stage;
pub mod text;
pub mod types;
pub mod window;
pub mod wmf;
