//! The logic of a desktop video downloader: its model, the argument vectors it
//! hands to external tools, the state machines that drive downloads and
//! playback, and the view models its screens are drawn from.
//!
//! Every item is verified. Windows, processes, files and floating-point
//! geometry live in the application around this library.

pub mod anim;
pub mod assets;
pub mod converting;
pub mod demo;
pub mod dialogs;
pub mod downloads;
pub mod input;
pub mod library;
pub mod media;
pub mod model;
pub mod morph;
pub mod painting;
pub mod paths;
pub mod pixels;
pub mod playback;
pub mod presets;
pub mod readout;
pub mod routing;
pub mod runner;
pub mod screens;
pub mod session;
pub mod settings;
pub mod shell;
pub mod slider;
pub mod store;
pub mod style;
pub mod svg;
pub mod tables;
pub mod text;
pub mod truncation;
pub mod widget;
pub mod ytdlp;
