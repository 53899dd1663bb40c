//! Vortexa: a tiny RetNet language model.
//!
//! This library holds what the program decides and computes with integers and
//! text; each function says in its contract what it returns.
//!
//! * [`config`]: the architecture and its presets
//! * [`bpe`], [`bpe_json`], [`members`]: the byte-level BPE tokenizer and its
//!   JSON form, on top of [`merging`] (encoding and decoding) and [`learning`] (merges)
//! * [`data`]: token datasets and batches
//! * [`retention`]: positions and exponents of the retention mechanism, and why
//!   its forms agree
//! * [`sampling`], [`generate`]: choosing tokens, and completing a prompt
//! * [`train`], [`eval`]: the course of a training run and of an evaluation
//! * [`device`]: the choice of a backend
//! * [`datasets`]: the catalog of datasets, and the course of a download
//! * [`settings`]: user settings, their panel and the model-size templates
//! * [`tui`], [`screens`]: the full-screen interface
//! * [`ui`]: the line-based menu
//! * [`text`], [`sorting`], [`paths`], [`binary32`], [`binary64`]: what the rest
//!   is made of
pub mod binary32;
pub mod binary64;
pub mod bpe;
pub mod bpe_json;
pub mod config;
pub mod data;
pub mod datasets;
pub mod device;
pub mod eval;
pub mod generate;
pub mod learning;
pub mod members;
pub mod merging;
pub mod paths;
pub mod retention;
pub mod sampling;
pub mod screens;
pub mod settings;
pub mod sorting;
pub mod text;
pub mod train;
pub mod tui;
pub mod ui;

pub use crate::config::Config;
