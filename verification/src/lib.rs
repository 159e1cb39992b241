//! Engine-independent rules of the First Light lighthouse prototype: the mode catalogue and the
//! session controller, the persistent entity forms and the roster, each variant's rules and
//! results, the World Weaver assembler and its dawn voyage, the grid passage finder, the grouping
//! of rocks into islands, authored level masks, the words and sounds events produce, the player's
//! settings, and the PCM sound encoder.

pub mod audio;
pub mod beam;
pub mod clusters;
pub mod entity;
pub mod event;
pub mod hud;
pub mod level;
pub mod mode;
pub mod outcome;
pub mod route;
pub mod rules;
pub mod session;
pub mod settings;
pub mod text;
pub mod weaver;
