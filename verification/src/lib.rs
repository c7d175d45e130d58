//! Local prompt analysis and classifier-threshold calibration.
//!
//! A text is cut into tokens (`segment`), the tokens are filtered
//! (`lexicon`) and ranked into keywords, with a boost for the terms of a
//! curated vocabulary (`keywords`, `vocabulary`); markers in the text give
//! its targets, theme, topic and role (`extract`); `analysis` puts the
//! result together. `calibration` searches the confidence threshold under
//! which the verdicts of a remote classifier agree best with human labels,
//! and decides which texts are kept. `capture` screens what arrives from the
//! capture source, `table` reads and writes prompts as a table, `storage`
//! and `prompts` hold the records.
//!
//! Text is modelled as `Seq<char>` and held as `Vec<char>` (`chars`, `text`,
//! `ordered`); every executable function states its result over that model.

pub mod analysis;
pub mod calibration;
pub mod capture;
pub mod chars;
pub mod extract;
pub mod ident;
pub mod json;
pub mod keywords;
pub mod lexicon;
pub mod ordered;
pub mod prompts;
pub mod remote;
pub mod segment;
pub mod storage;
pub mod table;
pub mod text;
pub mod vocabulary;
