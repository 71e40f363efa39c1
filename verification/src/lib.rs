//! Text normalization (TN) and inverse text normalization (ITN) for speech
//! synthesis front ends, for Chinese, English and Japanese.
//!
//! The normalization pipeline runs weighted transducers (FST files) stored on
//! disk. This crate holds everything that decides what the pipeline does:
//! the configuration, language detection, which transducer runs at which
//! stage and on which text, the reordering of tagged tokens, the expansion of
//! English contractions and the whitespace handling between the stages. It
//! is written as a step machine: a [`Normalization`] run asks its driver to
//! apply one transducer at a time and is resumed with the answer.

pub mod config;
pub mod contractions;
pub mod error;
pub mod normalizer;
pub mod pipeline;
pub mod text;
pub mod token_laws;
pub mod token_parser;

pub use config::{Language, NormalizerConfig, Operator};
pub use contractions::fix_contractions;
pub use error::WeTextError;
pub use normalizer::Normalizer;
pub use pipeline::{tagger_fst, verbalizer_fst, Normalization, Stage, Step};
pub use token_parser::{OrderKind, TokenParser};

use vstd::prelude::*;

use crate::config::default_config;
use crate::pipeline::{normalized, Transducers};

verus! {

/// Starts normalizing `text` with the default configuration. The driver
/// applies the transducers that the run asks for, loading them from its
/// transducer directory.
pub fn normalize(text: &str) -> (step: Step)
    ensures
        forall|fst: Transducers| #[trigger] step.result(fst) == normalized(text@, default_config(), fst),
        crate::pipeline::asks_after(step, -1),
{
    Normalization::start(text, NormalizerConfig::new())
}

} // verus!
