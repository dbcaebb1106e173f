//! A recursive word-counting engine: per-line regex matching, match records,
//! a per-file occurrence table and an aligned text report.
use vstd::prelude::*;

pub mod arguments;
pub mod text;
pub mod pattern;
pub mod matcher;
pub mod config;
pub mod scan;
pub mod aggregate;
pub mod order;
pub mod display;
pub mod searcher;

verus! {

use crate::arguments::{generate, known_arguments};
use crate::config::{Config, defaults_view, lemma_known_arguments_ready, texts_of, updated};

/// The configuration from the known arguments' defaults and the command
/// line `cli` (without the program's name).
pub fn prepare_config(cli: &Vec<String>) -> (r: Config)
    ensures
        r@ == updated(defaults_view(known_arguments()), texts_of(cli@)),
{
    let args: Vec<crate::arguments::Argument> = generate();
    proof {
        lemma_known_arguments_ready();
    }
    Config::new(&args, cli)
}

} // verus!
