use vstd::prelude::*;
use std::collections::BTreeMap;

verus! {

/// What a saved session holds: the scenes, by number, as lists of WAV file
/// names, and one entry per recorded sequence.
pub struct YamlConfig {
    pub scenes: BTreeMap<usize, Vec<String>>,
    pub sequences: Vec<SeqMeta>,
}

/// The saved description of one sequence.
pub struct SeqMeta {
    pub filename: String,
    pub beats: usize,
    pub track: usize,
}

} // verus!
