//! What a run does with its model file paths.
//!
//! The caller probes the file system once and hands over what it found;
//! the decisions are made here.

use vstd::prelude::*;

verus! {

/// Where the model of a run comes from.
#[derive(Clone, Debug, PartialEq, Eq)]
pub enum ModelSource {
    /// The model is loaded from the file at this path.
    Load(String),
    /// A fresh model is trained.
    TrainFresh,
}

/// What becomes of a trained model.
#[derive(Clone, Debug, PartialEq, Eq)]
pub enum SaveAction {
    /// The model is written to this path.
    Write(String),
    /// A file stands at this path already: it is left untouched and the
    /// model is not saved.
    KeepExisting(String),
    /// No path was given: the model is not saved.
    NoPath,
}

/// Decides where the model comes from: it is loaded when a load path is
/// given and a file stands there, and trained afresh otherwise.
pub fn model_source(load_path: Option<String>, file_exists: bool) -> (source: ModelSource)
    ensures
        source == (if load_path is Some && file_exists {
            ModelSource::Load(load_path->Some_0)
        } else {
            ModelSource::TrainFresh
        }),
{
    match load_path {
        Some(path) if file_exists => ModelSource::Load(path),
        _ => ModelSource::TrainFresh,
    }
}

/// Decides what becomes of a trained model: it is written to the save path
/// when one is given and no file stands there. An existing file is never
/// overwritten.
pub fn save_action(save_path: Option<String>, file_exists: bool) -> (action: SaveAction)
    ensures
        action == (match save_path {
            Some(path) => if file_exists {
                SaveAction::KeepExisting(path)
            } else {
                SaveAction::Write(path)
            },
            None => SaveAction::NoPath,
        }),
{
    match save_path {
        Some(path) => if file_exists {
            SaveAction::KeepExisting(path)
        } else {
            SaveAction::Write(path)
        },
        None => SaveAction::NoPath,
    }
}

} // verus!
