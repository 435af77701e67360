use mnist_digits::plan::{model_source, save_action, ModelSource, SaveAction};
use mnist_digits::PipelineError;

#[test]
fn a_model_is_loaded_only_from_a_file_that_is_there() {
    assert_eq!(
        model_source(Some(String::from("model.json")), true),
        ModelSource::Load(String::from("model.json"))
    );
    assert_eq!(model_source(Some(String::from("model.json")), false), ModelSource::TrainFresh);
    assert_eq!(model_source(None, false), ModelSource::TrainFresh);
    assert_eq!(model_source(None, true), ModelSource::TrainFresh);
}

#[test]
fn a_model_is_never_written_over_a_file() {
    assert_eq!(
        save_action(Some(String::from("model.json")), false),
        SaveAction::Write(String::from("model.json"))
    );
    assert_eq!(
        save_action(Some(String::from("model.json")), true),
        SaveAction::KeepExisting(String::from("model.json"))
    );
    assert_eq!(save_action(None, false), SaveAction::NoPath);
    assert_eq!(save_action(None, true), SaveAction::NoPath);
}

#[test]
fn every_failure_has_its_words() {
    assert_eq!(PipelineError::NotFound.describe(), "file does not exist");
    assert_eq!(PipelineError::ParseError.describe(), "field is not a number");
    assert_eq!(PipelineError::OutOfRange.describe(), "value out of range");
    assert_eq!(PipelineError::EmptyDataset.describe(), "dataset is empty");
    assert_eq!(PipelineError::MissingField.describe(), "configuration field is missing");
    assert_eq!(PipelineError::MalformedDocument.describe(), "configuration is not a document");
    assert_eq!(PipelineError::EvaluationMismatch.describe(), "prediction differs from target");
}
