use rust_asar::{AsarError, AsarFile, Destination, ExtractStep, Extractor, Phase, StepOutcome};

fn open(json: &str) -> AsarFile {
    let json_size = json.len() as u32;
    let mut bytes = Vec::new();
    bytes.extend_from_slice(&4u32.to_le_bytes());
    bytes.extend_from_slice(&(json_size + 8).to_le_bytes());
    bytes.extend_from_slice(&(json_size + 4).to_le_bytes());
    bytes.extend_from_slice(&json_size.to_le_bytes());
    bytes.extend_from_slice(json.as_bytes());
    AsarFile::new(&bytes).unwrap()
}

fn run(extractor: &mut Extractor) -> Vec<ExtractStep> {
    let mut steps = Vec::new();
    while let Some(step) = extractor.next_step() {
        steps.push(step);
        extractor.record(StepOutcome::Completed);
    }
    steps
}

fn copy(path: &str, position: u64, size: u64) -> ExtractStep {
    ExtractStep::CopyFile { path: path.to_string(), position, size }
}

fn create(path: &str) -> ExtractStep {
    ExtractStep::CreateDir { path: path.to_string() }
}

const SAMPLE: &str =
    r#"{"files": {"a.txt": {"size": 5, "offset": "0"}, "sub": {"files": {"b.txt": {"size": 3, "offset": "5"}}}}}"#;

#[test]
fn extract_all_of_the_sample() {
    let opened = open(SAMPLE);
    let start = opened.header_size() + 8;
    let mut extractor = opened.extract_all(Destination::Missing).unwrap();
    assert_eq!(extractor.phase(), Phase::NotStarted);
    assert_eq!(
        run(&mut extractor),
        vec![
            ExtractStep::CreateDestination,
            copy("a.txt", start, 5),
            create("sub"),
            copy("sub/b.txt", start + 5, 3),
        ]
    );
    assert_eq!(extractor.phase(), Phase::Done);
    assert_eq!(extractor.finish(), Ok(()));
}

#[test]
fn extract_all_into_a_directory_creates_no_destination() {
    let mut extractor = open(SAMPLE).extract_all(Destination::Directory).unwrap();
    assert_eq!(extractor.phase(), Phase::DestinationPrepared);
    let steps = run(&mut extractor);
    assert_eq!(steps.len(), 3);
    assert_eq!(steps[1], create("sub"));
    assert_eq!(extractor.finish(), Ok(()));
}

#[test]
fn extract_all_of_an_empty_tree_only_creates_the_destination() {
    let mut extractor = open(r#"{"files": {}}"#).extract_all(Destination::Missing).unwrap();
    assert_eq!(run(&mut extractor), vec![ExtractStep::CreateDestination]);
    assert_eq!(extractor.finish(), Ok(()));
    let mut extractor = open(r#"{"files": {}}"#).extract_all(Destination::Directory).unwrap();
    assert_eq!(run(&mut extractor), vec![]);
    assert_eq!(extractor.phase(), Phase::Done);
}

#[test]
fn extract_all_refuses_a_destination_that_is_no_directory() {
    let started = open(SAMPLE).extract_all(Destination::Other);
    assert!(matches!(started, Err(AsarError::InvalidDirectory)));
    let started = open(r#"{"files": 1}"#).extract_all(Destination::Other);
    assert!(matches!(started, Err(AsarError::InvalidDirectory)));
}

#[test]
fn extract_all_refuses_a_non_numeric_offset_before_any_step() {
    let json = r#"{"files": {"a": {"size": 1, "offset": "0"}, "b": {"size": 1, "offset": "one"}}}"#;
    assert!(matches!(
        open(json).extract_all(Destination::Missing),
        Err(AsarError::JsonHeaderError)
    ));
    assert!(matches!(
        open(json).extract_all(Destination::Directory),
        Err(AsarError::JsonHeaderError)
    ));
}

#[test]
fn extraction_stops_at_the_first_failure() {
    let mut extractor = open(SAMPLE).extract_all(Destination::Directory).unwrap();
    assert_eq!(extractor.next_step(), Some(copy("a.txt", SAMPLE.len() as u64 + 16, 5)));
    assert_eq!(extractor.phase(), Phase::Writing);
    extractor.record(StepOutcome::Completed);
    assert_eq!(extractor.phase(), Phase::DestinationPrepared);
    assert_eq!(extractor.next_step(), Some(create("sub")));
    extractor.record(StepOutcome::IoFailed("permission denied".to_string()));
    assert_eq!(extractor.phase(), Phase::Failed);
    assert_eq!(extractor.next_step(), None);
    extractor.record(StepOutcome::Completed);
    assert_eq!(extractor.phase(), Phase::Failed);
    assert_eq!(extractor.finish(), Err(AsarError::IO("permission denied".to_string())));
}

#[test]
fn a_failed_copy_is_an_unknown_error() {
    let mut extractor = open(SAMPLE).extract_all(Destination::Directory).unwrap();
    assert!(extractor.next_step().is_some());
    extractor.record(StepOutcome::CopyFailed);
    assert_eq!(extractor.next_step(), None);
    assert_eq!(extractor.finish(), Err(AsarError::Unknown));
}

#[test]
fn a_destination_that_cannot_be_created_ends_the_extraction() {
    let mut extractor = open(SAMPLE).extract_all(Destination::Missing).unwrap();
    assert_eq!(extractor.next_step(), Some(ExtractStep::CreateDestination));
    extractor.record(StepOutcome::IoFailed("read-only".to_string()));
    assert_eq!(extractor.next_step(), None);
    assert_eq!(extractor.finish(), Err(AsarError::IO("read-only".to_string())));
}

#[test]
fn a_step_is_handed_out_again_until_it_is_reported() {
    let mut extractor = open(SAMPLE).extract_all(Destination::Missing).unwrap();
    assert_eq!(extractor.next_step(), Some(ExtractStep::CreateDestination));
    assert_eq!(extractor.next_step(), Some(ExtractStep::CreateDestination));
    extractor.record(StepOutcome::Completed);
    let first = extractor.next_step();
    assert_eq!(extractor.next_step(), first);
    assert_eq!(extractor.phase(), Phase::Writing);
}

#[test]
fn a_position_beyond_sixty_four_bits_fails_the_entry() {
    let json = r#"{"files": {"d": {"files": {}}, "far": {"size": 1, "offset": "18446744073709551615"}, "x": {"size": 1, "offset": "0"}}}"#;
    let mut extractor = open(json).extract_all(Destination::Directory).unwrap();
    assert_eq!(run(&mut extractor), vec![create("d")]);
    assert_eq!(extractor.phase(), Phase::Failed);
    assert_eq!(extractor.finish(), Err(AsarError::Unknown));
}
