use argus_core::model::{PipelineState, Stage};

const ALL: &[PipelineState] = &[
    PipelineState::Fetched,
    PipelineState::Decided,
    PipelineState::Analyzing,
    PipelineState::Analyzed,
    PipelineState::Embedded,
    PipelineState::Waiting,
    PipelineState::Complete,
    PipelineState::Discarded,
    PipelineState::Error,
];

#[test]
fn every_state_round_trips_through_its_column_value() {
    for state in ALL {
        assert_eq!(
            PipelineState::from_column(state.as_str()),
            Some(*state),
            "{state:?} does not round-trip"
        );
    }
}

#[test]
fn column_values_are_unique() {
    let mut seen: Vec<&str> = ALL.iter().map(PipelineState::as_str).collect();
    seen.sort_unstable();
    let before = seen.len();
    seen.dedup();
    assert_eq!(before, seen.len(), "two states share a column value");
}

#[test]
fn an_unknown_column_value_is_rejected() {
    assert_eq!(PipelineState::from_column("banana"), None);
    assert_eq!(PipelineState::from_column(""), None);
}

#[test]
fn the_terminal_set_and_the_terminal_predicate_agree() {
    let from_predicate: Vec<&str> = ALL
        .iter()
        .filter(|s| s.is_terminal())
        .map(PipelineState::as_str)
        .collect();
    let mut declared = PipelineState::terminal_columns().to_vec();
    let mut derived = from_predicate;
    declared.sort_unstable();
    derived.sort_unstable();
    assert_eq!(declared, derived);
}

#[test]
fn in_flight_states_are_not_terminal() {
    for state in [
        PipelineState::Fetched,
        PipelineState::Decided,
        PipelineState::Analyzed,
        PipelineState::Embedded,
        PipelineState::Waiting,
    ] {
        assert!(!state.is_terminal(), "{state:?} must not be terminal");
    }
}

#[test]
fn stage_queue_names_are_unique_and_prefixed() {
    let mut names: Vec<&str> = Stage::all().iter().map(Stage::queue_name).collect();
    assert!(names.iter().all(|n| n.starts_with("argus_")));
    names.sort_unstable();
    let before = names.len();
    names.dedup();
    assert_eq!(before, names.len(), "two stages share a queue name");
}

#[test]
fn state_column_values_are_exact() {
    assert_eq!(PipelineState::Waiting.as_str(), "waiting");
    assert_eq!(PipelineState::Error.as_str(), "error");
    assert_eq!(Stage::Notify.queue_name(), "argus_notify");
    assert_eq!(Stage::all().len(), 7);
}
