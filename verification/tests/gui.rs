use eli_lib::error::{EliError, ErrorKind};
use eli_lib::gui::{attempt_handling, retry_prompt, GuiState, LoadProgress, RowState};
use eli_lib::plugin_load::{LoadResult, LoadStatus, LoadSummary, LocalBoostHandling};

fn two_results() -> LoadSummary {
    LoadSummary {
        results: vec![
            LoadResult { path: "first.7z".to_owned(), result: Ok(LoadStatus::Loaded) },
            LoadResult {
                path: "second.7z".to_owned(),
                result: Err(EliError::new(ErrorKind::Other, "failed to extract".to_owned())),
            },
        ],
    }
}

fn marks_only_the_dispatched_package() {
    let first = "first.7z".to_owned();
    let second = "second.7z".to_owned();
    let mut state = GuiState::new(vec![first.clone(), second.clone()]);
    state.begin(vec![first.clone(), second], false);

    state.apply_progress(LoadProgress::Started { path: first });

    assert_eq!(state.rows[0].state, RowState::Loading);
    assert_eq!(state.rows[1].state, RowState::Waiting);
}

fn retries_only_failed_results() {
    let mut state = GuiState::new(vec!["first.7z".to_owned()]);
    assert!(!state.finish(two_results()));

    assert_eq!(state.failed_paths, vec!["second.7z".to_owned()]);
    assert_eq!(state.rows.len(), 2);
}

#[test]
fn load_gui_progress_only_marks_the_dispatched_package_as_loading() {
    marks_only_the_dispatched_package();
}

#[test]
fn load_gui_failed_results_are_the_only_paths_retried() {
    retries_only_failed_results();
}

#[test]
fn load_progress_only_marks_the_dispatched_package_as_loading() {
    marks_only_the_dispatched_package();
}

#[test]
fn load_failed_results_are_the_only_paths_retried() {
    retries_only_failed_results();
}

#[test]
fn finishing_shows_each_result_and_a_retry_reloads_the_failures() {
    let mut state = GuiState::new(vec!["first.7z".to_owned(), "second.7z".to_owned()]);
    state.finish(two_results());
    assert_eq!(state.rows[0].state, RowState::Succeeded);
    assert_eq!(state.rows[1].state, RowState::Failed);
    assert_eq!(state.rows[1].detail, "failed to extract");
    let rows = state.rows();
    assert_eq!(rows[1].label, "second.7z");
    assert_eq!(rows[1].icon_color, (220, 38, 38));
    assert!(rows[1].show_status);

    let (attempt, localboost) = state.start_attempt(vec!["first.7z".to_owned(), "second.7z".to_owned()], false);
    assert_eq!(attempt, vec!["second.7z".to_owned()]);
    assert!(!localboost);
    assert_eq!(state.rows.len(), 1);
    assert_eq!(state.rows[0].state, RowState::Waiting);
    assert!(state.failed_paths.is_empty());
}

#[test]
fn progress_marks_finished_packages_and_ignores_unknown_ones() {
    let mut state = GuiState::new(vec!["a.7z".to_owned()]);
    state.apply_progress(LoadProgress::Finished {
        path: "a.7z".to_owned(),
        result: Err("boom".to_owned()),
    });
    assert_eq!(state.rows[0].state, RowState::Failed);
    assert_eq!(state.rows[0].detail, "boom");
    state.apply_progress(LoadProgress::Started { path: "other.7z".to_owned() });
    assert_eq!(state.rows[0].state, RowState::Failed);
}

#[test]
fn a_load_that_cannot_start_fails_every_package() {
    let mut state = GuiState::new(vec!["a.7z".to_owned()]);
    state.fail_to_start(
        vec!["a.7z".to_owned(), "b.7z".to_owned()],
        EliError::new(ErrorKind::Unsupported, "not here".to_owned()),
    );
    assert_eq!(state.failed_paths.len(), 2);
    assert!(state.rows.iter().all(|row| row.state == RowState::Failed && row.detail == "not here"));
    assert_eq!(attempt_handling(true, LocalBoostHandling::Ignore), LocalBoostHandling::Load);
    assert_eq!(attempt_handling(false, LocalBoostHandling::Ignore), LocalBoostHandling::Ignore);
    assert_eq!(retry_prompt(), "部分插件包加载失败，请重试");
}
