use github_handler::ingest::{next_step, TaskEvent, TaskOutcome, TaskStep};

#[test]
fn unregistered_repository_is_skipped() {
    assert_eq!(next_step(TaskStep::FindRepository, TaskEvent::Found(None)), TaskStep::Finished(TaskOutcome::Skipped));
}

#[test]
fn full_pass_fetches_stores_and_reports() {
    let mut step = next_step(TaskStep::FindRepository, TaskEvent::Found(Some(7)));
    assert_eq!(step, TaskStep::CountStored { repository_id: 7 });
    step = next_step(step, TaskEvent::Counted(Some(3)));
    assert_eq!(step, TaskStep::FetchContributors { repository_id: 7 });
    step = next_step(step, TaskEvent::Fetched);
    assert_eq!(step, TaskStep::StoreContributors { repository_id: 7 });
    step = next_step(step, TaskEvent::Stored);
    assert_eq!(step, TaskStep::Report { repository_id: 7 });
    step = next_step(step, TaskEvent::Reported);
    assert_eq!(step, TaskStep::Finished(TaskOutcome::Processed));
}

#[test]
fn enough_stored_contributors_go_straight_to_the_report() {
    let step = next_step(TaskStep::CountStored { repository_id: 7 }, TaskEvent::Counted(Some(150)));
    assert_eq!(step, TaskStep::Report { repository_id: 7 });
}

#[test]
fn unreadable_count_means_fetching() {
    let step = next_step(TaskStep::CountStored { repository_id: 7 }, TaskEvent::Counted(None));
    assert_eq!(step, TaskStep::FetchContributors { repository_id: 7 });
}

#[test]
fn failure_ends_the_task_and_finished_stays_finished() {
    let step = next_step(TaskStep::StoreContributors { repository_id: 7 }, TaskEvent::Failed);
    assert_eq!(step, TaskStep::Finished(TaskOutcome::Failed));
    let again = next_step(step, TaskEvent::Reported);
    assert_eq!(again, TaskStep::Finished(TaskOutcome::Failed));
}

#[test]
fn unrelated_event_leaves_the_step() {
    let step = next_step(TaskStep::Report { repository_id: 7 }, TaskEvent::Fetched);
    assert_eq!(step, TaskStep::Report { repository_id: 7 });
}
