use rusqlite::Error as SqlError;
use word_index::errors::IngestError;
use word_index::store::append_result;
use word_index::store::outcome_of;
use word_index::store::resolve_intern;
use word_index::store::stop_verdict;
use word_index::store::TokenOutcome;

#[test]
fn stop_verdict_on_given_counts() {
    assert_eq!(stop_verdict(Ok(0)), Ok(false));
    assert_eq!(stop_verdict(Ok(1)), Ok(true));
    assert_eq!(stop_verdict(Ok(2)), Ok(true));
    assert_eq!(
        stop_verdict(Err(SqlError::QueryReturnedNoRows)),
        Err(IngestError::Storage),
    );
}

#[test]
fn resolve_intern_on_given_results() {
    assert_eq!(resolve_intern(Ok(5), Ok(5)), Ok(5));
    assert_eq!(
        resolve_intern(Err(SqlError::StatementChangedRows(0)), Ok(7)),
        Ok(7),
    );
    assert_eq!(
        resolve_intern(
            Err(SqlError::StatementChangedRows(0)),
            Err(SqlError::QueryReturnedNoRows),
        ),
        Err(IngestError::Storage),
    );
}

#[test]
fn append_result_on_given_results() {
    assert_eq!(append_result(Ok(11)), Ok(11));
    assert_eq!(
        append_result(Err(SqlError::QueryReturnedNoRows)),
        Err(IngestError::Storage),
    );
}

#[test]
fn outcome_of_on_given_step_results() {
    assert_eq!(outcome_of(Err(IngestError::Storage), None), TokenOutcome::Failed);
    assert_eq!(outcome_of(Ok(true), None), TokenOutcome::Skipped);
    assert_eq!(
        outcome_of(Ok(false), Some(Ok((3, 9)))),
        TokenOutcome::Indexed { word_id: 3, relation_id: 9 },
    );
    assert_eq!(
        outcome_of(Ok(false), Some(Err(IngestError::Storage))),
        TokenOutcome::Failed,
    );
}
