use link_checker::outcome::CheckOutcome;
use link_checker::outcome::CheckerError;

#[test]
fn a_status_with_a_redirect_target_is_reported_with_it() {
    let error = CheckerError::HttpError { status: 301, location: Some("https://example.org/new".to_string()) };
    assert_eq!(error.message("http://example.org/old"), "[301] http://example.org/old -> https://example.org/new");
}

#[test]
fn a_status_without_a_redirect_target_is_reported_alone() {
    let error = CheckerError::HttpError { status: 503, location: None };
    assert_eq!(error.message("http://example.org"), "[503] http://example.org");
}

#[test]
fn a_transport_failure_is_written_out() {
    let error = CheckerError::ReqwestError { error: "connection refused".to_string() };
    assert_eq!(error.message("http://example.org"), "ReqwestError { error: connection refused }");
}

#[test]
fn the_placeholder_is_written_out_too() {
    assert_eq!(CheckerError::NotTried.message("http://example.org"), "NotTried");
}

#[test]
fn no_message_is_empty() {
    let errors = vec![
        CheckerError::NotTried,
        CheckerError::HttpError { status: 0, location: None },
        CheckerError::HttpError { status: 302, location: Some(String::new()) },
        CheckerError::ReqwestError { error: String::new() },
    ];
    for error in errors.iter() {
        assert!(!error.message("").is_empty());
    }
}

#[test]
fn a_message_is_the_same_each_time() {
    let error = CheckerError::ReqwestError { error: "timed out".to_string() };
    assert_eq!(error.message("http://a"), error.message("http://a"));
}

#[test]
fn duplicate_copies_an_error() {
    let error = CheckerError::HttpError { status: 307, location: Some("/there".to_string()) };
    assert_eq!(error.duplicate(), error);
    let outcome = CheckOutcome::Failure(CheckerError::ReqwestError { error: "dns".to_string() });
    assert_eq!(outcome.duplicate(), outcome);
    assert_eq!(CheckOutcome::Success.duplicate(), CheckOutcome::Success);
}

#[test]
fn the_marks_differ() {
    let failure = CheckOutcome::Failure(CheckerError::HttpError { status: 500, location: None });
    assert_eq!(CheckOutcome::Success.marker(), "\u{2714} ");
    assert_eq!(failure.marker(), "\u{2718} ");
    assert_ne!(CheckOutcome::Success.marker(), failure.marker());
}
