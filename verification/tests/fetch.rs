use link_checker::fetch::Action;
use link_checker::fetch::Event;
use link_checker::fetch::Fetcher;
use link_checker::fetch::Phase;
use link_checker::fetch::Reply;
use link_checker::fetch::MAX_ATTEMPTS;
use link_checker::fetch::STATUS_NOT_FOUND;
use link_checker::fetch::STATUS_OK;
use link_checker::handles::MaxHandles;
use link_checker::outcome::CheckOutcome;
use link_checker::outcome::CheckerError;

fn status(code: u16) -> Event {
    Event::Reply(Reply::Status { status: code, location: None })
}

fn redirect(code: u16, target: &str) -> Event {
    Event::Reply(Reply::Status { status: code, location: Some(target.to_string()) })
}

fn transport(error: &str) -> Event {
    Event::Reply(Reply::Transport { error: error.to_string() })
}

fn request(url: &str) -> Action {
    Action::Request { url: url.to_string() }
}

#[test]
fn the_constants_of_a_check() {
    assert_eq!(MAX_ATTEMPTS, 5);
    assert_eq!(STATUS_OK, 200);
    assert_eq!(STATUS_NOT_FOUND, 404);
}

#[test]
fn a_new_fetcher_waits() {
    let fetcher = Fetcher::new("http://example.org".to_string());
    assert_eq!(fetcher.url(), "http://example.org");
    assert_eq!(fetcher.phase(), Phase::Waiting);
    assert_eq!(fetcher.rewritten(), None);
    assert_eq!(fetcher.permits(), 0);
    assert!(!fetcher.is_concluded());
    assert_eq!(fetcher.outcome(), None);
    assert_eq!(fetcher.pending(), Action::Wait { millis: 500 });
}

#[test]
fn a_fetcher_takes_its_permit_and_asks_for_a_request() {
    let mut pool = MaxHandles::new(1);
    let mut fetcher = Fetcher::new("http://example.org".to_string());
    assert_eq!(fetcher.step(&mut pool, Event::Wake), request("http://example.org"));
    assert_eq!(fetcher.phase(), Phase::Attempt { done: 0 });
    assert_eq!(fetcher.permits(), 1);
    assert_eq!(pool.in_use(), 1);
}

#[test]
fn a_fetcher_without_a_permit_sleeps_and_asks_again() {
    let mut pool = MaxHandles::new(1);
    let mut first = Fetcher::new("http://a.example".to_string());
    let mut second = Fetcher::new("http://b.example".to_string());
    assert_eq!(first.step(&mut pool, Event::Wake), request("http://a.example"));
    assert_eq!(second.step(&mut pool, Event::Wake), Action::Wait { millis: 500 });
    assert_eq!(second.step(&mut pool, Event::Wake), Action::Wait { millis: 500 });
    assert_eq!(second.phase(), Phase::Waiting);
    assert_eq!(pool.in_use(), 1);
    assert_eq!(first.step(&mut pool, status(200)), Action::Done);
    assert_eq!(pool.in_use(), 0);
    assert_eq!(second.step(&mut pool, Event::Wake), request("http://b.example"));
    assert_eq!(pool.in_use(), 1);
}

#[test]
fn status_ok_ends_the_check_at_once() {
    let mut pool = MaxHandles::new(20);
    let mut fetcher = Fetcher::new("http://example.org".to_string());
    fetcher.step(&mut pool, Event::Wake);
    assert_eq!(fetcher.step(&mut pool, status(200)), Action::Done);
    assert_eq!(fetcher.phase(), Phase::Succeeded);
    assert!(fetcher.is_concluded());
    assert_eq!(fetcher.outcome(), Some(CheckOutcome::Success));
    assert_eq!(fetcher.permits(), 0);
    assert_eq!(pool.in_use(), 0);
}

#[test]
fn success_after_failures_is_success() {
    let mut pool = MaxHandles::new(20);
    let mut fetcher = Fetcher::new("http://example.org".to_string());
    fetcher.step(&mut pool, Event::Wake);
    assert_eq!(fetcher.step(&mut pool, transport("reset")), request("http://example.org"));
    assert_eq!(fetcher.step(&mut pool, status(500)), request("http://example.org"));
    assert_eq!(fetcher.phase(), Phase::Attempt { done: 2 });
    assert_eq!(fetcher.step(&mut pool, status(200)), Action::Done);
    assert_eq!(fetcher.outcome(), Some(CheckOutcome::Success));
    assert_eq!(pool.in_use(), 0);
}

#[test]
fn five_transport_failures_fail_with_the_last() {
    let mut pool = MaxHandles::new(20);
    let mut fetcher = Fetcher::new("http://example.org".to_string());
    let mut requests = 0;
    let mut action = fetcher.step(&mut pool, Event::Wake);
    let errors = ["first", "second", "third", "fourth", "fifth"];
    for error in errors.iter() {
        assert_eq!(action, request("http://example.org"));
        requests += 1;
        assert_eq!(pool.in_use(), 1);
        action = fetcher.step(&mut pool, transport(error));
    }
    assert_eq!(requests, 5);
    assert_eq!(action, Action::Done);
    assert_eq!(fetcher.phase(), Phase::Failed);
    assert_eq!(
        fetcher.outcome(),
        Some(CheckOutcome::Failure(CheckerError::ReqwestError { error: "fifth".to_string() }))
    );
    assert_eq!(pool.in_use(), 0);
}

#[test]
fn four_failures_are_not_enough_to_fail() {
    let mut pool = MaxHandles::new(20);
    let mut fetcher = Fetcher::new("http://example.org".to_string());
    fetcher.step(&mut pool, Event::Wake);
    for _ in 0..4 {
        assert_eq!(fetcher.step(&mut pool, transport("down")), request("http://example.org"));
    }
    assert_eq!(fetcher.phase(), Phase::Attempt { done: 4 });
    assert!(!fetcher.is_concluded());
    assert_eq!(fetcher.outcome(), None);
    assert_eq!(pool.in_use(), 1);
}

#[test]
fn the_last_failure_is_the_one_that_counts() {
    let mut pool = MaxHandles::new(20);
    let mut fetcher = Fetcher::new("http://example.org".to_string());
    fetcher.step(&mut pool, Event::Wake);
    fetcher.step(&mut pool, status(500));
    fetcher.step(&mut pool, transport("reset"));
    fetcher.step(&mut pool, status(502));
    fetcher.step(&mut pool, transport("timeout"));
    assert_eq!(fetcher.step(&mut pool, status(503)), Action::Done);
    assert_eq!(
        fetcher.outcome(),
        Some(CheckOutcome::Failure(CheckerError::HttpError { status: 503, location: None }))
    );
}

#[test]
fn a_redirection_keeps_its_target() {
    let mut pool = MaxHandles::new(20);
    let mut fetcher = Fetcher::new("http://example.org".to_string());
    fetcher.step(&mut pool, Event::Wake);
    for _ in 0..5 {
        fetcher.step(&mut pool, redirect(301, "https://example.org/"));
    }
    assert_eq!(
        fetcher.outcome(),
        Some(CheckOutcome::Failure(CheckerError::HttpError {
            status: 301,
            location: Some("https://example.org/".to_string())
        }))
    );
}

#[test]
fn a_redirection_without_a_target_has_none() {
    let mut pool = MaxHandles::new(20);
    let mut fetcher = Fetcher::new("http://example.org".to_string());
    fetcher.step(&mut pool, Event::Wake);
    for _ in 0..5 {
        fetcher.step(&mut pool, status(302));
    }
    assert_eq!(
        fetcher.outcome(),
        Some(CheckOutcome::Failure(CheckerError::HttpError { status: 302, location: None }))
    );
}

#[test]
fn a_target_is_kept_for_redirections_only() {
    for code in [201u16, 299, 400, 404, 500, 503] {
        let mut pool = MaxHandles::new(20);
        let mut fetcher = Fetcher::new("http://example.org".to_string());
        fetcher.step(&mut pool, Event::Wake);
        for _ in 0..5 {
            fetcher.step(&mut pool, redirect(code, "https://example.org/"));
        }
        assert_eq!(
            fetcher.outcome(),
            Some(CheckOutcome::Failure(CheckerError::HttpError { status: code, location: None }))
        );
    }
    for code in [300u16, 301, 308, 399] {
        let mut pool = MaxHandles::new(20);
        let mut fetcher = Fetcher::new("http://example.org".to_string());
        fetcher.step(&mut pool, Event::Wake);
        for _ in 0..5 {
            fetcher.step(&mut pool, redirect(code, "/x"));
        }
        assert_eq!(
            fetcher.outcome(),
            Some(CheckOutcome::Failure(CheckerError::HttpError { status: code, location: Some("/x".to_string()) }))
        );
    }
}

#[test]
fn not_found_on_a_workflow_page_starts_a_fresh_check() {
    let mut pool = MaxHandles::new(20);
    let mut fetcher = Fetcher::new("https://github.com/acme/widgets/actions?workflow=ci".to_string());
    assert_eq!(
        fetcher.step(&mut pool, Event::Wake),
        request("https://github.com/acme/widgets/actions?workflow=ci")
    );
    assert_eq!(fetcher.step(&mut pool, status(404)), request("https://github.com/acme/widgets"));
    assert_eq!(fetcher.url(), "https://github.com/acme/widgets/actions?workflow=ci");
    assert_eq!(fetcher.rewritten(), Some("https://github.com/acme/widgets"));
    assert_eq!(fetcher.phase(), Phase::Attempt { done: 0 });
    assert_eq!(fetcher.permits(), 2);
    assert_eq!(pool.in_use(), 2);
    assert_eq!(fetcher.step(&mut pool, status(200)), Action::Done);
    assert_eq!(fetcher.outcome(), Some(CheckOutcome::Success));
    assert_eq!(fetcher.url(), "https://github.com/acme/widgets/actions?workflow=ci");
    assert_eq!(fetcher.permits(), 0);
    assert_eq!(pool.in_use(), 0);
}

#[test]
fn the_fresh_check_has_five_attempts_of_its_own() {
    let mut pool = MaxHandles::new(20);
    let mut fetcher = Fetcher::new("https://github.com/acme/widgets/actions".to_string());
    fetcher.step(&mut pool, Event::Wake);
    fetcher.step(&mut pool, transport("reset"));
    fetcher.step(&mut pool, status(500));
    assert_eq!(fetcher.step(&mut pool, status(404)), request("https://github.com/acme/widgets"));
    for _ in 0..4 {
        assert_eq!(fetcher.step(&mut pool, status(404)), request("https://github.com/acme/widgets"));
    }
    assert_eq!(fetcher.step(&mut pool, status(404)), Action::Done);
    assert_eq!(
        fetcher.outcome(),
        Some(CheckOutcome::Failure(CheckerError::HttpError { status: 404, location: None }))
    );
    assert_eq!(fetcher.rewritten(), Some("https://github.com/acme/widgets"));
    assert_eq!(pool.in_use(), 0);
}

#[test]
fn the_rewrite_is_made_once_only() {
    let mut pool = MaxHandles::new(20);
    let mut fetcher = Fetcher::new("https://github.com/acme/widgets/actions".to_string());
    fetcher.step_with(&mut pool, Event::Wake, None);
    assert_eq!(
        fetcher.step_with(&mut pool, status(404), Some("https://github.com/acme/widgets/actions".to_string())),
        request("https://github.com/acme/widgets/actions")
    );
    assert_eq!(
        fetcher.step_with(&mut pool, status(404), Some("https://github.com/acme".to_string())),
        request("https://github.com/acme/widgets/actions")
    );
    assert_eq!(fetcher.rewritten(), Some("https://github.com/acme/widgets/actions"));
    assert_eq!(fetcher.phase(), Phase::Attempt { done: 1 });
}

#[test]
fn not_found_elsewhere_is_a_failed_attempt() {
    let mut pool = MaxHandles::new(20);
    let mut fetcher = Fetcher::new("https://example.org/missing".to_string());
    fetcher.step(&mut pool, Event::Wake);
    assert_eq!(fetcher.step(&mut pool, status(404)), request("https://example.org/missing"));
    assert_eq!(fetcher.rewritten(), None);
    assert_eq!(fetcher.phase(), Phase::Attempt { done: 1 });
    assert_eq!(pool.in_use(), 1);
}

#[test]
fn another_status_on_a_workflow_page_is_a_failed_attempt() {
    let mut pool = MaxHandles::new(20);
    let mut fetcher = Fetcher::new("https://github.com/acme/widgets/actions".to_string());
    fetcher.step(&mut pool, Event::Wake);
    assert_eq!(fetcher.step(&mut pool, status(500)), request("https://github.com/acme/widgets/actions"));
    assert_eq!(fetcher.rewritten(), None);
}

#[test]
fn the_fresh_check_waits_for_a_permit_of_its_own() {
    let mut pool = MaxHandles::new(1);
    let mut fetcher = Fetcher::new("https://github.com/acme/widgets/actions".to_string());
    fetcher.step(&mut pool, Event::Wake);
    assert_eq!(fetcher.step(&mut pool, status(404)), Action::Wait { millis: 500 });
    assert_eq!(fetcher.phase(), Phase::Waiting);
    assert_eq!(fetcher.rewritten(), Some("https://github.com/acme/widgets"));
    assert_eq!(fetcher.permits(), 1);
    assert_eq!(pool.in_use(), 1);
    assert_eq!(fetcher.step(&mut pool, Event::Wake), Action::Wait { millis: 500 });
    assert_eq!(pool.in_use(), 1);
}

#[test]
fn events_that_do_not_fit_change_nothing() {
    let mut pool = MaxHandles::new(20);
    let mut fetcher = Fetcher::new("http://example.org".to_string());
    assert_eq!(fetcher.step(&mut pool, status(200)), Action::Wait { millis: 500 });
    assert_eq!(fetcher.phase(), Phase::Waiting);
    assert_eq!(pool.in_use(), 0);
    fetcher.step(&mut pool, Event::Wake);
    assert_eq!(fetcher.step(&mut pool, Event::Wake), request("http://example.org"));
    assert_eq!(fetcher.phase(), Phase::Attempt { done: 0 });
    assert_eq!(pool.in_use(), 1);
    fetcher.step(&mut pool, status(200));
    assert_eq!(fetcher.step(&mut pool, transport("late")), Action::Done);
    assert_eq!(fetcher.step(&mut pool, Event::Wake), Action::Done);
    assert_eq!(fetcher.outcome(), Some(CheckOutcome::Success));
    assert_eq!(pool.in_use(), 0);
}

#[test]
fn every_permit_taken_comes_back() {
    let scripts: Vec<Vec<Event>> = vec![
        vec![status(200)],
        vec![status(500), status(500), status(500), status(500), status(500)],
        vec![transport("a"), transport("b"), status(200)],
        vec![status(404), status(200)],
        vec![status(404), status(404), status(404), status(404), status(404), status(404)],
        vec![redirect(301, "/x"), status(404), transport("c"), status(200)],
    ];
    for script in scripts {
        let mut pool = MaxHandles::new(20);
        let mut fetcher = Fetcher::new("https://github.com/acme/widgets/actions".to_string());
        let mut taken = 0;
        let mut given_back = 0;
        let mut before = pool.in_use();
        fetcher.step(&mut pool, Event::Wake);
        taken += pool.in_use() - before;
        for event in script {
            before = pool.in_use();
            fetcher.step(&mut pool, event);
            let after = pool.in_use();
            if after > before {
                taken += after - before;
            } else {
                given_back += before - after;
            }
            assert_eq!(pool.in_use(), fetcher.permits() as u32);
        }
        assert!(fetcher.is_concluded());
        assert_eq!(taken, given_back);
        assert_eq!(taken, if fetcher.rewritten().is_some() { 2 } else { 1 });
        assert_eq!(pool.in_use(), 0);
    }
}

#[test]
fn a_failure_is_never_the_placeholder() {
    let scripts: Vec<Vec<Event>> = vec![
        vec![status(500), status(500), status(500), status(500), status(500)],
        vec![status(404), status(404), status(404), status(404), status(404), status(404)],
        vec![transport("a"), transport("b"), transport("c"), transport("d"), transport("e")],
    ];
    for script in scripts {
        let mut pool = MaxHandles::new(20);
        let mut fetcher = Fetcher::new("https://github.com/acme/widgets/actions".to_string());
        fetcher.step(&mut pool, Event::Wake);
        for event in script {
            fetcher.step(&mut pool, event);
        }
        match fetcher.outcome() {
            Some(CheckOutcome::Failure(error)) => assert_ne!(error, CheckerError::NotTried),
            other => panic!("the check should have failed: {:?}", other),
        }
    }
}
