use link_checker::client::client_settings;
use link_checker::client::REQUEST_TIMEOUT_SECS;

#[test]
fn the_settings_of_a_run() {
    let settings = client_settings();
    assert!(settings.accept_invalid_certs);
    assert!(!settings.follow_redirects);
    assert_eq!(settings.user_agent, "curl/7.54.0");
    assert_eq!(settings.timeout_secs, 20);
    assert_eq!(settings.accept, "text/html, */*;q=0.8");
    assert_eq!(REQUEST_TIMEOUT_SECS, 20);
}
