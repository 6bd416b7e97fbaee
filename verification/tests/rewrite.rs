use link_checker::rewrite::actions_pattern;
use link_checker::rewrite::actions_rewrite;
use link_checker::rewrite::repository_template;

#[test]
fn a_workflow_page_leads_to_its_repository() {
    assert_eq!(
        actions_rewrite("https://github.com/acme/widgets/actions?workflow=ci"),
        Some("https://github.com/acme/widgets".to_string())
    );
}

#[test]
fn the_query_is_optional() {
    assert_eq!(
        actions_rewrite("https://github.com/acme/widgets/actions"),
        Some("https://github.com/acme/widgets".to_string())
    );
}

#[test]
fn any_query_is_taken() {
    assert_eq!(
        actions_rewrite("https://github.com/acme/widgets/actions?query=x"),
        Some("https://github.com/acme/widgets".to_string())
    );
    assert_eq!(
        actions_rewrite("https://github.com/acme/widgets/actions?"),
        Some("https://github.com/acme/widgets".to_string())
    );
    assert_eq!(
        actions_rewrite("https://github.com/acme/widgets/actions?workflow=ci&branch=main#top"),
        Some("https://github.com/acme/widgets".to_string())
    );
}

#[test]
fn other_addresses_lead_nowhere() {
    assert_eq!(actions_rewrite("https://github.com/acme/widgets"), None);
    assert_eq!(actions_rewrite("https://github.com/acme"), None);
    assert_eq!(actions_rewrite("https://example.org/acme/widgets/actions"), None);
    assert_eq!(actions_rewrite("http://github.com/acme/widgets/actions"), None);
    assert_eq!(actions_rewrite("https://githubXcom/acme/widgets/actions"), None);
    assert_eq!(actions_rewrite("https://github.com//widgets/actions"), None);
    assert_eq!(actions_rewrite("https://github.com/acme/widgets/actionsx"), None);
    assert_eq!(actions_rewrite("https://github.com/acme?x=/widgets/actions"), None);
    assert_eq!(actions_rewrite(""), None);
}

#[test]
fn a_longer_path_leads_nowhere() {
    assert_eq!(actions_rewrite("https://github.com/acme/widgets/actions/runs/7"), None);
    assert_eq!(actions_rewrite("https://github.com/acme/widgets/actions/"), None);
    assert_eq!(actions_rewrite("https://github.com/acme/widgets/tree/actions"), None);
}

#[test]
fn the_address_is_taken_whole() {
    assert_eq!(actions_rewrite(" https://github.com/acme/widgets/actions"), None);
    assert_eq!(actions_rewrite("see https://github.com/acme/widgets/actions?workflow=ci"), None);
    assert_eq!(actions_rewrite("https://github.com/acme/widgets/actions\n"), None);
}

#[test]
fn the_rewritten_address_is_not_rewritten_again() {
    let once = actions_rewrite("https://github.com/acme/widgets/actions?workflow=ci").expect("the rewrite applies");
    assert_eq!(actions_rewrite(&once), None);
}

#[test]
fn the_expression_and_the_template() {
    assert_eq!(
        actions_pattern(),
        r"^https://github\.com/(?P<org>[^/?#]+)/(?P<repo>[^/?#]+)/actions(?:\?.*)?$"
    );
    assert_eq!(repository_template(), "https://github.com/$org/$repo");
}
