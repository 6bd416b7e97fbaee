use link_checker::extract::candidates;
use link_checker::extract::gather;
use link_checker::extract::fragment_links;
use link_checker::extract::html_links;
use link_checker::extract::piece_links;
use link_checker::extract::ExtractError;
use link_checker::extract::Markup;

fn strings(list: &[&str]) -> Vec<String> {
    list.iter().map(|s| s.to_string()).collect()
}

#[test]
fn an_empty_document_has_no_candidates() {
    assert_eq!(candidates(""), Ok(Vec::new()));
}

#[test]
fn text_without_links_has_no_candidates() {
    assert_eq!(candidates("# Title\n\nJust *some* text, and `code`.\n"), Ok(Vec::new()));
}

#[test]
fn links_and_images_give_their_destinations() {
    let document = "See [the site](https://example.org/a) and ![a picture](https://example.org/b.png \"title\").\n";
    assert_eq!(candidates(document), Ok(strings(&["https://example.org/a", "https://example.org/b.png"])));
}

#[test]
fn reference_links_and_autolinks_count() {
    let document = "A [reference][r] and <https://example.org/auto>.\n\n[r]: https://example.org/ref\n";
    assert_eq!(candidates(document), Ok(strings(&["https://example.org/ref", "https://example.org/auto"])));
}

#[test]
fn candidates_are_not_filtered_here() {
    let document = "[mail](mailto:someone@example.org) [local](#section) [twice](http://a) [twice](http://a)\n";
    assert_eq!(candidates(document), Ok(strings(&["mailto:someone@example.org", "#section", "http://a", "http://a"])));
}

#[test]
fn raw_html_gives_sources_first_and_references_after() {
    let document = "<div><a href=\"https://example.org/one\">one</a><img src=\"https://example.org/two.png\"><a name=\"x\">no target</a><a href=\"https://example.org/three\">three</a></div>\n";
    assert_eq!(
        candidates(document),
        Ok(strings(&["https://example.org/two.png", "https://example.org/one", "https://example.org/three"]))
    );
}

#[test]
fn markdown_and_html_mix_in_the_order_of_the_document() {
    let document = "[first](http://first)\n\n<p><img src=\"http://second\"></p>\n\n[third](http://third)\n";
    assert_eq!(candidates(document), Ok(strings(&["http://first", "http://second", "http://third"])));
}

#[test]
fn gather_reads_pieces() {
    let pieces = vec![
        Markup::Other,
        Markup::Link("http://a".to_string()),
        Markup::Other,
        Markup::Image("http://b".to_string()),
        Markup::Html("<a href='http://c'>c</a><img src='http://d'>".to_string()),
        Markup::Html("plain".to_string()),
        Markup::InlineHtml("<a href=\"http://e\">".to_string()),
        Markup::InlineHtml("</a>".to_string()),
    ];
    assert_eq!(gather(&pieces), Ok(strings(&["http://a", "http://b", "http://d", "http://c", "http://e"])));
    assert_eq!(gather(&Vec::new()), Ok(Vec::new()));
}

#[test]
fn html_links_joins_what_was_found() {
    let images = Some(vec![Some("http://i1".to_string()), None, Some("http://i2".to_string())]);
    let anchors = Some(vec![None, Some("http://a1".to_string())]);
    assert_eq!(html_links(images, anchors), Ok(strings(&["http://i1", "http://i2", "http://a1"])));
    assert_eq!(html_links(Some(Vec::new()), Some(Vec::new())), Ok(Vec::new()));
}

#[test]
fn html_links_fails_where_nothing_could_be_searched() {
    assert_eq!(html_links(None, Some(Vec::new())), Err(ExtractError::Html));
    assert_eq!(html_links(Some(vec![Some("http://i".to_string())]), None), Err(ExtractError::Html));
    assert_eq!(html_links(None, None), Err(ExtractError::Html));
}

#[test]
fn tags_within_a_paragraph_are_searched() {
    let document = "Some text with <a href=\"https://example.org/in\">a link</a> and <img src=\"http://example.org/i.png\"> in it.\n";
    assert_eq!(candidates(document), Ok(strings(&["https://example.org/in", "http://example.org/i.png"])));
}

#[test]
fn a_tag_may_run_over_a_line_break_in_a_quote() {
    assert_eq!(
        candidates("> text <a\n> href=\"https://example.org/quoted\">link</a>\n"),
        Ok(strings(&["https://example.org/quoted"]))
    );
    assert_eq!(candidates("> <a href=\"\n\u{20ac}\">"), Ok(strings(&["\n\u{20ac}"])));
    assert_eq!(candidates("- <a href=\"\n\u{4e2d}\u{6587}\">\n"), Ok(strings(&["\n\u{4e2d}\u{6587}"])));
}

#[test]
fn text_in_any_script_is_read() {
    let document = "# \u{00dc}bersicht \u{2014} \u{1f980}\n\n* [\u{4e2d}\u{6587}](https://example.org/\u{4e2d}\u{6587}) \u{2013} caf\u{e9}\n\n> \u{00ab}[quoted](http://example.org/q)\u{00bb}\n";
    assert_eq!(
        candidates(document),
        Ok(strings(&["https://example.org/\u{4e2d}\u{6587}", "http://example.org/q"]))
    );
}

#[test]
fn fragment_links_searches_one_run_of_html() {
    assert_eq!(
        fragment_links("<p><a href=\"http://a\"><img src=\"http://i\"></a></p>"),
        Ok(strings(&["http://i", "http://a"]))
    );
    assert_eq!(fragment_links(""), Ok(Vec::new()));
    assert_eq!(fragment_links("</a>"), Ok(Vec::new()));
}

#[test]
fn piece_links_reads_one_piece() {
    assert_eq!(piece_links(&Markup::Link("http://a".to_string())), Ok(strings(&["http://a"])));
    assert_eq!(piece_links(&Markup::Image("http://b".to_string())), Ok(strings(&["http://b"])));
    assert_eq!(piece_links(&Markup::Html("<img src=\"http://c\">\n".to_string())), Ok(strings(&["http://c"])));
    assert_eq!(piece_links(&Markup::InlineHtml("<a href=\"http://d\">".to_string())), Ok(strings(&["http://d"])));
    assert_eq!(piece_links(&Markup::Other), Ok(Vec::new()));
}
