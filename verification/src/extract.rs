//! The candidate URLs of a document: the destinations of its links and
//! images, and what the raw HTML in it links to and shows.

use crate::ordered::texts;
use crate::outcome::opt_text;
use pulldown_cmark::Event;
use pulldown_cmark::Parser;
use pulldown_cmark::Tag;
use scraper::Html;
use scraper::Selector;
use vstd::prelude::*;

verus! {

/// One piece of a document, as far as this library reads it.
#[derive(Debug, PartialEq, Eq)]
pub enum Markup {
    /// The start of a link, with its destination.
    Link(String),
    /// The start of an image, with its source.
    Image(String),
    /// A line of a block of raw HTML.
    Html(String),
    /// A tag of raw HTML within a paragraph.
    InlineHtml(String),
    /// Anything else.
    Other,
}

/// A [`Markup`] as plain values.
pub enum MarkupView {
    Link(Seq<char>),
    Image(Seq<char>),
    Html(Seq<char>),
    InlineHtml(Seq<char>),
    Other,
}

impl View for Markup {
    type V = MarkupView;

    open spec fn view(&self) -> MarkupView {
        match *self {
            Markup::Link(url) => MarkupView::Link(url@),
            Markup::Image(url) => MarkupView::Image(url@),
            Markup::Html(html) => MarkupView::Html(html@),
            Markup::InlineHtml(html) => MarkupView::InlineHtml(html@),
            Markup::Other => MarkupView::Other,
        }
    }
}

/// The pieces of a list as plain values.
pub open spec fn markup_views(pieces: Seq<Markup>) -> Seq<MarkupView> {
    Seq::new(pieces.len(), |i: int| pieces[i]@)
}

/// The values of a list of optional strings as plain values.
pub open spec fn value_views(values: Seq<Option<String>>) -> Seq<Option<Seq<char>>> {
    Seq::new(values.len(), |i: int| opt_text(values[i]))
}

/// An optional list of optional strings as plain values.
pub open spec fn found_views(found: Option<Vec<Option<String>>>) -> Option<Seq<Option<Seq<char>>>> {
    match found {
        Some(values) => Some(value_views(values@)),
        None => None,
    }
}

/// The events that `pulldown_cmark::Parser::new` reads in `text`, without
/// extensions, in the order of `into_offset_iter`: a link's or an image's
/// start with its destination, raw HTML of either kind with its text, and
/// `Other` for every other event.
pub uninterp spec fn markdown_events(text: Seq<char>) -> Seq<MarkupView>;

/// What `scraper` finds in `fragment`, parsed by `Html::parse_fragment`: for
/// each element that `Html::select` gives for the selector that
/// `Selector::parse` makes of `selector`, in the order of `select`, the value
/// of its attribute `name` as `Element::attr` gives it. `None` where
/// `selector` does not parse.
pub uninterp spec fn html_attributes(
    fragment: Seq<char>,
    selector: Seq<char>,
    name: Seq<char>,
) -> Option<Seq<Option<Seq<char>>>>;

/// Reads `text` with `pulldown_cmark::Parser::new` and walks the events of
/// `into_offset_iter`, keeping of each only what [`Markup`] holds. The parser
/// takes any text: where a tag of raw HTML runs over a line break inside a
/// quote or a list, it passes over the markers of that line only, which are
/// single bytes, so that no character is cut. Nothing is claimed beyond the
/// name of the result.
#[verifier::external_body]
fn parse_markdown(text: &str) -> (pieces: Vec<Markup>)
    ensures
        markup_views(pieces@) == markdown_events(text@),
{
    let mut pieces = Vec::new();
    for (event, _range) in Parser::new(text).into_offset_iter() {
        pieces.push(
            match event {
                Event::Start(Tag::Link { dest_url, .. }) => Markup::Link(dest_url.to_string()),
                Event::Start(Tag::Image { dest_url, .. }) => Markup::Image(dest_url.to_string()),
                Event::Html(html) => Markup::Html(html.to_string()),
                Event::InlineHtml(html) => Markup::InlineHtml(html.to_string()),
                _ => Markup::Other,
            },
        );
    }
    pieces
}

/// Parses `selector` with `scraper::Selector::parse` and `fragment` with
/// `scraper::Html::parse_fragment`, and asks each element of `Html::select`
/// for its attribute `name` with `Element::attr`. Nothing is claimed beyond
/// the name of the result.
#[verifier::external_body]
fn select_attributes(fragment: &str, selector: &str, name: &str) -> (found: Option<
    Vec<Option<String>>,
>)
    ensures
        found_views(found) == html_attributes(fragment@, selector@, name@),
{
    let selector = match Selector::parse(selector) {
        Ok(selector) => selector,
        Err(_) => return None,
    };
    let html = Html::parse_fragment(fragment);
    let mut values = Vec::new();
    for element in html.select(&selector) {
        values.push(element.value().attr(name).map(|value| value.to_string()));
    }
    Some(values)
}

/// Why the candidates of a document could not be had.
#[derive(Debug, PartialEq, Eq)]
pub enum ExtractError {
    /// Raw HTML in the document could not be searched.
    Html,
}

/// The values that are there, in order.
pub open spec fn present(values: Seq<Option<Seq<char>>>) -> Seq<Seq<char>>
    decreases values.len(),
{
    if values.len() == 0 {
        Seq::empty()
    } else {
        match values.last() {
            Some(value) => present(values.drop_last()).push(value),
            None => present(values.drop_last()),
        }
    }
}

/// The candidates of a run of raw HTML, given the `src` of each of its
/// images and the `href` of each of its anchors as far as they have one:
/// first the sources, then the references.
pub open spec fn html_candidates(
    images: Option<Seq<Option<Seq<char>>>>,
    anchors: Option<Seq<Option<Seq<char>>>>,
) -> Option<Seq<Seq<char>>> {
    match (images, anchors) {
        (Some(sources), Some(references)) => Some(present(sources) + present(references)),
        _ => None,
    }
}

/// The candidates of a run of raw HTML: what [`html_candidates`] makes of its
/// images and anchors.
pub open spec fn fragment_candidates(html: Seq<char>) -> Option<Seq<Seq<char>>> {
    html_candidates(html_attributes(html, "img"@, "src"@), html_attributes(html, "a"@, "href"@))
}

/// The candidates of one piece: the destination of a link, the source of an
/// image, the candidates of raw HTML, and none of anything else.
pub open spec fn piece_candidates(piece: MarkupView) -> Option<Seq<Seq<char>>> {
    match piece {
        MarkupView::Link(url) => Some(seq![url]),
        MarkupView::Image(url) => Some(seq![url]),
        MarkupView::Html(html) => fragment_candidates(html),
        MarkupView::InlineHtml(html) => fragment_candidates(html),
        MarkupView::Other => Some(Seq::empty()),
    }
}

/// The candidates of a list of pieces, in the order of the pieces; `None`
/// where a piece has none to give.
pub open spec fn gathered(pieces: Seq<MarkupView>) -> Option<Seq<Seq<char>>>
    decreases pieces.len(),
{
    if pieces.len() == 0 {
        Some(Seq::empty())
    } else {
        match (gathered(pieces.drop_last()), piece_candidates(pieces.last())) {
            (Some(before), Some(more)) => Some(before + more),
            _ => None,
        }
    }
}

/// The candidates of a document.
pub open spec fn document_candidates(text: Seq<char>) -> Option<Seq<Seq<char>>> {
    gathered(markdown_events(text))
}

/// A list of strings as plain values, where there is one.
pub open spec fn list_or_error(found: Result<Vec<String>, ExtractError>) -> Option<Seq<Seq<char>>> {
    match found {
        Ok(list) => Some(texts(list@)),
        Err(_) => None,
    }
}

/// Appends to `list` the values that are there.
fn push_present(list: &mut Vec<String>, values: Vec<Option<String>>)
    ensures
        texts(final(list)@) == texts(old(list)@) + present(value_views(values@)),
{
    let ghost start = texts(list@);
    let ghost all = value_views(values@);
    let mut i: usize = 0;
    assert(present(all.take(0)) =~= Seq::<Seq<char>>::empty());
    assert(texts(list@) =~= start + present(all.take(0)));
    while i < values.len()
        invariant
            i <= values.len(),
            all == value_views(values@),
            texts(list@) == start + present(all.take(i as int)),
        decreases values.len() - i,
    {
        let ghost before = texts(list@);
        proof {
            assert(all.take(i + 1).drop_last() =~= all.take(i as int));
            assert(all.take(i + 1).last() == all[i as int]);
        }
        match &values[i] {
            Some(value) => {
                list.push(value.clone());
                assert(texts(list@) =~= before.push(value@));
                assert(texts(list@) =~= start + present(all.take(i + 1)));
            },
            None => {},
        }
        i = i + 1;
    }
    assert(all.take(values.len() as int) =~= all);
}

/// The candidates of a run of raw HTML, from what was found in it.
pub fn html_links(images: Option<Vec<Option<String>>>, anchors: Option<Vec<Option<String>>>) -> (found:
    Result<Vec<String>, ExtractError>)
    ensures
        list_or_error(found) == html_candidates(found_views(images), found_views(anchors)),
{
    match (images, anchors) {
        (Some(sources), Some(references)) => {
            let mut list: Vec<String> = Vec::new();
            assert(texts(list@) =~= Seq::<Seq<char>>::empty());
            push_present(&mut list, sources);
            push_present(&mut list, references);
            assert(texts(list@) =~= present(value_views(sources@)) + present(
                value_views(references@),
            ));
            Ok(list)
        },
        _ => Err(ExtractError::Html),
    }
}

/// Appends copies of the strings of `more` to `list`.
fn append_all(list: &mut Vec<String>, more: &Vec<String>)
    ensures
        texts(final(list)@) == texts(old(list)@) + texts(more@),
{
    let ghost before = texts(list@);
    let ghost added = texts(more@);
    let mut k: usize = 0;
    assert(texts(list@) =~= before + added.take(0));
    while k < more.len()
        invariant
            k <= more.len(),
            added == texts(more@),
            texts(list@) == before + added.take(k as int),
        decreases more.len() - k,
    {
        let ghost so_far = texts(list@);
        list.push(more[k].clone());
        assert(texts(list@) =~= so_far.push(added[k as int]));
        assert(added.take(k + 1) =~= added.take(k as int).push(added[k as int]));
        assert(texts(list@) =~= before + added.take(k + 1));
        k = k + 1;
    }
    assert(added.take(more.len() as int) =~= added);
}

/// The candidates of a run of raw HTML: the `src` of each `img` in it, then
/// the `href` of each `a`.
pub fn fragment_links(html: &str) -> (found: Result<Vec<String>, ExtractError>)
    ensures
        list_or_error(found) == fragment_candidates(html@),
{
    let images = select_attributes(html, "img", "src");
    let anchors = select_attributes(html, "a", "href");
    html_links(images, anchors)
}

/// The candidates of one piece.
pub fn piece_links(piece: &Markup) -> (found: Result<Vec<String>, ExtractError>)
    ensures
        list_or_error(found) == piece_candidates(piece@),
{
    match piece {
        Markup::Link(url) => {
            let mut list: Vec<String> = Vec::new();
            list.push(url.clone());
            assert(texts(list@) =~= seq![url@]);
            Ok(list)
        },
        Markup::Image(url) => {
            let mut list: Vec<String> = Vec::new();
            list.push(url.clone());
            assert(texts(list@) =~= seq![url@]);
            Ok(list)
        },
        Markup::Html(html) => fragment_links(html.as_str()),
        Markup::InlineHtml(html) => fragment_links(html.as_str()),
        Markup::Other => {
            let list: Vec<String> = Vec::new();
            assert(texts(list@) =~= Seq::<Seq<char>>::empty());
            Ok(list)
        },
    }
}

/// The candidates of a list of pieces.
pub fn gather(pieces: &Vec<Markup>) -> (found: Result<Vec<String>, ExtractError>)
    ensures
        list_or_error(found) == gathered(markup_views(pieces@)),
{
    let ghost all = markup_views(pieces@);
    let mut list: Vec<String> = Vec::new();
    let mut i: usize = 0;
    assert(texts(list@) =~= Seq::<Seq<char>>::empty());
    assert(all.take(0) =~= Seq::<MarkupView>::empty());
    while i < pieces.len()
        invariant
            i <= pieces.len(),
            all == markup_views(pieces@),
            gathered(all.take(i as int)) == Some(texts(list@)),
        decreases pieces.len() - i,
    {
        proof {
            assert(all.take(i + 1).drop_last() =~= all.take(i as int));
            assert(all.take(i + 1).last() == pieces[i as int]@);
        }
        match piece_links(&pieces[i]) {
            Ok(more) => {
                append_all(&mut list, &more);
            },
            Err(error) => {
                proof {
                    lemma_gathered_stays_none(all, i + 1);
                }
                return Err(error);
            },
        }
        i = i + 1;
    }
    assert(all.take(pieces.len() as int) =~= all);
    Ok(list)
}

/// Once the pieces up to some place have no candidates to give, the whole
/// list has none.
pub proof fn lemma_gathered_stays_none(pieces: Seq<MarkupView>, upto: int)
    requires
        0 <= upto <= pieces.len(),
        gathered(pieces.take(upto)) is None,
    ensures
        gathered(pieces) is None,
    decreases pieces.len() - upto,
{
    if upto < pieces.len() {
        assert(pieces.take(upto + 1).drop_last() =~= pieces.take(upto));
        lemma_gathered_stays_none(pieces, upto + 1);
    } else {
        assert(pieces.take(upto) =~= pieces);
    }
}

/// The candidate URLs of a document written in Markdown: the destination
/// of each link and the source of each image, and, for each run of raw HTML
/// in it, the `src` of each `img` and then the `href` of each `a`, all in the
/// order of the document. Fails where raw HTML could not be searched.
pub fn candidates(document: &str) -> (found: Result<Vec<String>, ExtractError>)
    ensures
        list_or_error(found) == document_candidates(document@),
{
    let pieces = parse_markdown(document);
    gather(&pieces)
}

} // verus!
