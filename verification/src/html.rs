use vstd::prelude::*;
use scraper::{ElementRef, Html, Selector};

verus! {

#[verifier::external_type_specification]
#[verifier::external_body]
pub struct ExHtml(Html);

#[verifier::external_type_specification]
#[verifier::external_body]
pub struct ExSelector(Selector);

#[verifier::external_type_specification]
#[verifier::external_body]
pub struct ExElementRef<'a>(ElementRef<'a>);

/// The chain of selections that leads from a document to one element:
/// each step is a selector and the index of the match taken.
pub type Steps = Seq<(Seq<char>, nat)>;

/// Whether `scraper::Selector::parse` accepts `selector`.
pub uninterp spec fn css_selector_valid(selector: Seq<char>) -> bool;

/// How many elements `scraper::Html::select` yields for `selector` in the
/// document parsed from `source`.
pub uninterp spec fn document_match_count(source: Seq<char>, selector: Seq<char>) -> nat;

/// How many elements `scraper::ElementRef::select` yields for `selector`
/// under the element that `steps` reach in the document parsed from `source`.
pub uninterp spec fn element_match_count(source: Seq<char>, steps: Steps, selector: Seq<char>) -> nat;

/// The value of attribute `name` of the element that `steps` reach, as
/// `scraper::ElementRef::attr` gives it.
pub uninterp spec fn element_attribute(source: Seq<char>, steps: Steps, name: Seq<char>) -> Option<Seq<char>>;

/// The text of the element that `steps` reach: its text nodes in
/// document order, joined, as `scraper::ElementRef::text` yields them.
pub uninterp spec fn element_text(source: Seq<char>, steps: Steps) -> Seq<char>;

/// A parsed HTML document and the source text it was parsed from.
pub struct Page {
    doc: Html,
    source: Ghost<Seq<char>>,
}

impl View for Page {
    type V = Seq<char>;

    closed spec fn view(&self) -> Seq<char> {
        self.source@
    }
}

/// A parsed CSS selector and its text.
pub struct Query {
    sel: Selector,
    text: Ghost<Seq<char>>,
}

impl View for Query {
    type V = Seq<char>;

    closed spec fn view(&self) -> Seq<char> {
        self.text@
    }
}

/// An element of a parsed page, with the source of the page and the
/// selections that reached it.
pub struct Node<'a> {
    el: ElementRef<'a>,
    source: Ghost<Seq<char>>,
    steps: Ghost<Steps>,
}

impl<'a> View for Node<'a> {
    type V = (Seq<char>, Steps);

    closed spec fn view(&self) -> (Seq<char>, Steps) {
        (self.source@, self.steps@)
    }
}

/// `scraper::Html::parse_document`: parses `html` as a whole document.
/// The contract keeps the source; what the document holds is told by the
/// names above, applied to that source.
#[verifier::external_body]
pub(crate) fn parse_document(html: &str) -> (p: Page)
    ensures
        p@ == html@,
{
    Page { doc: Html::parse_document(html), source: Ghost(html@) }
}

/// `scraper::Selector::parse`: a selector when `text` parses as CSS.
#[verifier::external_body]
pub(crate) fn parse_selector(text: &str) -> (q: Option<Query>)
    ensures
        q is Some <==> css_selector_valid(text@),
        q matches Some(q) ==> q@ == text@,
{
    match Selector::parse(text) {
        Ok(sel) => Some(Query { sel, text: Ghost(text@) }),
        Err(_) => None,
    }
}

impl Page {
    /// `scraper::Html::select`: the elements of the document that match
    /// `q`, in document order; the `i`-th is reached by step `(q, i)`.
    #[verifier::external_body]
    pub(crate) fn select<'a>(&'a self, q: &Query) -> (r: Vec<Node<'a>>)
        ensures
            r@.len() == document_match_count(self@, q@),
            forall|i: int| 0 <= i < r@.len() ==> (#[trigger] r@[i])@ == (self@, seq![(q@, i as nat)]),
    {
        let mut out = Vec::new();
        for (i, el) in self.doc.select(&q.sel).enumerate() {
            out.push(Node { el, source: Ghost(self.source@), steps: Ghost(seq![(q.text@, i as nat)]) });
        }
        out
    }
}

impl<'a> Node<'a> {
    /// `scraper::ElementRef::select`: the elements under this one that
    /// match `q`, in document order; the `i`-th adds step `(q, i)`.
    #[verifier::external_body]
    pub(crate) fn select(&self, q: &Query) -> (r: Vec<Node<'a>>)
        ensures
            r@.len() == element_match_count(self@.0, self@.1, q@),
            forall|i: int|
                0 <= i < r@.len() ==> (#[trigger] r@[i])@ == (self@.0, self@.1.push((q@, i as nat))),
    {
        let mut out = Vec::new();
        for (i, el) in self.el.select(&q.sel).enumerate() {
            out.push(Node { el, source: Ghost(self.source@), steps: Ghost(self.steps@.push((q.text@, i as nat))) });
        }
        out
    }

    /// `scraper::ElementRef::attr`: the value of attribute `name`.
    #[verifier::external_body]
    pub(crate) fn attr(&self, name: &str) -> (r: Option<String>)
        ensures
            match r {
                Some(v) => element_attribute(self@.0, self@.1, name@) == Some(v@),
                None => element_attribute(self@.0, self@.1, name@) is None,
            },
    {
        self.el.attr(name).map(|v| v.to_string())
    }

    /// `scraper::ElementRef::text`, collected into one string.
    #[verifier::external_body]
    pub(crate) fn text(&self) -> (r: String)
        ensures
            r@ == element_text(self@.0, self@.1),
    {
        self.el.text().collect::<String>()
    }
}

} // verus!
