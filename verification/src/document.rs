//! One document: its hyperlinks are read, rewritten and written back into
//! the markup.
//!
//! The markup engine is kuchiki. It parses the text of a document, selects
//! the hyperlinks, and serialises the tree again; what it makes of a text is
//! not modelled here, only named. Reading the file and writing it back is the
//! caller's part.

use vstd::prelude::*;
use vstd::utf8::encode_utf8;
use kuchiki::traits::TendrilSink;
use crate::classify::Classifier;
use crate::corpus::{texts, Corpus, CorpusView};
use crate::error::LinkError;
use crate::rewrite::{outcome, rewrite_hrefs, rewritten_all};

verus! {

/// The selector of the hyperlinks: the anchors that carry a reference.
pub const HYPERLINKS: &'static str = "a[href]";

/// The attribute that holds the reference of a hyperlink.
pub const REFERENCE: &'static str = "href";

/// The longest document that is handed to the markup engine, in bytes.
/// kuchiki reads a text through buffers that count their bytes in 32 bits
/// and grow to the next power of two, so that none may pass 2^31 bytes. The
/// limit leaves room for a text that grows threefold while it is read, as
/// one of NUL characters does.
pub const MARKUP_LIMIT: usize = 536_870_912;

/// The text `html` is short enough for the markup engine.
pub open spec fn within_limit(html: Seq<char>) -> bool {
    encode_utf8(html).len() <= MARKUP_LIMIT
}

/// The values of attribute `name` on the elements of the document `html`
/// that `selector` selects, in document order, as kuchiki reads them, each
/// `None` where the element has no such attribute; `None` as a whole where
/// kuchiki refuses the selector.
pub uninterp spec fn selected_values(html: Seq<char>, selector: Seq<char>, name: Seq<char>)
    -> Option<Seq<Option<Seq<char>>>>;

/// The document `html` as kuchiki serialises it once attribute `name` of the
/// elements that `selector` selects in `html` has been set, in document
/// order, to `values`; `None` where kuchiki refuses the selector.
pub uninterp spec fn with_values(
    html: Seq<char>,
    selector: Seq<char>,
    name: Seq<char>,
    values: Seq<Seq<char>>,
) -> Option<Seq<char>>;

/// The text of a value that may be absent.
pub open spec fn optional_text(value: Option<String>) -> Option<Seq<char>> {
    match value {
        Some(text) => Some(text@),
        None => None,
    }
}

/// The text of each value of `values`.
pub open spec fn optional_texts(values: Seq<Option<String>>) -> Seq<Option<Seq<char>>> {
    Seq::new(values.len(), |i: int| optional_text(values[i]))
}

/// The outcome of `attribute_values` as text.
pub open spec fn values_read(values: Option<Vec<Option<String>>>) -> Option<
    Seq<Option<Seq<char>>>,
> {
    match values {
        Some(found) => Some(optional_texts(found@)),
        None => None,
    }
}

/// The outcome of `set_attribute_values` as text.
pub open spec fn document_written(document: Option<String>) -> Option<Seq<char>> {
    optional_text(document)
}

/// Parses `html` with `kuchiki::parse_html`, selects with `NodeRef::select`
/// and reads attribute `name` of each selected element with
/// `Attributes::get`. Trusted: the result depends on the three texts alone.
/// A longer text is left out: the parser panics where a buffer would hold
/// more bytes than 32 bits count.
#[verifier::external_body]
fn attribute_values(html: &str, selector: &str, name: &str) -> (values: Option<
    Vec<Option<String>>,
>)
    requires
        within_limit(html@),
    ensures
        values_read(values) == selected_values(html@, selector@, name@),
{
    let document = kuchiki::parse_html().from_utf8().one(html.as_bytes());
    match document.select(selector) {
        Ok(elements) => Some(
            elements.map(
                |element| element.attributes.borrow().get(name).map(String::from),
            ).collect(),
        ),
        Err(()) => None,
    }
}

/// Parses `html` with `kuchiki::parse_html`, selects with `NodeRef::select`,
/// gives attribute `name` of the elements that were selected the `values`,
/// one for one in document order, with `Attributes::insert`, and serialises
/// the tree with `NodeRef::to_string`. The selection is complete before the
/// first attribute is set. Trusted: the result depends on the three texts
/// and the values alone. A longer text is left out: the parser panics where
/// a buffer would hold more bytes than 32 bits count.
#[verifier::external_body]
fn set_attribute_values(html: &str, selector: &str, name: &str, values: &Vec<String>) -> (document:
    Option<String>)
    requires
        within_limit(html@),
    ensures
        document_written(document) == with_values(html@, selector@, name@, texts(values@)),
{
    let document = kuchiki::parse_html().from_utf8().one(html.as_bytes());
    match document.select(selector) {
        Ok(elements) => {
            let selected: Vec<_> = elements.collect();
            for (element, value) in selected.iter().zip(values.iter()) {
                element.attributes.borrow_mut().insert(name, value.clone());
            }
            Some(document.to_string())
        },
        Err(()) => None,
    }
}

/// Every value is present.
pub open spec fn all_present(values: Seq<Option<Seq<char>>>) -> bool {
    forall|i: int| 0 <= i < values.len() ==> (#[trigger] values[i]) is Some
}

/// The values themselves, where every one is present.
pub open spec fn present(values: Seq<Option<Seq<char>>>) -> Seq<Seq<char>> {
    Seq::new(values.len(), |i: int| values[i]->0)
}

/// The references that were read: those of the selected elements, or the
/// reason why there are none. The document is too long, the markup engine
/// refuses the selector, or a selected element has no such attribute.
pub open spec fn references_read(html: Seq<char>, selector: Seq<char>, name: Seq<char>) -> Result<
    Seq<Seq<char>>,
    LinkError,
> {
    if !within_limit(html) {
        Err(LinkError::TooLong)
    } else {
        match selected_values(html, selector, name) {
            Some(values) => if all_present(values) {
                Ok(present(values))
            } else {
                Err(LinkError::Markup)
            },
            None => Err(LinkError::Markup),
        }
    }
}

/// What a document becomes where `selector` selects the hyperlinks and
/// attribute `name` holds their references: the markup with every reference
/// rewritten, or the reason why nothing was rewritten.
pub open spec fn rewritten_selection(
    pattern: Seq<char>,
    html: Seq<char>,
    selector: Seq<char>,
    name: Seq<char>,
    corpus: CorpusView,
) -> Result<Seq<char>, LinkError> {
    match references_read(html, selector, name) {
        Err(e) => Err(e),
        Ok(hrefs) => match rewritten_all(pattern, hrefs, corpus) {
            Err(e) => Err(e),
            Ok(targets) => match with_values(html, selector, name, targets) {
                Some(text) => Ok(text),
                None => Err(LinkError::Markup),
            },
        },
    }
}

/// What a document becomes: the markup with the reference of every
/// hyperlink rewritten, or the reason why nothing was rewritten.
pub open spec fn rewritten_document(pattern: Seq<char>, html: Seq<char>, corpus: CorpusView)
    -> Result<Seq<char>, LinkError> {
    rewritten_selection(pattern, html, HYPERLINKS@, REFERENCE@, corpus)
}

/// The outcome of rewriting a document, as text.
pub open spec fn document_outcome(out: Result<String, LinkError>) -> Result<Seq<char>, LinkError> {
    match out {
        Ok(text) => Ok(text@),
        Err(e) => Err(e),
    }
}

/// The values themselves, where every one is present; `None` where one is
/// absent.
pub fn present_values(values: Vec<Option<String>>) -> (found: Option<Vec<String>>)
    ensures
        match found {
            Some(all) => all_present(optional_texts(values@)) && texts(all@) == present(
                optional_texts(values@),
            ),
            None => !all_present(optional_texts(values@)),
        },
{
    let ghost given = optional_texts(values@);
    let mut all: Vec<String> = Vec::new();
    for value in it: values
        invariant
            it.seq() == values@,
            given == optional_texts(values@),
            all.len() == it.index(),
            forall|j: int|
                0 <= j < it.index() ==> (#[trigger] given[j]) == Some(all[j]@),
    {
        match value {
            Some(text) => {
                all.push(text);
            },
            None => {
                assert(given[it.index() as int] is None);
                return None;
            },
        }
    }
    assert(texts(all@) =~= present(given));
    Some(all)
}

/// Whether `html` is short enough for the markup engine.
pub fn fits_markup(html: &str) -> (fits: bool)
    ensures
        fits == within_limit(html@),
{
    html.as_bytes().len() <= MARKUP_LIMIT
}

/// The references of the elements of `html` that `selector` selects, read
/// from attribute `name`, in document order; or the reason why they cannot
/// be read: the document is too long, the markup engine refuses the
/// selector, or a selected element has no such attribute.
pub fn selected_references(html: &str, selector: &str, name: &str) -> (hrefs: Result<
    Vec<String>,
    LinkError,
>)
    ensures
        outcome(hrefs) == references_read(html@, selector@, name@),
{
    if !fits_markup(html) {
        return Err(LinkError::TooLong);
    }
    match attribute_values(html, selector, name) {
        Some(values) => match present_values(values) {
            Some(all) => Ok(all),
            None => Err(LinkError::Markup),
        },
        None => Err(LinkError::Markup),
    }
}

/// The references of the hyperlinks of `html`, in document order, or the
/// reason why they cannot be read.
pub fn hyperlink_references(html: &str) -> (hrefs: Result<Vec<String>, LinkError>)
    ensures
        outcome(hrefs) == references_read(html@, HYPERLINKS@, REFERENCE@),
{
    selected_references(html, HYPERLINKS, REFERENCE)
}

/// Rewrites, in the document `html`, attribute `name` of the elements that
/// `selector` selects: an external reference stays, each other one becomes
/// the root-relative path of the first document of the corpus that contains
/// it. Where the document is too long, the markup engine refuses the
/// selector, a selected element has no such attribute, or a reference is
/// unresolved, the document is not rewritten and the reason is told.
pub fn rewrite_selected(
    classifier: &Classifier,
    html: &str,
    selector: &str,
    name: &str,
    corpus: &Corpus,
) -> (out: Result<String, LinkError>)
    ensures
        document_outcome(out) == rewritten_selection(
            classifier.pattern(),
            html@,
            selector@,
            name@,
            corpus@,
        ),
{
    match selected_references(html, selector, name) {
        Err(e) => Err(e),
        Ok(hrefs) => match rewrite_hrefs(classifier, &hrefs, corpus) {
            Err(e) => Err(e),
            Ok(targets) => match set_attribute_values(html, selector, name, &targets) {
                Some(text) => Ok(text),
                None => Err(LinkError::Markup),
            },
        },
    }
}

/// Rewrites the hyperlinks of the document `html`: the external ones stay,
/// each other one gets the root-relative path of the first document of the
/// corpus that contains its reference. Where a reference is unresolved the
/// document is not rewritten, and the first such hyperlink is told.
pub fn rewrite_document(classifier: &Classifier, html: &str, corpus: &Corpus) -> (out: Result<
    String,
    LinkError,
>)
    ensures
        document_outcome(out) == rewritten_document(classifier.pattern(), html@, corpus@),
{
    rewrite_selected(classifier, html, HYPERLINKS, REFERENCE, corpus)
}

} // verus!
