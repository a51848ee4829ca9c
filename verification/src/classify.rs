//! The link classifier: which references are external, and what becomes of
//! the others.
//!
//! A reference is external where the pattern of an absolute `http` or `https`
//! URL matches somewhere in it. Every other reference, the empty one, a
//! fragment and a `mailto:` link included, is a candidate for the corpus:
//! none of them is treated specially.

use vstd::prelude::*;
use regex::Regex;
use crate::corpus::{first_match, first_match_exists, has_match, matched_is_resolved};
use crate::corpus::{resolved_names_first_match, unmatched_is_unresolved};
use crate::corpus::{Corpus, CorpusView};
use crate::path::{same_path, SEPARATOR};

verus! {

/// The pattern of an external reference: the scheme `http` or `https`, `://`,
/// a host of one or more labels of word characters and hyphens that dots
/// separate and, optionally, a path of word characters and `- . / ? % & =`
/// that starts with `/`.
pub const EXTERNAL_PATTERN: &'static str = r"https?://(\w|-)+(\.(\w|-)+)*(/[\w\-./?%&=]*)?";

/// Whether `regex::Regex::new` accepts `pattern`.
pub uninterp spec fn regex_compiles(pattern: Seq<char>) -> bool;

/// Whether the regular expression that `regex::Regex::new` makes of
/// `pattern` has a match somewhere in `haystack`, as `Regex::is_match` tells.
pub uninterp spec fn regex_is_match(pattern: Seq<char>, haystack: Seq<char>) -> bool;

/// Compiles `pattern` with `regex::Regex::new` and searches `haystack` with
/// `Regex::is_match`. Trusted: the result is `None` exactly where the pattern
/// is refused, and otherwise what `is_match` returned; both depend on the two
/// texts alone.
#[verifier::external_body]
fn regex_search(pattern: &str, haystack: &str) -> (found: Option<bool>)
    ensures
        found is Some <==> regex_compiles(pattern@),
        found matches Some(hit) ==> hit == regex_is_match(pattern@, haystack@),
{
    match Regex::new(pattern) {
        Ok(regex) => Some(regex.is_match(haystack)),
        Err(_) => None,
    }
}

/// What a reference is: external, internal with the root-relative path of
/// the document it names, or unresolved.
#[derive(Debug, PartialEq, Eq)]
pub enum Classification {
    /// The reference is an absolute URL and stays as it is.
    External,
    /// The reference names a document of the corpus; this is its
    /// root-relative path.
    Internal(String),
    /// The reference is not external and no document of the corpus
    /// contains it.
    Unresolved,
}

/// A classification in contracts.
pub enum ClassificationView {
    External,
    Internal(Seq<char>),
    Unresolved,
}

impl View for Classification {
    type V = ClassificationView;

    open spec fn view(&self) -> ClassificationView {
        match self {
            Classification::External => ClassificationView::External,
            Classification::Internal(target) => ClassificationView::Internal(target@),
            Classification::Unresolved => ClassificationView::Unresolved,
        }
    }
}

/// The classification of `reference`, given whether the pattern matched it.
/// An external reference is classified without a look at the corpus.
pub open spec fn classification(
    external: bool,
    reference: Seq<char>,
    corpus: CorpusView,
) -> ClassificationView {
    if external {
        ClassificationView::External
    } else {
        match corpus.resolve(reference) {
            Some(target) => ClassificationView::Internal(target),
            None => ClassificationView::Unresolved,
        }
    }
}

/// Classifies `reference`, given whether the pattern matched it. The corpus
/// is searched only where it did not.
pub fn classify_matched(external: bool, reference: &str, corpus: &Corpus) -> (class:
    Classification)
    ensures
        class@ == classification(external, reference@, corpus@),
        external ==> class@ == ClassificationView::External,
{
    if external {
        Classification::External
    } else {
        match corpus.resolve(reference) {
            Some(target) => Classification::Internal(target),
            None => Classification::Unresolved,
        }
    }
}

/// The link classifier. It exists only where the pattern of an external
/// reference compiles.
pub struct Classifier {
    pattern: String,
}

impl Classifier {
    #[verifier::type_invariant]
    spec fn inv(self) -> bool {
        regex_compiles(self.pattern@)
    }

    /// The pattern that tells an external reference.
    pub closed spec fn pattern(self) -> Seq<char> {
        self.pattern@
    }

    /// The classifier for `EXTERNAL_PATTERN`; `None` where the regular
    /// expression engine refuses the pattern.
    pub fn new() -> (made: Option<Classifier>)
        ensures
            made is Some <==> regex_compiles(EXTERNAL_PATTERN@),
            made matches Some(classifier) ==> classifier.pattern() == EXTERNAL_PATTERN@,
    {
        match regex_search(EXTERNAL_PATTERN, "") {
            Some(_) => Some(Classifier { pattern: EXTERNAL_PATTERN.to_owned() }),
            None => None,
        }
    }

    /// The text of the pattern.
    pub fn pattern_text(&self) -> (text: &str)
        ensures
            text@ == self.pattern(),
    {
        self.pattern.as_str()
    }

    /// Whether `reference` is external: whether the pattern matches
    /// somewhere in it. The pattern is compiled anew for every call.
    pub fn is_external(&self, reference: &str) -> (external: bool)
        ensures
            external == regex_is_match(self.pattern(), reference@),
    {
        proof {
            use_type_invariant(self);
        }
        match regex_search(self.pattern.as_str(), reference) {
            Some(hit) => hit,
            // The pattern of a classifier compiles: this arm is never taken.
            None => false,
        }
    }

    /// Classifies `reference`: external where the pattern matches it, and
    /// then the corpus is not searched; else internal, with the root-relative
    /// path of the first document that contains it, or unresolved.
    pub fn classify(&self, reference: &str, corpus: &Corpus) -> (class: Classification)
        ensures
            class@ == classification(
                regex_is_match(self.pattern(), reference@),
                reference@,
                corpus@,
            ),
            regex_is_match(self.pattern(), reference@) ==> class@ == ClassificationView::External,
    {
        let external = self.is_external(reference);
        classify_matched(external, reference, corpus)
    }
}

/// A reference that the pattern does not match and that some document of the
/// corpus contains is internal. Its target starts with exactly one separator
/// and, joined to the root, names what the first such document names, where
/// the root is not empty.
pub proof fn contained_reference_is_internal(reference: Seq<char>, corpus: CorpusView)
    requires
        corpus.wf(),
        has_match(corpus.paths, reference),
    ensures
        classification(false, reference, corpus) is Internal,
        first_match(corpus.paths, reference) is Some,
        corpus.root.len() > 0 ==> ({
            let target = classification(false, reference, corpus)->Internal_0;
            let document = corpus.paths[first_match(corpus.paths, reference)->0];
            &&& target[0] == SEPARATOR
            &&& target.len() > 1 ==> target[1] != SEPARATOR
            &&& same_path(corpus.root + target, document)
        }),
{
    matched_is_resolved(corpus, reference);
    first_match_exists(corpus.paths, reference);
    if corpus.root.len() > 0 {
        resolved_names_first_match(corpus, reference);
    }
}

/// A reference that the pattern does not match and that no document of the
/// corpus contains is unresolved; it is never given a path.
pub proof fn missing_reference_is_unresolved(reference: Seq<char>, corpus: CorpusView)
    requires
        !has_match(corpus.paths, reference),
    ensures
        classification(false, reference, corpus) is Unresolved,
{
    unmatched_is_unresolved(corpus, reference);
}

} // verus!
