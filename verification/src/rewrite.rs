//! The rewriter: what each reference of a document becomes.
//!
//! An external reference stays as it is. Any other reference becomes the
//! root-relative path of the first document of the corpus that contains it.
//! A reference that no document contains stops the rewriting of its
//! document: nothing is rewritten and the first such reference is named.

use vstd::prelude::*;
use crate::classify::{classification, classify_matched, regex_is_match};
use crate::classify::{Classification, ClassificationView, Classifier};
use crate::corpus::{first_match, first_match_exists, texts, Corpus, CorpusView};
use crate::error::LinkError;
use crate::path::{is_under, relative_exactly_under, root_relative};
use crate::path::root_relative_is_contained;
use crate::text::contains;

verus! {

/// What `reference` is rewritten to, given whether the pattern matched it:
/// itself where it is external, the root-relative path of the document it
/// names where it is internal, and nothing where it is unresolved.
pub open spec fn rewritten(external: bool, reference: Seq<char>, corpus: CorpusView) -> Option<
    Seq<char>,
> {
    match classification(external, reference, corpus) {
        ClassificationView::External => Some(reference),
        ClassificationView::Internal(target) => Some(target),
        ClassificationView::Unresolved => None,
    }
}

/// What `reference` is rewritten to where `pattern` tells the external
/// references.
pub open spec fn rewritten_by(pattern: Seq<char>, reference: Seq<char>, corpus: CorpusView)
    -> Option<Seq<char>> {
    rewritten(regex_is_match(pattern, reference), reference, corpus)
}

/// The reference at position `i` is unresolved, and none before it is.
pub open spec fn is_first_unresolved(
    pattern: Seq<char>,
    hrefs: Seq<Seq<char>>,
    corpus: CorpusView,
    i: int,
) -> bool {
    &&& 0 <= i < hrefs.len()
    &&& rewritten_by(pattern, hrefs[i], corpus) is None
    &&& forall|j: int| 0 <= j < i ==> rewritten_by(pattern, #[trigger] hrefs[j], corpus) is Some
}

/// What the references of one document become, in document order: the
/// rewritten references where each has one, else the position of the first
/// that is unresolved.
pub open spec fn rewritten_all(pattern: Seq<char>, hrefs: Seq<Seq<char>>, corpus: CorpusView)
    -> Result<Seq<Seq<char>>, LinkError> {
    if exists|i: int| is_first_unresolved(pattern, hrefs, corpus, i) {
        Err(
            LinkError::Unresolved {
                link: (choose|i: int| is_first_unresolved(pattern, hrefs, corpus, i)) as usize,
            },
        )
    } else {
        Ok(Seq::new(hrefs.len(), |i: int| rewritten_by(pattern, hrefs[i], corpus).unwrap()))
    }
}

/// The outcome of rewriting the references of a document, as text.
pub open spec fn outcome(out: Result<Vec<String>, LinkError>) -> Result<Seq<Seq<char>>, LinkError> {
    match out {
        Ok(targets) => Ok(texts(targets@)),
        Err(e) => Err(e),
    }
}

/// There is at most one first unresolved reference.
pub proof fn first_unresolved_is(
    pattern: Seq<char>,
    hrefs: Seq<Seq<char>>,
    corpus: CorpusView,
    i: int,
)
    requires
        is_first_unresolved(pattern, hrefs, corpus, i),
    ensures
        (choose|k: int| is_first_unresolved(pattern, hrefs, corpus, k)) == i,
{
    let k = choose|k: int| is_first_unresolved(pattern, hrefs, corpus, k);
    assert(is_first_unresolved(pattern, hrefs, corpus, k));
    if k < i {
        assert(rewritten_by(pattern, hrefs[k], corpus) is Some);
    }
    if i < k {
        assert(rewritten_by(pattern, hrefs[i], corpus) is Some);
    }
}

/// Rewrites one reference, given whether the pattern matched it. An external
/// reference comes back unchanged; `None` tells an unresolved one.
pub fn rewrite_reference(external: bool, reference: &str, corpus: &Corpus) -> (out: Option<
    String,
>)
    ensures
        match out {
            Some(target) => rewritten(external, reference@, corpus@) == Some(target@),
            None => rewritten(external, reference@, corpus@) is None,
        },
        external ==> (out matches Some(target) && target@ == reference@),
{
    match classify_matched(external, reference, corpus) {
        Classification::External => Some(reference.to_owned()),
        Classification::Internal(target) => Some(target),
        Classification::Unresolved => None,
    }
}

/// Rewrites the references of one document, in document order. Either every
/// reference is rewritten, or none is and the position of the first
/// unresolved one is told.
pub fn rewrite_hrefs(classifier: &Classifier, hrefs: &Vec<String>, corpus: &Corpus) -> (out:
    Result<Vec<String>, LinkError>)
    ensures
        outcome(out) == rewritten_all(classifier.pattern(), texts(hrefs@), corpus@),
        out matches Ok(targets) ==> targets.len() == hrefs.len(),
        out matches Err(e) ==> (e matches LinkError::Unresolved { link } && is_first_unresolved(
            classifier.pattern(),
            texts(hrefs@),
            corpus@,
            link as int,
        )),
{
    let ghost pattern = classifier.pattern();
    let ghost sources = texts(hrefs@);
    let mut targets: Vec<String> = Vec::new();
    let mut i: usize = 0;
    while i < hrefs.len()
        invariant
            i <= hrefs.len(),
            targets.len() == i,
            pattern == classifier.pattern(),
            sources == texts(hrefs@),
            forall|j: int|
                0 <= j < i ==> rewritten_by(pattern, #[trigger] sources[j], corpus@) == Some(
                    targets[j]@,
                ),
        decreases hrefs.len() - i,
    {
        let reference = hrefs[i].as_str();
        assert(sources[i as int] == reference@);
        let external = classifier.is_external(reference);
        match rewrite_reference(external, reference, corpus) {
            Some(target) => {
                targets.push(target);
            },
            None => {
                proof {
                    assert(is_first_unresolved(pattern, sources, corpus@, i as int));
                    first_unresolved_is(pattern, sources, corpus@, i as int);
                }
                return Err(LinkError::Unresolved { link: i });
            },
        }
        i += 1;
    }
    proof {
        if exists|k: int| is_first_unresolved(pattern, sources, corpus@, k) {
            let k = choose|k: int| is_first_unresolved(pattern, sources, corpus@, k);
            assert(rewritten_by(pattern, sources[k], corpus@) is Some);
        }
        assert(texts(targets@) =~= Seq::new(
            sources.len(),
            |i: int| rewritten_by(pattern, sources[i], corpus@).unwrap(),
        ));
    }
    Ok(targets)
}

/// The rewritten form of `reference` still finds the document that
/// `reference` found: the root is not empty, that document has a name below
/// the root, and no document before it contains the rewritten reference,
/// unless that document is rewritten to the same reference. An external
/// reference finds no document, and nothing is asked of it.
pub open spec fn keeps_its_document(pattern: Seq<char>, reference: Seq<char>, corpus: CorpusView)
    -> bool {
    !regex_is_match(pattern, reference) ==> ({
        let i = first_match(corpus.paths, reference)->0;
        let target = rewritten_by(pattern, reference, corpus)->0;
        &&& corpus.root.len() > 0
        &&& target.len() > 1
        &&& forall|j: int|
            0 <= j < i && contains(#[trigger] corpus.paths[j], target) ==> root_relative(
                corpus.paths[j],
                corpus.root,
            ) == Some(target)
    })
}

/// Rewriting a rewritten reference changes nothing, where the rewritten
/// reference still finds the document that the reference found.
pub proof fn rewriting_twice_changes_nothing(
    pattern: Seq<char>,
    reference: Seq<char>,
    corpus: CorpusView,
)
    requires
        corpus.wf(),
        rewritten_by(pattern, reference, corpus) is Some,
        keeps_its_document(pattern, reference, corpus),
    ensures
        rewritten_by(pattern, rewritten_by(pattern, reference, corpus)->0, corpus) == rewritten_by(
            pattern,
            reference,
            corpus,
        ),
{
    let target = rewritten_by(pattern, reference, corpus)->0;
    if !regex_is_match(pattern, reference) && !regex_is_match(pattern, target) {
        first_match_exists(corpus.paths, reference);
        let i = first_match(corpus.paths, reference)->0;
        assert(is_under(corpus.paths[i], corpus.root));
        relative_exactly_under(corpus.paths[i], corpus.root);
        root_relative_is_contained(corpus.paths[i], corpus.root);
        first_match_exists(corpus.paths, target);
        let j = first_match(corpus.paths, target)->0;
        if i < j {
            assert(!contains(corpus.paths[i], target));
        }
    }
}

/// Before any unresolved reference stands a first one.
proof fn least_unresolved(pattern: Seq<char>, hrefs: Seq<Seq<char>>, corpus: CorpusView, w: int)
    requires
        0 <= w < hrefs.len(),
        rewritten_by(pattern, hrefs[w], corpus) is None,
    ensures
        exists|i: int| is_first_unresolved(pattern, hrefs, corpus, i),
    decreases w,
{
    if exists|j: int| 0 <= j < w && rewritten_by(pattern, #[trigger] hrefs[j], corpus) is None {
        let j = choose|j: int|
            0 <= j < w && rewritten_by(pattern, #[trigger] hrefs[j], corpus) is None;
        least_unresolved(pattern, hrefs, corpus, j);
    } else {
        assert(is_first_unresolved(pattern, hrefs, corpus, w));
    }
}

/// The references of a document are all rewritten exactly where each of
/// them has a rewritten form, and then position by position.
pub proof fn rewritten_all_is_pointwise(
    pattern: Seq<char>,
    hrefs: Seq<Seq<char>>,
    corpus: CorpusView,
)
    ensures
        rewritten_all(pattern, hrefs, corpus) is Ok <==> forall|i: int|
            0 <= i < hrefs.len() ==> rewritten_by(pattern, #[trigger] hrefs[i], corpus) is Some,
        rewritten_all(pattern, hrefs, corpus) matches Ok(targets) ==> targets.len() == hrefs.len()
            && forall|i: int|
            0 <= i < hrefs.len() ==> rewritten_by(pattern, #[trigger] hrefs[i], corpus) == Some(
                targets[i],
            ),
{
    if rewritten_all(pattern, hrefs, corpus) is Ok {
        assert forall|i: int| 0 <= i < hrefs.len() implies rewritten_by(
            pattern,
            #[trigger] hrefs[i],
            corpus,
        ) is Some by {
            if rewritten_by(pattern, hrefs[i], corpus) is None {
                least_unresolved(pattern, hrefs, corpus, i);
            }
        }
    } else {
        let k = choose|k: int| is_first_unresolved(pattern, hrefs, corpus, k);
        assert(rewritten_by(pattern, hrefs[k], corpus) is None);
    }
}

/// Rewriting the rewritten references of a document changes nothing, where
/// each rewritten reference still finds the document that its reference
/// found.
pub proof fn rewriting_all_twice_changes_nothing(
    pattern: Seq<char>,
    hrefs: Seq<Seq<char>>,
    corpus: CorpusView,
)
    requires
        corpus.wf(),
        rewritten_all(pattern, hrefs, corpus) is Ok,
        forall|i: int|
            0 <= i < hrefs.len() ==> keeps_its_document(pattern, #[trigger] hrefs[i], corpus),
    ensures
        rewritten_all(pattern, rewritten_all(pattern, hrefs, corpus)->Ok_0, corpus)
            == rewritten_all(pattern, hrefs, corpus),
{
    let once = rewritten_all(pattern, hrefs, corpus)->Ok_0;
    rewritten_all_is_pointwise(pattern, hrefs, corpus);
    assert forall|i: int| 0 <= i < once.len() implies rewritten_by(
        pattern,
        #[trigger] once[i],
        corpus,
    ) == Some(once[i]) by {
        assert(rewritten_by(pattern, hrefs[i], corpus) == Some(once[i]));
        rewriting_twice_changes_nothing(pattern, hrefs[i], corpus);
    }
    rewritten_all_is_pointwise(pattern, once, corpus);
    assert(rewritten_all(pattern, once, corpus)->Ok_0 =~= once);
}

} // verus!
