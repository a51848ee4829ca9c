//! The corpus: the documents of one run, in the order in which they were
//! found, and the search that maps a reference to one of them.
//!
//! A reference names the first path, in that order, that contains it as a
//! substring. Nothing ranks the paths: where two contain the reference, the
//! one with the lower index is taken.

use vstd::prelude::*;
use crate::error::LinkError;
use crate::path::{is_under, relative_exactly_under, root_relative, root_relative_path};
use crate::path::{root_relative_rejoins, same_path, SEPARATOR};
use crate::text::{contains, contains_chars, to_chars};

verus! {

/// The text of each string of `paths`.
pub open spec fn texts(paths: Seq<String>) -> Seq<Seq<char>> {
    Seq::new(paths.len(), |i: int| paths[i]@)
}

/// The path at index `i` contains `part`, and none before it does.
pub open spec fn is_first_match(paths: Seq<Seq<char>>, part: Seq<char>, i: int) -> bool {
    &&& 0 <= i < paths.len()
    &&& contains(paths[i], part)
    &&& forall|j: int| 0 <= j < i ==> !contains(#[trigger] paths[j], part)
}

/// Some path contains `part`.
pub open spec fn has_match(paths: Seq<Seq<char>>, part: Seq<char>) -> bool {
    exists|i: int| 0 <= i < paths.len() && contains(#[trigger] paths[i], part)
}

/// The index of the first path that contains `part`, if any does.
pub open spec fn first_match(paths: Seq<Seq<char>>, part: Seq<char>) -> Option<int> {
    if exists|i: int| is_first_match(paths, part, i) {
        Some(choose|i: int| is_first_match(paths, part, i))
    } else {
        None
    }
}

/// There is at most one first match, and `first_match` names it.
pub proof fn first_match_is(paths: Seq<Seq<char>>, part: Seq<char>, i: int)
    requires
        is_first_match(paths, part, i),
    ensures
        first_match(paths, part) == Some(i),
{
    let k = choose|k: int| is_first_match(paths, part, k);
    assert(is_first_match(paths, part, k));
    if k < i {
        assert(!contains(paths[k], part));
    }
    if i < k {
        assert(!contains(paths[i], part));
    }
}

/// Where no path contains `part`, there is no first match.
pub proof fn first_match_none(paths: Seq<Seq<char>>, part: Seq<char>)
    requires
        forall|j: int| 0 <= j < paths.len() ==> !contains(#[trigger] paths[j], part),
    ensures
        first_match(paths, part) is None,
        !has_match(paths, part),
{
}

/// A first match exists exactly where some path contains `part`.
pub proof fn first_match_exists(paths: Seq<Seq<char>>, part: Seq<char>)
    ensures
        first_match(paths, part) is Some <==> has_match(paths, part),
        first_match(paths, part) matches Some(i) ==> is_first_match(paths, part, i),
{
    if has_match(paths, part) {
        let w = choose|i: int| 0 <= i < paths.len() && contains(#[trigger] paths[i], part);
        least_match(paths, part, w);
    } else {
        if exists|i: int| is_first_match(paths, part, i) {
            let k = choose|i: int| is_first_match(paths, part, i);
            assert(contains(paths[k], part));
        }
    }
}

/// Below any match stands a first one.
proof fn least_match(paths: Seq<Seq<char>>, part: Seq<char>, w: int)
    requires
        0 <= w < paths.len(),
        contains(paths[w], part),
    ensures
        exists|i: int| is_first_match(paths, part, i),
    decreases w,
{
    if exists|j: int| 0 <= j < w && contains(#[trigger] paths[j], part) {
        let j = choose|j: int| 0 <= j < w && contains(#[trigger] paths[j], part);
        least_match(paths, part, j);
    } else {
        assert(is_first_match(paths, part, w));
    }
}

/// The index of the first path that contains `part` as a substring.
pub fn find_matching_index(paths: &[String], part: &str) -> (found: Option<usize>)
    ensures
        match found {
            Some(i) => first_match(texts(paths@), part@) == Some(i as int),
            None => first_match(texts(paths@), part@) is None,
        },
{
    let needle = to_chars(part);
    let mut i: usize = 0;
    while i < paths.len()
        invariant
            i <= paths.len(),
            needle@ == part@,
            forall|j: int| 0 <= j < i ==> !contains(#[trigger] texts(paths@)[j], part@),
        decreases paths.len() - i,
    {
        let hay = to_chars(paths[i].as_str());
        if contains_chars(&hay, &needle) {
            proof {
                assert(texts(paths@)[i as int] == paths@[i as int]@);
                first_match_is(texts(paths@), part@, i as int);
            }
            return Some(i);
        }
        assert(texts(paths@)[i as int] == paths@[i as int]@);
        i += 1;
    }
    proof {
        first_match_none(texts(paths@), part@);
    }
    None
}

/// The first path, in the order given, that contains `part` as a substring;
/// `None` where no path does. The empty `part` is contained in every path.
pub fn find_matching_file(paths: &[String], part: &str) -> (found: Option<String>)
    ensures
        match found {
            Some(path) => first_match(texts(paths@), part@) matches Some(i) && path@ == texts(
                paths@,
            )[i],
            None => first_match(texts(paths@), part@) is None,
        },
{
    match find_matching_index(paths, part) {
        Some(i) => {
            assert(texts(paths@)[i as int] == paths@[i as int]@);
            Some(paths[i].clone())
        },
        None => None,
    }
}

/// The path at index `i` does not lie under `root`, and every path before
/// it does.
pub open spec fn is_first_outside(paths: Seq<Seq<char>>, root: Seq<char>, i: int) -> bool {
    &&& 0 <= i < paths.len()
    &&& !is_under(paths[i], root)
    &&& forall|j: int| 0 <= j < i ==> is_under(#[trigger] paths[j], root)
}

/// What a corpus is in contracts: the root directory and the paths, as text.
pub struct CorpusView {
    pub root: Seq<char>,
    pub paths: Seq<Seq<char>>,
}

impl CorpusView {
    /// Every path lies under the root.
    pub open spec fn wf(self) -> bool {
        forall|i: int| 0 <= i < self.paths.len() ==> is_under(#[trigger] self.paths[i], self.root)
    }

    /// The root-relative form of the first path that contains `reference`.
    pub open spec fn resolve(self, reference: Seq<char>) -> Option<Seq<char>> {
        match first_match(self.paths, reference) {
            Some(i) => root_relative(self.paths[i], self.root),
            None => None,
        }
    }
}

/// The documents of one run: a root directory and the paths found under it,
/// in the order in which they were found. It does not change once built.
pub struct Corpus {
    root: String,
    paths: Vec<String>,
    /// The root-relative form of each path.
    references: Vec<String>,
}

impl View for Corpus {
    type V = CorpusView;

    closed spec fn view(&self) -> CorpusView {
        CorpusView { root: self.root@, paths: texts(self.paths@) }
    }
}

impl Corpus {
    #[verifier::type_invariant]
    spec fn inv(self) -> bool {
        &&& self.references.len() == self.paths.len()
        &&& forall|i: int|
            0 <= i < self.paths.len() ==> root_relative(#[trigger] self.paths[i]@, self.root@)
                == Some(self.references[i]@)
    }

    /// A corpus of `paths` under `root`. It is refused where a path does not
    /// lie under `root`, with the index of the first such path.
    pub fn new(root: &str, paths: Vec<String>) -> (made: Result<Corpus, LinkError>)
        ensures
            match made {
                Ok(corpus) => corpus@.root == root@ && corpus@.paths == texts(paths@)
                    && corpus@.wf(),
                Err(e) => e matches LinkError::OutsideRoot { index } && is_first_outside(
                    texts(paths@),
                    root@,
                    index as int,
                ),
            },
    {
        let mut references: Vec<String> = Vec::new();
        let mut i: usize = 0;
        while i < paths.len()
            invariant
                i <= paths.len(),
                references.len() == i,
                forall|j: int|
                    0 <= j < i ==> root_relative(#[trigger] paths[j]@, root@) == Some(
                        references[j]@,
                    ) && is_under(paths[j]@, root@),
            decreases paths.len() - i,
        {
            match root_relative_path(paths[i].as_str(), root) {
                Some(reference) => {
                    references.push(reference);
                },
                None => {
                    assert(is_first_outside(texts(paths@), root@, i as int)) by {
                        assert forall|j: int| 0 <= j <= i implies texts(paths@)[j] == paths[j]@ by {}
                    }
                    return Err(LinkError::OutsideRoot { index: i });
                },
            }
            i += 1;
        }
        let corpus = Corpus { root: root.to_owned(), paths, references };
        proof {
            assert forall|j: int| 0 <= j < corpus@.paths.len() implies is_under(
                #[trigger] corpus@.paths[j],
                corpus@.root,
            ) by {
                assert(corpus@.paths[j] == paths[j]@);
            }
        }
        Ok(corpus)
    }

    /// The root-relative form of the first path that contains `reference` as
    /// a substring; `None` where no path contains it.
    pub fn resolve(&self, reference: &str) -> (resolved: Option<String>)
        ensures
            self@.wf(),
            match resolved {
                Some(target) => self@.resolve(reference@) == Some(target@),
                None => self@.resolve(reference@) is None && !has_match(self@.paths, reference@),
            },
    {
        proof {
            use_type_invariant(self);
            self.inv_is_wf();
            first_match_exists(self@.paths, reference@);
        }
        match find_matching_index(self.paths.as_slice(), reference) {
            Some(i) => {
                assert(texts(self.paths@)[i as int] == self.paths@[i as int]@);
                Some(self.references[i].clone())
            },
            None => None,
        }
    }

    /// The root directory.
    pub fn root(&self) -> (root: &str)
        ensures
            root@ == self@.root,
    {
        self.root.as_str()
    }

    /// The number of documents.
    pub fn len(&self) -> (count: usize)
        ensures
            count == self@.paths.len(),
    {
        self.paths.len()
    }

    /// The path of the document at `index`, counted in the order in which
    /// the documents were found.
    pub fn path(&self, index: usize) -> (path: Option<&str>)
        ensures
            match path {
                Some(text) => index < self@.paths.len() && text@ == self@.paths[index as int],
                None => index >= self@.paths.len(),
            },
    {
        if index < self.paths.len() {
            Some(self.paths[index].as_str())
        } else {
            None
        }
    }

    /// The invariant of the type makes its view well formed.
    proof fn inv_is_wf(self)
        requires
            self.inv(),
        ensures
            self@.wf(),
    {
        assert forall|j: int| 0 <= j < self@.paths.len() implies is_under(
            #[trigger] self@.paths[j],
            self@.root,
        ) by {
            assert(self@.paths[j] == self.paths[j]@);
            relative_exactly_under(self@.paths[j], self@.root);
        }
    }
}

/// A reference that some path of the corpus contains is resolved: to a path
/// that starts with exactly one separator and that, joined to the root, names
/// what the first path containing the reference names. The root is not
/// empty: joined to the empty root, the resolved path would start at the
/// root of the file system whatever the document's path starts with.
pub proof fn resolved_names_first_match(corpus: CorpusView, reference: Seq<char>)
    requires
        corpus.wf(),
        corpus.root.len() > 0,
        has_match(corpus.paths, reference),
    ensures
        first_match(corpus.paths, reference) is Some,
        corpus.resolve(reference) is Some,
        corpus.resolve(reference)->0[0] == SEPARATOR,
        corpus.resolve(reference)->0.len() > 1 ==> corpus.resolve(reference)->0[1] != SEPARATOR,
        same_path(
            corpus.root + corpus.resolve(reference)->0,
            corpus.paths[first_match(corpus.paths, reference)->0],
        ),
{
    first_match_exists(corpus.paths, reference);
    let i = first_match(corpus.paths, reference)->0;
    root_relative_rejoins(corpus.paths[i], corpus.root);
}

/// A reference that some path of the corpus contains is resolved, whatever
/// the root.
pub proof fn matched_is_resolved(corpus: CorpusView, reference: Seq<char>)
    requires
        corpus.wf(),
        has_match(corpus.paths, reference),
    ensures
        corpus.resolve(reference) is Some,
{
    first_match_exists(corpus.paths, reference);
    let i = first_match(corpus.paths, reference)->0;
    relative_exactly_under(corpus.paths[i], corpus.root);
}

/// A reference that no path of the corpus contains is not resolved.
pub proof fn unmatched_is_unresolved(corpus: CorpusView, reference: Seq<char>)
    requires
        !has_match(corpus.paths, reference),
    ensures
        corpus.resolve(reference) is None,
{
    first_match_exists(corpus.paths, reference);
}

} // verus!
