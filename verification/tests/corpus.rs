use relink::corpus::{find_matching_file, find_matching_index, Corpus};
use relink::error::LinkError;

fn strings(paths: &[&str]) -> Vec<String> {
    paths.iter().map(|p| p.to_string()).collect()
}

#[test]
fn finds_the_path_that_contains_the_part() {
    let paths = strings(&["/site/index.html", "/site/blog/post.html"]);
    assert_eq!(find_matching_file(&paths, "blog/post"), Some("/site/blog/post.html".to_string()));
    assert_eq!(find_matching_index(&paths, "blog/post"), Some(1));
}

#[test]
fn finds_nothing_where_no_path_contains_the_part() {
    let paths = strings(&["/site/index.html", "/site/blog/post.html"]);
    assert_eq!(find_matching_file(&paths, "missing-page"), None);
    assert_eq!(find_matching_index(&paths, "missing-page"), None);
}

#[test]
fn finds_nothing_in_an_empty_corpus() {
    let paths: Vec<String> = Vec::new();
    assert_eq!(find_matching_file(&paths, "index"), None);
    assert_eq!(find_matching_file(&paths, ""), None);
}

#[test]
fn of_two_matches_the_lower_index_is_taken() {
    let paths = strings(&["/site/post.html", "/site/old/post.html"]);
    assert_eq!(find_matching_file(&paths, "post"), Some("/site/post.html".to_string()));
    assert_eq!(find_matching_index(&paths, "post"), Some(0));
    let swapped = strings(&["/site/old/post.html", "/site/post.html"]);
    assert_eq!(find_matching_file(&swapped, "post"), Some("/site/old/post.html".to_string()));
}

#[test]
fn empty_part_matches_the_first_path() {
    let paths = strings(&["/site/index.html", "/site/blog/post.html"]);
    assert_eq!(find_matching_file(&paths, ""), Some("/site/index.html".to_string()));
}

#[test]
fn match_may_be_a_leading_part_of_the_path() {
    let paths = strings(&["/other/a.html", "/site/a.html"]);
    assert_eq!(find_matching_file(&paths, "/site"), Some("/site/a.html".to_string()));
}

#[test]
fn corpus_under_the_root_is_accepted() {
    let corpus = Corpus::new("/site", strings(&["/site/index.html", "/site/blog/post.html"]));
    let corpus = corpus.unwrap();
    assert_eq!(corpus.root(), "/site");
    assert_eq!(corpus.len(), 2);
    assert_eq!(corpus.path(0), Some("/site/index.html"));
    assert_eq!(corpus.path(1), Some("/site/blog/post.html"));
    assert_eq!(corpus.path(2), None);
}

#[test]
fn empty_corpus_is_accepted() {
    let corpus = Corpus::new("/site", Vec::new()).unwrap();
    assert_eq!(corpus.len(), 0);
    assert_eq!(corpus.resolve("index"), None);
    assert_eq!(corpus.resolve(""), None);
}

#[test]
fn corpus_with_a_path_outside_the_root_is_refused() {
    let made = Corpus::new("/site", strings(&["/site/index.html", "/elsewhere/a.html", "/b.html"]));
    assert_eq!(made.err(), Some(LinkError::OutsideRoot { index: 1 }));
}

#[test]
fn reference_resolves_to_the_root_relative_path() {
    let corpus = Corpus::new("/site", strings(&["/site/index.html", "/site/blog/post.html"])).unwrap();
    assert_eq!(corpus.resolve("blog/post"), Some("/blog/post.html".to_string()));
    assert_eq!(corpus.resolve("index"), Some("/index.html".to_string()));
}

#[test]
fn missing_reference_does_not_resolve() {
    let corpus = Corpus::new("/site", strings(&["/site/index.html", "/site/blog/post.html"])).unwrap();
    assert_eq!(corpus.resolve("missing-page"), None);
}

#[test]
fn ambiguous_reference_resolves_to_the_lower_index() {
    let corpus = Corpus::new("/site", strings(&["/site/post.html", "/site/old/post.html"])).unwrap();
    assert_eq!(corpus.resolve("post"), Some("/post.html".to_string()));
    let swapped = Corpus::new("/site", strings(&["/site/old/post.html", "/site/post.html"])).unwrap();
    assert_eq!(swapped.resolve("post"), Some("/old/post.html".to_string()));
}

#[test]
fn empty_reference_resolves_to_the_first_document() {
    let corpus = Corpus::new("/site", strings(&["/site/index.html", "/site/blog/post.html"])).unwrap();
    assert_eq!(corpus.resolve(""), Some("/index.html".to_string()));
}

#[test]
fn fragment_does_not_resolve() {
    let corpus = Corpus::new("/site", strings(&["/site/index.html", "/site/blog/post.html"])).unwrap();
    assert_eq!(corpus.resolve("#section"), None);
}

#[test]
fn root_relative_reference_resolves_to_itself() {
    let corpus = Corpus::new("/site", strings(&["/site/index.html", "/site/blog/post.html"])).unwrap();
    let first = corpus.resolve("blog/post").unwrap();
    assert_eq!(corpus.resolve(&first), Some(first.clone()));
}

#[test]
fn reference_may_match_the_root_part_of_a_path() {
    let corpus = Corpus::new("/site", strings(&["/site/index.html"])).unwrap();
    assert_eq!(corpus.resolve("site/index"), Some("/index.html".to_string()));
}

#[test]
fn resolved_path_joined_to_the_root_is_the_matched_path() {
    let paths = strings(&["/site/index.html", "/site/blog/post.html", "/site/blog/2020/a.html"]);
    let corpus = Corpus::new("/site", paths.clone()).unwrap();
    for reference in ["index", "blog/post", "2020", "a.html", "/site/blog"] {
        let matched = find_matching_file(&paths, reference).unwrap();
        let resolved = corpus.resolve(reference).unwrap();
        assert_eq!(format!("/site{}", resolved), matched);
    }
}

#[test]
fn names_that_do_not_count_are_left_out_of_the_resolved_path() {
    let corpus = Corpus::new("/site/", strings(&["//site/./blog//post.html/"])).unwrap();
    assert_eq!(corpus.resolve("post"), Some("/blog//post.html".to_string()));
    let at_root = Corpus::new("/site", strings(&["/site/"])).unwrap();
    assert_eq!(at_root.resolve("site"), Some("/".to_string()));
}

#[test]
fn corpus_under_the_empty_root_keeps_whole_paths() {
    let corpus = Corpus::new("", strings(&["a/b.html", "/c.html"])).unwrap();
    assert_eq!(corpus.resolve("b.html"), Some("/a/b.html".to_string()));
    assert_eq!(corpus.resolve("c.html"), Some("//c.html".to_string()));
}
