use relink::classify::Classifier;
use relink::corpus::Corpus;
use relink::error::LinkError;
use relink::rewrite::{rewrite_hrefs, rewrite_reference};

fn strings(items: &[&str]) -> Vec<String> {
    items.iter().map(|p| p.to_string()).collect()
}

fn site() -> Corpus {
    Corpus::new("/site", strings(&["/site/index.html", "/site/blog/post.html"])).unwrap()
}

#[test]
fn external_reference_comes_back_unchanged() {
    assert_eq!(
        rewrite_reference(true, "https://example.com/about", &site()),
        Some("https://example.com/about".to_string())
    );
}

#[test]
fn internal_reference_becomes_root_relative() {
    assert_eq!(rewrite_reference(false, "blog/post", &site()), Some("/blog/post.html".to_string()));
}

#[test]
fn unresolved_reference_has_no_rewriting() {
    assert_eq!(rewrite_reference(false, "missing-page", &site()), None);
}

#[test]
fn references_are_rewritten_in_document_order() {
    let classifier = Classifier::new().unwrap();
    let hrefs = strings(&["index", "https://example.com/about", "blog/post", "post.html"]);
    assert_eq!(
        rewrite_hrefs(&classifier, &hrefs, &site()),
        Ok(strings(&[
            "/index.html",
            "https://example.com/about",
            "/blog/post.html",
            "/blog/post.html"
        ]))
    );
}

#[test]
fn no_references_give_no_references() {
    let classifier = Classifier::new().unwrap();
    assert_eq!(rewrite_hrefs(&classifier, &Vec::new(), &site()), Ok(Vec::new()));
}

#[test]
fn first_unresolved_reference_is_named() {
    let classifier = Classifier::new().unwrap();
    let hrefs = strings(&["index", "missing-page", "blog/post", "also-missing"]);
    assert_eq!(
        rewrite_hrefs(&classifier, &hrefs, &site()),
        Err(LinkError::Unresolved { link: 1 })
    );
}

#[test]
fn mail_link_is_unresolved() {
    let classifier = Classifier::new().unwrap();
    let hrefs = strings(&["mailto:someone@example.com"]);
    assert_eq!(
        rewrite_hrefs(&classifier, &hrefs, &site()),
        Err(LinkError::Unresolved { link: 0 })
    );
}

#[test]
fn rewriting_twice_gives_the_same_references() {
    let classifier = Classifier::new().unwrap();
    let corpus = site();
    let hrefs = strings(&["index", "https://example.com/about", "blog/post", "", "/site"]);
    let once = rewrite_hrefs(&classifier, &hrefs, &corpus).unwrap();
    let twice = rewrite_hrefs(&classifier, &once, &corpus).unwrap();
    assert_eq!(once, twice);
}

#[test]
fn earlier_document_that_contains_the_rewritten_reference_takes_it_over() {
    let classifier = Classifier::new().unwrap();
    let corpus =
        Corpus::new("/site", strings(&["/site/a/blog/post.html", "/site/blog/post.html"])).unwrap();
    let once = rewrite_hrefs(&classifier, &strings(&["site/blog/post.html"]), &corpus).unwrap();
    assert_eq!(once, strings(&["/blog/post.html"]));
    let twice = rewrite_hrefs(&classifier, &once, &corpus).unwrap();
    assert_eq!(twice, strings(&["/a/blog/post.html"]));
}

#[test]
fn messages_tell_the_errors_apart() {
    assert_eq!(LinkError::Unresolved { link: 3 }.message(), "a link matches no document");
    assert_eq!(
        LinkError::OutsideRoot { index: 0 }.message(),
        "a document lies outside the root directory"
    );
    assert_eq!(LinkError::Markup.message(), "the hyperlinks could not be selected");
}
