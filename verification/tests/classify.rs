use relink::classify::{classify_matched, Classification, Classifier, EXTERNAL_PATTERN};
use relink::corpus::Corpus;

fn site() -> Corpus {
    Corpus::new(
        "/site",
        vec!["/site/index.html".to_string(), "/site/blog/post.html".to_string()],
    )
    .unwrap()
}

#[test]
fn pattern_compiles() {
    assert!(Classifier::new().is_some());
}

#[test]
fn pattern_is_the_documented_one() {
    assert_eq!(EXTERNAL_PATTERN, r"https?://(\w|-)+(\.(\w|-)+)*(/[\w\-./?%&=]*)?");
    assert_eq!(Classifier::new().unwrap().pattern_text(), EXTERNAL_PATTERN);
}

#[test]
fn absolute_urls_are_external() {
    let classifier = Classifier::new().unwrap();
    assert!(classifier.is_external("https://example.com/about"));
    assert!(classifier.is_external("http://example.com"));
    assert!(classifier.is_external("https://sub.example-site.org/a/b.html?x=1&y=%20"));
    assert!(classifier.is_external("https://example.com/"));
}

#[test]
fn host_of_one_label_is_external() {
    let classifier = Classifier::new().unwrap();
    assert!(classifier.is_external("http://localhost"));
    assert!(classifier.is_external("http://localhost/index.html"));
}

#[test]
fn other_references_are_not_external() {
    let classifier = Classifier::new().unwrap();
    assert!(!classifier.is_external("blog/post"));
    assert!(!classifier.is_external("/foo"));
    assert!(!classifier.is_external("//example.com/path"));
    assert!(!classifier.is_external("mailto:someone@example.com"));
    assert!(!classifier.is_external("tel:+123456789"));
    assert!(!classifier.is_external("ftp://example.com/file"));
    assert!(!classifier.is_external("https://"));
    assert!(!classifier.is_external("https:/example.com"));
}

#[test]
fn empty_reference_and_fragment_are_not_external() {
    let classifier = Classifier::new().unwrap();
    assert!(!classifier.is_external(""));
    assert!(!classifier.is_external("#section"));
}

#[test]
fn url_anywhere_in_the_reference_makes_it_external() {
    let classifier = Classifier::new().unwrap();
    assert!(classifier.is_external("https://example.com/about#team"));
    assert!(classifier.is_external("redirect?to=http://example.com"));
}

#[test]
fn external_reference_is_classified_without_the_corpus() {
    let classifier = Classifier::new().unwrap();
    let empty = Corpus::new("/site", Vec::new()).unwrap();
    assert_eq!(classifier.classify("https://example.com/about", &site()), Classification::External);
    assert_eq!(classifier.classify("https://example.com/about", &empty), Classification::External);
}

#[test]
fn external_reference_that_a_path_contains_stays_external() {
    let corpus = Corpus::new("/site", vec!["/site/http://example.com".to_string()]).unwrap();
    let classifier = Classifier::new().unwrap();
    assert_eq!(classifier.classify("http://example.com", &corpus), Classification::External);
}

#[test]
fn internal_reference_is_classified_with_its_target() {
    let classifier = Classifier::new().unwrap();
    assert_eq!(
        classifier.classify("blog/post", &site()),
        Classification::Internal("/blog/post.html".to_string())
    );
}

#[test]
fn missing_reference_is_unresolved() {
    let classifier = Classifier::new().unwrap();
    assert_eq!(classifier.classify("missing-page", &site()), Classification::Unresolved);
    assert_eq!(classifier.classify("mailto:someone@example.com", &site()), Classification::Unresolved);
    assert_eq!(classifier.classify("#section", &site()), Classification::Unresolved);
}

#[test]
fn empty_reference_is_internal_to_the_first_document() {
    let classifier = Classifier::new().unwrap();
    assert_eq!(
        classifier.classify("", &site()),
        Classification::Internal("/index.html".to_string())
    );
}

#[test]
fn classify_matched_follows_the_flag() {
    let corpus = site();
    assert_eq!(classify_matched(true, "blog/post", &corpus), Classification::External);
    assert_eq!(
        classify_matched(false, "blog/post", &corpus),
        Classification::Internal("/blog/post.html".to_string())
    );
    assert_eq!(classify_matched(false, "https://example.com", &corpus), Classification::Unresolved);
}
