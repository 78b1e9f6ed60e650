use static_server::resolver::{candidate_keys, find_exists_key, Resolver, Step};
use std::cell::Cell;

fn resolve_in(store: &[&str], path: &str) -> Option<String> {
    find_exists_key(&|key: &String| store.contains(&key.as_str()), path)
}

fn step_through(store: &[&str], path: &str) -> (Option<String>, Vec<String>) {
    let mut asked = Vec::new();
    let mut resolver = Resolver::start(path);
    loop {
        let key = resolver.current().clone();
        let found = store.contains(&key.as_str());
        asked.push(key);
        match resolver.answer(found) {
            Step::Done(result) => return (result, asked),
            Step::Probe(next) => resolver = next,
        }
    }
}

#[test]
fn candidates_of_a_directory_path() {
    assert_eq!(candidate_keys(""), vec!["index.html"]);
    assert_eq!(candidate_keys("docs/"), vec!["docs/index.html"]);
    assert_eq!(candidate_keys("/"), vec!["/index.html"]);
}

#[test]
fn candidates_of_a_file_path() {
    assert_eq!(
        candidate_keys("site/about"),
        vec!["site/about", "site/about.html", "site/index.html", "index.html"]
    );
    assert_eq!(candidate_keys("about"), vec!["about", "about.html", "about/index.html", "index.html"]);
}

#[test]
fn candidates_of_a_path_that_ends_in_html() {
    assert_eq!(
        candidate_keys("site/page.html"),
        vec!["site/page.html", "site/page.html", "site/index.html", "index.html"]
    );
    assert_eq!(candidate_keys("a.htm"), vec!["a.htm", "a.htm.html", "a.htm/index.html", "index.html"]);
    assert_eq!(candidate_keys("html"), vec!["html", "html.html", "html/index.html", "index.html"]);
}

#[test]
fn candidates_of_a_path_without_first_segment() {
    assert_eq!(candidate_keys("/x"), vec!["/x", "/x.html", "index.html"]);
}

#[test]
fn exact_match_wins() {
    let store = ["site/about", "site/about.html", "site/index.html", "index.html"];
    assert_eq!(resolve_in(&store, "site/about"), Some("site/about".to_string()));
}

#[test]
fn directory_path_resolves_to_its_index_or_nothing() {
    assert_eq!(resolve_in(&["docs/index.html"], "docs/"), Some("docs/index.html".to_string()));
    assert_eq!(resolve_in(&["index.html", "docs"], "docs/"), None);
    assert_eq!(resolve_in(&["index.html"], ""), Some("index.html".to_string()));
    assert_eq!(resolve_in(&["docs/index.html"], ""), None);
}

#[test]
fn html_form_comes_second() {
    let store = ["site/about.html", "site/index.html", "index.html"];
    assert_eq!(resolve_in(&store, "site/about"), Some("site/about.html".to_string()));
}

#[test]
fn root_index_only_serves_any_file_path() {
    assert_eq!(resolve_in(&["index.html"], "about"), Some("index.html".to_string()));
}

#[test]
fn first_segment_index_comes_before_root_index() {
    assert_eq!(
        resolve_in(&["site/index.html"], "site/about"),
        Some("site/index.html".to_string())
    );
    assert_eq!(
        resolve_in(&["site/index.html", "index.html"], "site/deep/er/page"),
        Some("site/index.html".to_string())
    );
}

#[test]
fn nothing_matches() {
    assert_eq!(resolve_in(&[], "x"), None);
    assert_eq!(resolve_in(&["y", "y.html", "y/index.html"], "x"), None);
}

#[test]
fn empty_first_segment_is_not_tried() {
    assert_eq!(resolve_in(&["/index.html"], "/x"), None);
    assert_eq!(resolve_in(&["/index.html", "index.html"], "/x"), Some("index.html".to_string()));
}

#[test]
fn resolver_asks_in_order_and_stops_at_the_first_hit() {
    let (result, asked) = step_through(&["site/index.html", "index.html"], "site/about");
    assert_eq!(result, Some("site/index.html".to_string()));
    assert_eq!(asked, vec!["site/about", "site/about.html", "site/index.html"]);

    let (result, asked) = step_through(&[], "site/about");
    assert_eq!(result, None);
    assert_eq!(asked, vec!["site/about", "site/about.html", "site/index.html", "index.html"]);

    let (result, asked) = step_through(&["index.html"], "docs/");
    assert_eq!(result, None);
    assert_eq!(asked, vec!["docs/index.html"]);
}

#[test]
fn oracle_is_asked_once_per_candidate() {
    let calls = Cell::new(0);
    let oracle = |key: &String| {
        calls.set(calls.get() + 1);
        key == "index.html"
    };
    assert_eq!(find_exists_key(&oracle, "a/b"), Some("index.html".to_string()));
    assert_eq!(calls.get(), 4);
}

#[test]
fn stepwise_and_direct_resolution_agree() {
    let store = ["a/index.html", "b.html", "c", "index.html"];
    for path in ["", "a", "a/", "a/x", "b", "b.html", "c", "c/", "d/e/f", "/", "/q"] {
        assert_eq!(step_through(&store, path).0, resolve_in(&store, path), "path {:?}", path);
    }
}
