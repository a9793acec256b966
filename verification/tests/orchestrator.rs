//! Build orchestrator behaviour, with the real markdown and template
//! engines linked.
use catalyst::cache::BuildCache;
use catalyst::commands::build;
use catalyst::config::Config;
use catalyst::render::RenderError;

fn config() -> Config {
    Config {
        title: "My Site".to_string(),
        logo: "logo.png".to_string(),
        entries: "content".to_string(),
        build: "public".to_string(),
        theme: "theme".to_string(),
        containers: None,
        incremental: true,
        cache: ".cache".to_string(),
    }
}

fn entry(path: &str, title: &str, mtime: u64) -> (String, String, u64) {
    (
        path.to_string(),
        format!("---\ntitle: {}\ndate: 2024-01-01\n---\n\n# {}\n", title, title),
        mtime,
    )
}

const PAGE: &str = "<body>{{ content }}</body>";
const INDEX: &str = "{% for p in page.posts %}{{ p.slug }};{% endfor %}";

#[test]
fn initial_build_renders_every_entry() {
    let files = vec![entry("content/a.md", "A", 10), entry("content/sub/b.md", "B", 20)];
    let out = build(&config(), &None, PAGE, INDEX, &files, BuildCache::new(), true).unwrap();
    assert_eq!(out.posts.len(), 2);
    assert_eq!(out.posts[0].title, "A");
    assert_eq!(out.posts[0].slug, "a");
    assert_eq!(out.posts[1].slug, "sub/b");
    assert_eq!(out.outputs[0].0, "public/a.html");
    assert_eq!(out.outputs[1].0, "public/sub/b.html");
    assert_eq!(out.outputs[0].1, "<body><h1>A</h1>\n</body>");
    assert_eq!(out.index_html, "a;sub/b;");
    assert_eq!(out.cache.get("a"), Some(10));
    assert_eq!(out.cache.get("sub/b"), Some(20));
}

#[test]
fn second_incremental_pass_renders_nothing() {
    let files = vec![entry("content/a.md", "A", 10), entry("content/b.md", "B", 20)];
    let first = build(&config(), &None, PAGE, INDEX, &files, BuildCache::new(), true).unwrap();
    let second = build(&config(), &None, PAGE, INDEX, &files, first.cache, true).unwrap();
    assert_eq!(second.posts.len(), 0);
    assert_eq!(second.outputs.len(), 0);
    assert_eq!(second.index_html, "");
}

#[test]
fn touched_entry_is_rebuilt_alone() {
    let files = vec![entry("content/a.md", "A", 10), entry("content/b.md", "B", 20)];
    let first = build(&config(), &None, PAGE, INDEX, &files, BuildCache::new(), true).unwrap();
    let touched = vec![entry("content/a.md", "A", 11), entry("content/b.md", "B", 20)];
    let second = build(&config(), &None, PAGE, INDEX, &touched, first.cache, true).unwrap();
    assert_eq!(second.posts.len(), 1);
    assert_eq!(second.posts[0].slug, "a");
    assert_eq!(second.cache.get("a"), Some(11));
}

#[test]
fn full_mode_ignores_the_cache() {
    let files = vec![entry("content/a.md", "A", 10)];
    let first = build(&config(), &None, PAGE, INDEX, &files, BuildCache::new(), true).unwrap();
    let second = build(&config(), &None, PAGE, INDEX, &files, first.cache, false).unwrap();
    assert_eq!(second.posts.len(), 1);
}

#[test]
fn missing_title_aborts_the_pass() {
    let files = vec![(
        "content/bad.md".to_string(),
        "---\ndate: 2024-01-01\n---\nbody".to_string(),
        1,
    )];
    let err = build(&config(), &None, PAGE, INDEX, &files, BuildCache::new(), true)
        .unwrap_err();
    match err {
        RenderError::MissingTitle(p) => assert_eq!(p, "content/bad.md"),
        _ => panic!("expected a missing-title error"),
    }
}

#[test]
fn missing_date_aborts_the_pass() {
    let files = vec![(
        "content/bad.md".to_string(),
        "---\ntitle: T\n---\nbody".to_string(),
        1,
    )];
    let err = build(&config(), &None, PAGE, INDEX, &files, BuildCache::new(), true)
        .unwrap_err();
    match err {
        RenderError::MissingDate(p) => assert_eq!(p, "content/bad.md"),
        _ => panic!("expected a missing-date error"),
    }
}

#[test]
fn bad_page_template_aborts_the_pass() {
    let files = vec![entry("content/a.md", "A", 1)];
    let err = build(&config(), &None, "{% bogus %}", INDEX, &files, BuildCache::new(), true)
        .unwrap_err();
    assert!(matches!(err, RenderError::Template(_)));
}

#[test]
fn index_template_sees_site_and_posts() {
    let files = vec![entry("content/a.md", "Hello", 1)];
    let index = "{{ config.title }}:{% for p in page.posts %}{{ p.title }}/{{ p.date }}{% endfor %}";
    let out = build(&config(), &None, PAGE, index, &files, BuildCache::new(), true).unwrap();
    assert_eq!(out.index_html, "My Site:Hello/2024-01-01");
}
