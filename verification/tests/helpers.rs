//! Configuration defaults, the index generator, and the new-entry helpers.
use catalyst::commands::{new_post_content, new_post_path, title_slug};
use catalyst::config::{default_cache_path, default_incremental, Config};
use catalyst::posts::{generate_index, Post};

fn config() -> Config {
    Config {
        title: "My Site".to_string(),
        logo: "logo.png".to_string(),
        entries: "content".to_string(),
        build: "public".to_string(),
        theme: "theme".to_string(),
        containers: None,
        incremental: true,
        cache: ".cache".to_string(),
    }
}

#[test]
fn defaults() {
    assert_eq!(default_cache_path(), ".catalyst-cache.yaml");
    assert!(default_incremental());
}

#[test]
fn titles_become_slugs() {
    assert_eq!(title_slug("Hello World"), "hello-world");
    assert_eq!(title_slug("What's Up, Doc?"), "whats-up-doc");
    assert_eq!(title_slug("already-fine-123"), "already-fine-123");
    assert_eq!(title_slug("Ünïcödé gets dropped"), "ncd-gets-dropped");
}

#[test]
fn new_post_paths() {
    let c = config();
    assert_eq!(new_post_path(&c, &None, "Hello World"), "content/hello-world.md");
    assert_eq!(
        new_post_path(&c, &Some("drafts".to_string()), "Hello World"),
        "content/drafts/hello-world.md"
    );
}

#[test]
fn new_post_skeleton() {
    assert_eq!(
        new_post_content("My Title", "2024-06-01"),
        "---\ntitle: My Title\ndate: 2024-06-01\n---\n\n# My Title\n"
    );
}

#[test]
fn index_renders_posts_in_order() {
    let posts = vec![
        Post { title: "A".to_string(), date: "d1".to_string(), slug: "a".to_string() },
        Post { title: "B".to_string(), date: "d2".to_string(), slug: "s/b".to_string() },
    ];
    let html = generate_index(
        &config(),
        &posts,
        "{{ config.title }}>{% for p in page.posts %}[{{ p.slug }}]{% endfor %}",
    )
    .unwrap();
    assert_eq!(html, "My Site>[a][s/b]");
}

#[test]
fn bad_index_template_is_an_error() {
    let posts: Vec<Post> = vec![];
    assert!(generate_index(&config(), &posts, "{% endfor %}").is_err());
}

#[test]
fn post_source_paths_sit_under_the_content_root() {
    assert_eq!(
        catalyst::commands::post_source_path(&config(), "s/b"),
        "content/s/b.md"
    );
}
