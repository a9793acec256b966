//! Entry renderer behaviour: metadata, identifiers, paths and the external
//! engines behind their wrappers.
use catalyst::config::{ArgPolicy, Config, ContainerConfig};
use catalyst::render::{
    entry_body, entry_id_of, extract_frontmatter, output_path_of, process_markdown, render_html,
    RenderError,
};

fn config() -> Config {
    Config {
        title: "My Site".to_string(),
        logo: "logo.png".to_string(),
        entries: "content".to_string(),
        build: "public".to_string(),
        theme: "theme".to_string(),
        containers: None,
        incremental: true,
        cache: ".cache".to_string(),
    }
}

#[test]
fn frontmatter_is_the_span_between_markers() {
    assert_eq!(extract_frontmatter("---\ntitle: X\n---\nbody"), "\ntitle: X\n");
    assert_eq!(extract_frontmatter("no markers here"), "");
    assert_eq!(extract_frontmatter("---\nunterminated"), "");
    assert_eq!(extract_frontmatter(""), "");
}

#[test]
fn entry_ids_strip_root_extension_and_separator() {
    assert_eq!(entry_id_of("content/a.md", "content"), "a");
    assert_eq!(entry_id_of("content/sub/deep/x.md", "content"), "sub/deep/x");
    assert_eq!(entry_id_of("elsewhere/a.md", "content"), "elsewhere/a");
    assert_eq!(entry_id_of("content/plain.txt", "content"), "plain.txt");
}

#[test]
fn output_paths_swap_root_and_extension() {
    assert_eq!(output_path_of("content/a.md", "content", "public"), "public/a.html");
    assert_eq!(output_path_of("content/s/b.md", "content", "public"), "public/s/b.html");
    assert_eq!(output_path_of("other/c.md", "content", "public"), "other/c.html");
    assert_eq!(output_path_of("content/readme.txt", "content", "public"), "public/readme.txt");
}

#[test]
fn markdown_conversion_is_real() {
    assert_eq!(render_html("# Hi\n"), "<h1>Hi</h1>\n");
    assert_eq!(render_html("plain *em*\n"), "<p>plain <em>em</em></p>\n");
}

#[test]
fn whole_entry_renders_through_the_page_template() {
    let raw = "---\ntitle: Hello\ndate: 2024-01-02\n---\n\n# Hi\n";
    let out = process_markdown(
        &config(),
        &None,
        "<html>{{ config.title }}|{{ page.title }}|{{ content }}</html>",
        "content/hello.md",
        raw,
    )
    .unwrap();
    assert_eq!(out.post.title, "Hello");
    assert_eq!(out.post.date, "2024-01-02");
    assert_eq!(out.post.slug, "hello");
    assert_eq!(out.output_path, "public/hello.html");
    assert_eq!(out.html, "<html>My Site|Hello|<h1>Hi</h1>\n</html>");
}

#[test]
fn containers_expand_before_conversion() {
    let d = Some(vec![(
        "note".to_string(),
        ContainerConfig {
            template: "> {{0}}: {{content}}\n".to_string(),
            args: ArgPolicy::Positional(1),
        },
    )]);
    let raw = "---\ntitle: T\ndate: D\n---\n:::note\nCareful\nwatch out\n:::\n";
    let out = process_markdown(&config(), &d, "{{ content }}", "content/t.md", raw).unwrap();
    assert_eq!(out.html, "<blockquote>\n<p>Careful: watch out</p>\n</blockquote>\n");
}

#[test]
fn missing_metadata_names_the_file() {
    let out = process_markdown(&config(), &None, "{{ content }}", "content/x.md", "no meta");
    match out {
        Err(RenderError::MissingTitle(p)) => {
            assert_eq!(p, "content/x.md");
        },
        _ => panic!("expected a missing-title error"),
    }
    let out = process_markdown(
        &config(),
        &None,
        "{{ content }}",
        "content/x.md",
        "---\ntitle: T\n---\n",
    );
    assert!(matches!(out, Err(RenderError::MissingDate(_))));
}

#[test]
fn error_messages_name_the_cause() {
    let e = RenderError::MissingTitle("content/x.md".to_string());
    assert_eq!(e.message(), "missing required title key in content/x.md");
    let e = RenderError::Template("boom".to_string());
    assert_eq!(e.message(), "template render failed: boom");
}

#[test]
fn structured_metadata_reaches_the_template() {
    let raw = "---\ntitle: T\ndate: D\nweight: 3\ntags: [a, b]\n---\nbody\n";
    let out = process_markdown(
        &config(),
        &None,
        "{{ page.weight }}|{{ page.tags[0] }}{{ page.tags[1] }}|{{ content }}",
        "content/t.md",
        raw,
    )
    .unwrap();
    assert_eq!(out.post.title, "T");
    assert_eq!(out.html, "3|ab|<p>body</p>\n");
}

#[test]
fn non_string_title_is_treated_as_missing() {
    let raw = "---\ntitle: [not, a, string]\ndate: D\n---\nbody\n";
    let out = process_markdown(&config(), &None, "{{ content }}", "content/t.md", raw);
    match out {
        Err(RenderError::MissingTitle(p)) => assert_eq!(p, "content/t.md"),
        _ => panic!("expected a missing-title error"),
    }
}

#[test]
fn expansion_sees_the_body_only() {
    // a metadata line that looks like a block opener must stay opaque to
    // the expander; only the body is scanned
    let d = Some(vec![(
        "n: v".to_string(),
        ContainerConfig { template: "[X]".to_string(), args: ArgPolicy::Positional(0) },
    )]);
    let raw = "---\ntitle: T\ndate: D\n\":::n\": v\n---\nhello\n";
    let out = process_markdown(&config(), &d, "{{ content }}", "content/t.md", raw).unwrap();
    assert_eq!(out.post.title, "T");
    assert_eq!(out.html, "<p>hello</p>\n");
}

#[test]
fn body_is_the_text_after_the_metadata_block() {
    assert_eq!(entry_body("---\ntitle: X\n---\nbody"), "\nbody");
    assert_eq!(entry_body("no markers"), "no markers");
    assert_eq!(entry_body("---\nunterminated"), "---\nunterminated");
}
