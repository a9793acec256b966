//! The entry renderer: extracts an entry's metadata block, expands its
//! containers, converts the body to markup, applies the page template, and
//! computes the entry identifier and output path.
use vstd::prelude::*;

use crate::config::{site_pairs, site_view, Config, ContainerConfig};
use crate::posts::Post;
use crate::template::{apply, applied_of, expand_text, process_containers};
use crate::text::{chars_string, copy_range, push_all, str_chars};

verus! {

/// Index of the first `---` at or after `i`; `s.len()` if none.
pub open spec fn find_marker(s: Seq<char>, i: int) -> int
    decreases s.len() - i,
{
    if i < 0 || i + 2 >= s.len() {
        s.len() as int
    } else if s[i] == '-' && s[i + 1] == '-' && s[i + 2] == '-' {
        i
    } else {
        find_marker(s, i + 1)
    }
}

/// The metadata span: the text between a leading `---` and the next `---`;
/// empty when the text does not begin with the marker or no second marker
/// follows.
pub open spec fn frontmatter_spec(s: Seq<char>) -> Seq<char> {
    if s.len() >= 3 && s[0] == '-' && s[1] == '-' && s[2] == '-' {
        let m = find_marker(s, 3);
        if 3 <= m && m < s.len() {
            s.subrange(3, m)
        } else {
            Seq::empty()
        }
    } else {
        Seq::empty()
    }
}

/// The body: the text after the metadata block, or the whole text when no
/// metadata block opens and closes it. Container expansion and markup
/// conversion work on the body alone; the metadata span stays opaque to
/// them.
pub open spec fn body_spec(s: Seq<char>) -> Seq<char> {
    if s.len() >= 3 && s[0] == '-' && s[1] == '-' && s[2] == '-' {
        let m = find_marker(s, 3);
        if 3 <= m && m < s.len() {
            s.subrange(m + 3, s.len() as int)
        } else {
            s
        }
    } else {
        s
    }
}

/// `s` with the prefix `p` removed, when it starts with it.
pub open spec fn strip_prefix_spec(s: Seq<char>, p: Seq<char>) -> Seq<char> {
    if s.len() >= p.len() && s.subrange(0, p.len() as int) == p {
        s.subrange(p.len() as int, s.len() as int)
    } else {
        s
    }
}

/// `s` with the suffix `x` removed, when it ends with it.
pub open spec fn strip_suffix_spec(s: Seq<char>, x: Seq<char>) -> Seq<char> {
    if s.len() >= x.len() && s.subrange(s.len() - x.len(), s.len() as int) == x {
        s.subrange(0, s.len() - x.len())
    } else {
        s
    }
}

/// `s` with every leading separator removed.
pub open spec fn trim_slashes(s: Seq<char>) -> Seq<char>
    decreases s.len(),
{
    if s.len() > 0 && s[0] == '/' {
        trim_slashes(s.subrange(1, s.len() as int))
    } else {
        s
    }
}

/// The source extension.
pub open spec fn md_ext() -> Seq<char> {
    seq!['.', 'm', 'd']
}

/// The output extension.
pub open spec fn html_ext() -> Seq<char> {
    seq!['.', 'h', 't', 'm', 'l']
}

/// The entry identifier of a path: the content-root prefix and the source
/// extension stripped, then any leading separator.
pub open spec fn entry_id_spec(path: Seq<char>, content_root: Seq<char>) -> Seq<char> {
    trim_slashes(strip_suffix_spec(strip_prefix_spec(path, content_root), md_ext()))
}

/// The output path of an entry: the content-root prefix replaced by the
/// output root and the source extension by the output extension.
pub open spec fn output_path_spec(
    path: Seq<char>,
    content_root: Seq<char>,
    output_root: Seq<char>,
) -> Seq<char> {
    let p = if path.len() >= content_root.len() && path.subrange(0, content_root.len() as int)
        == content_root {
        output_root + path.subrange(content_root.len() as int, path.len() as int)
    } else {
        path
    };
    if p.len() >= md_ext().len() && p.subrange(p.len() - md_ext().len(), p.len() as int)
        == md_ext() {
        p.subrange(0, p.len() - md_ext().len()) + html_ext()
    } else {
        p
    }
}

/// Whether `s` starts with `p`.
#[verifier::loop_isolation(false)]
fn starts_with_chars(s: &Vec<char>, p: &Vec<char>) -> (r: bool)
    ensures
        r == (s@.len() >= p@.len() && s@.subrange(0, p@.len() as int) == p@),
{
    if s.len() < p.len() {
        return false;
    }
    let mut k: usize = 0;
    while k < p.len()
        invariant
            k <= p@.len() <= s@.len(),
            forall|t: int| 0 <= t < k ==> s@[t] == p@[t],
        decreases p@.len() - k,
    {
        if s[k] != p[k] {
            assert(s@.subrange(0, p@.len() as int)[k as int] != p@[k as int]);
            return false;
        }
        k = k + 1;
    }
    proof {
        assert(s@.subrange(0, p@.len() as int) =~= p@);
    }
    true
}

/// Whether `s` ends with `x`.
#[verifier::loop_isolation(false)]
fn ends_with_chars(s: &Vec<char>, x: &Vec<char>) -> (r: bool)
    ensures
        r == (s@.len() >= x@.len() && s@.subrange(s@.len() - x@.len(), s@.len() as int) == x@),
{
    if s.len() < x.len() {
        return false;
    }
    let base: usize = s.len() - x.len();
    let mut k: usize = 0;
    while k < x.len()
        invariant
            k <= x@.len() <= s@.len(),
            base == s@.len() - x@.len(),
            forall|t: int| 0 <= t < k ==> s@[base + t] == x@[t],
        decreases x@.len() - k,
    {
        if s[base + k] != x[k] {
            assert(s@.subrange(s@.len() - x@.len(), s@.len() as int)[k as int] != x@[k as int]);
            return false;
        }
        k = k + 1;
    }
    proof {
        assert(s@.subrange(s@.len() - x@.len(), s@.len() as int) =~= x@);
    }
    true
}

/// The metadata span of an entry text.
pub fn extract_frontmatter(text: &str) -> (r: String)
    ensures
        r@ == frontmatter_spec(text@),
{
    let cv = str_chars(text);
    let opens = cv.len() >= 3 && cv[0] == '-' && cv[1] == '-' && cv[2] == '-';
    if !opens {
        let empty: Vec<char> = Vec::new();
        return chars_string(&empty);
    }
    let mut j: usize = 3;
    #[verifier::loop_isolation(false)]
    while j < cv.len() - 2 && !(cv[j] == '-' && cv[j + 1] == '-' && cv[j + 2] == '-')
        invariant
            3 <= j <= cv@.len(),
            find_marker(cv@, 3) == find_marker(cv@, j as int),
        decreases cv@.len() - j,
    {
        j = j + 1;
    }
    if j < cv.len() - 2 {
        assert(find_marker(cv@, 3) == j);
        let span = copy_range(&cv, 3, j);
        chars_string(&span)
    } else {
        assert(find_marker(cv@, 3) == cv@.len());
        let empty: Vec<char> = Vec::new();
        chars_string(&empty)
    }
}

/// The body of an entry text: what follows the metadata block.
pub fn entry_body(text: &str) -> (r: String)
    ensures
        r@ == body_spec(text@),
{
    let cv = str_chars(text);
    let opens = cv.len() >= 3 && cv[0] == '-' && cv[1] == '-' && cv[2] == '-';
    if !opens {
        return text.to_owned();
    }
    let mut j: usize = 3;
    #[verifier::loop_isolation(false)]
    while j < cv.len() - 2 && !(cv[j] == '-' && cv[j + 1] == '-' && cv[j + 2] == '-')
        invariant
            3 <= j <= cv@.len(),
            find_marker(cv@, 3) == find_marker(cv@, j as int),
        decreases cv@.len() - j,
    {
        j = j + 1;
    }
    if j < cv.len() - 2 {
        assert(find_marker(cv@, 3) == j);
        let rest = copy_range(&cv, j + 3, cv.len());
        chars_string(&rest)
    } else {
        assert(find_marker(cv@, 3) == cv@.len());
        text.to_owned()
    }
}

/// The entry identifier of a path.
#[verifier::loop_isolation(false)]
#[verifier::rlimit(30)]
pub fn entry_id_of(path: &str, content_root: &str) -> (r: String)
    ensures
        r@ == entry_id_spec(path@, content_root@),
{
    let pv = str_chars(path);
    let rv = str_chars(content_root);
    let stripped = if starts_with_chars(&pv, &rv) {
        copy_range(&pv, rv.len(), pv.len())
    } else {
        copy_range(&pv, 0, pv.len())
    };
    proof {
        assert(pv@.subrange(0, pv@.len() as int) =~= pv@);
        assert(stripped@ == strip_prefix_spec(path@, content_root@));
    }
    let ext: Vec<char> = vec!['.', 'm', 'd'];
    proof {
        assert(ext@ =~= md_ext());
    }
    let clipped = if ends_with_chars(&stripped, &ext) {
        copy_range(&stripped, 0, stripped.len() - 3)
    } else {
        copy_range(&stripped, 0, stripped.len())
    };
    proof {
        assert(stripped@.subrange(0, stripped@.len() as int) =~= stripped@);
        assert(clipped@ == strip_suffix_spec(stripped@, md_ext()));
    }
    proof {
        assert(clipped@.subrange(0, clipped@.len() as int) =~= clipped@);
    }
    let mut a: usize = 0;
    while a < clipped.len() && clipped[a] == '/'
        invariant
            a <= clipped@.len(),
            trim_slashes(clipped@) == trim_slashes(clipped@.subrange(a as int, clipped@.len() as int)),
        decreases clipped@.len() - a,
    {
        proof {
            let cur = clipped@.subrange(a as int, clipped@.len() as int);
            assert(cur.subrange(1, cur.len() as int) =~= clipped@.subrange(
                a + 1,
                clipped@.len() as int,
            ));
        }
        a = a + 1;
    }
    let out = copy_range(&clipped, a, clipped.len());
    proof {
        let cur = clipped@.subrange(a as int, clipped@.len() as int);
        assert(trim_slashes(cur) == cur);
        assert(out@ =~= cur);
    }
    chars_string(&out)
}

/// The output path of an entry path.
pub fn output_path_of(path: &str, content_root: &str, output_root: &str) -> (r: String)
    ensures
        r@ == output_path_spec(path@, content_root@, output_root@),
{
    let pv = str_chars(path);
    let rv = str_chars(content_root);
    let ov = str_chars(output_root);
    let mut swapped: Vec<char>;
    if starts_with_chars(&pv, &rv) {
        swapped = copy_range(&ov, 0, ov.len());
        let rest = copy_range(&pv, rv.len(), pv.len());
        push_all(&mut swapped, &rest);
    } else {
        swapped = copy_range(&pv, 0, pv.len());
    }
    proof {
        assert(pv@.subrange(0, pv@.len() as int) =~= pv@);
        assert(ov@.subrange(0, ov@.len() as int) =~= ov@);
    }
    let ext: Vec<char> = vec!['.', 'm', 'd'];
    proof {
        assert(ext@ =~= md_ext());
    }
    let mut out: Vec<char>;
    if ends_with_chars(&swapped, &ext) {
        out = copy_range(&swapped, 0, swapped.len() - 3);
        let hx: Vec<char> = vec!['.', 'h', 't', 'm', 'l'];
        proof {
            assert(hx@ =~= html_ext());
        }
        push_all(&mut out, &hx);
    } else {
        out = copy_range(&swapped, 0, swapped.len());
        proof {
            assert(swapped@.subrange(0, swapped@.len() as int) =~= swapped@);
        }
    }
    proof {
        assert(out@ == output_path_spec(path@, content_root@, output_root@));
    }
    chars_string(&out)
}

/// What the external markdown engine produces for a text, under this
/// library's fixed option set.
pub uninterp spec fn html_of(s: Seq<char>) -> Seq<char>;

/// Relies on pulldown-cmark's `Parser::new_ext` and `html::push_html`: the
/// conversion is a pure function of the input text. The option set is
/// fixed: tables, footnotes, strikethrough, task lists, smart punctuation,
/// heading attributes, metadata blocks, GitHub extensions, definition
/// lists, wikilinks, and sub- and superscript.
#[verifier::external_body]
pub fn render_html(markdown_input: &str) -> (r: String)
    ensures
        r@ == html_of(markdown_input@),
{
    let options = pulldown_cmark::Options::ENABLE_TABLES | pulldown_cmark::Options::ENABLE_FOOTNOTES
        | pulldown_cmark::Options::ENABLE_STRIKETHROUGH | pulldown_cmark::Options::ENABLE_TASKLISTS
        | pulldown_cmark::Options::ENABLE_SMART_PUNCTUATION
        | pulldown_cmark::Options::ENABLE_HEADING_ATTRIBUTES
        | pulldown_cmark::Options::ENABLE_YAML_STYLE_METADATA_BLOCKS
        | pulldown_cmark::Options::ENABLE_GFM | pulldown_cmark::Options::ENABLE_DEFINITION_LIST
        | pulldown_cmark::Options::ENABLE_WIKILINKS | pulldown_cmark::Options::ENABLE_SUBSCRIPT
        | pulldown_cmark::Options::ENABLE_SUPERSCRIPT;
    let parser = pulldown_cmark::Parser::new_ext(markdown_input, options);
    let mut html_output = String::new();
    pulldown_cmark::html::push_html(&mut html_output, parser);
    html_output
}

/// What the external parser reads from a metadata span: its keys ordered,
/// each paired with its value's text where the value is a string (and with
/// nothing where it is some other shape, a sequence or a number say); or
/// no pairs at all when the span is not a mapping.
pub uninterp spec fn yaml_pairs_of(s: Seq<char>) -> Option<Seq<(Seq<char>, Option<Seq<char>>)>>;

/// Relies on serde_yaml's `from_str`, deserializing into a
/// `BTreeMap<String, serde_yaml::Value>`: the outcome depends on the text
/// alone, iterating the map yields its pairs ordered by key, and the
/// projection keeps a value's text exactly where the value is a string.
#[verifier::external_body]
pub fn parse_yaml_pairs(s: &str) -> (r: Option<Vec<(String, Option<String>)>>)
    ensures
        (match r {
            Some(ps) => yaml_pairs_of(s@) == Some(ps.deep_view()),
            None => yaml_pairs_of(s@) is None,
        }),
{
    match serde_yaml::from_str::<std::collections::BTreeMap<String, serde_yaml::Value>>(s) {
        Ok(m) => Some(m.into_iter().map(|(k, v)| (k, match v {
            serde_yaml::Value::String(x) => Some(x),
            _ => None,
        })).collect()),
        Err(_) => None,
    }
}

/// The metadata pairs of a span: what the parser read, or nothing at all.
pub open spec fn meta_pairs(span: Seq<char>) -> Seq<(Seq<char>, Option<Seq<char>>)> {
    match yaml_pairs_of(span) {
        Some(ps) => ps,
        None => Seq::empty(),
    }
}

/// The string text a metadata key holds, at or after `i`: the first pair
/// with that key, where its value is a string.
pub open spec fn meta_string(
    ps: Seq<(Seq<char>, Option<Seq<char>>)>,
    key: Seq<char>,
    i: int,
) -> Option<Seq<char>>
    decreases ps.len() - i,
{
    if i < 0 || i >= ps.len() {
        None
    } else if ps[i].0 == key {
        ps[i].1
    } else {
        meta_string(ps, key, i + 1)
    }
}

/// Look a key's string text up among parsed metadata pairs.
#[verifier::loop_isolation(false)]
pub fn pairs_get(pairs: &Vec<(String, Option<String>)>, key: &str) -> (r: Option<String>)
    ensures
        (match r {
            Some(v) => meta_string(pairs.deep_view(), key@, 0) == Some(v@),
            None => meta_string(pairs.deep_view(), key@, 0) is None,
        }),
{
    let ghost pv = pairs.deep_view();
    let keyed = key.to_owned();
    let mut k: usize = 0;
    while k < pairs.len()
        invariant
            k <= pairs@.len(),
            keyed@ == key@,
            pv.len() == pairs@.len(),
            meta_string(pv, key@, 0) == meta_string(pv, key@, k as int),
        decreases pairs@.len() - k,
    {
        proof {
            assert(pv[k as int] == (pairs@[k as int].0@, pairs@[k as int].1.deep_view()));
        }
        if pairs[k].0 == keyed {
            match &pairs[k].1 {
                Some(v) => {
                    return Some(v.clone());
                },
                None => {
                    return None;
                },
            }
        }
        k = k + 1;
    }
    None
}

/// Why a render failed.
#[derive(Debug)]
pub enum RenderError {
    /// The metadata lacks the required `title` key, or holds it with a
    /// non-string value; holds the entry's path.
    MissingTitle(String),
    /// The metadata lacks the required `date` key, or holds it with a
    /// non-string value; holds the entry's path.
    MissingDate(String),
    /// The page template failed to render; holds the engine's message.
    Template(String),
}

impl RenderError {
    /// A human-readable description of the failure.
    pub fn message(&self) -> (r: String)
        ensures
            (match self {
                RenderError::MissingTitle(p) => r@ == "missing required title key in "@ + p@,
                RenderError::MissingDate(p) => r@ == "missing required date key in "@ + p@,
                RenderError::Template(m) => r@ == "template render failed: "@ + m@,
            }),
    {
        match self {
            RenderError::MissingTitle(p) => {
                let s = "missing required title key in ".to_owned();
                s.concat(p.as_str())
            },
            RenderError::MissingDate(p) => {
                let s = "missing required date key in ".to_owned();
                s.concat(p.as_str())
            },
            RenderError::Template(m) => {
                let s = "template render failed: ".to_owned();
                s.concat(m.as_str())
            },
        }
    }
}

/// The result of rendering one entry.
#[derive(Debug)]
pub struct RenderOutput {
    /// The descriptor handed to the index generator.
    pub post: Post,
    /// The rendered page.
    pub html: String,
    /// Where the page belongs under the output root.
    pub output_path: String,
}

/// The entry text after container expansion, under the configured
/// definitions.
pub open spec fn expanded_spec(defs: Option<Vec<(String, ContainerConfig)>>, raw: Seq<char>) -> Seq<
    char,
> {
    match defs {
        Some(d) => expand_text(d@, raw),
        None => raw,
    }
}

/// Render one entry from its raw text: extract the metadata span, expand
/// containers over the body, convert the body, apply the page template
/// (which sees the parsed metadata as its page context), and compute the
/// identifier and output path. Fails exactly when the metadata yields no
/// string for `title` or `date`, or the template engine rejects the page
/// template.
pub fn process_markdown(
    config: &Config,
    defs: &Option<Vec<(String, ContainerConfig)>>,
    page_template: &str,
    file_path: &str,
    raw: &str,
) -> (r: Result<RenderOutput, RenderError>)
    ensures
        (match r {
            Ok(out) => {
                &&& meta_string(meta_pairs(frontmatter_spec(raw@)), "title"@, 0) == Some(
                    out.post.title@,
                )
                &&& meta_string(meta_pairs(frontmatter_spec(raw@)), "date"@, 0) == Some(
                    out.post.date@,
                )
                &&& out.post.slug@ == entry_id_spec(file_path@, config.entries@)
                &&& out.output_path@ == output_path_spec(file_path@, config.entries@,
                    config.build@)
                &&& applied_of(page_template@, site_view(config), frontmatter_spec(raw@), html_of(
                    expanded_spec(*defs, body_spec(raw@)),
                )) == Some(out.html@)
            },
            Err(RenderError::MissingTitle(p)) => p@ == file_path@ && meta_string(
                meta_pairs(frontmatter_spec(raw@)),
                "title"@,
                0,
            ) is None,
            Err(RenderError::MissingDate(p)) => p@ == file_path@ && meta_string(
                meta_pairs(frontmatter_spec(raw@)),
                "title"@,
                0,
            ) is Some && meta_string(meta_pairs(frontmatter_spec(raw@)), "date"@, 0) is None,
            Err(RenderError::Template(_)) => meta_string(
                meta_pairs(frontmatter_spec(raw@)),
                "title"@,
                0,
            ) is Some && meta_string(meta_pairs(frontmatter_spec(raw@)), "date"@, 0) is Some
                && applied_of(page_template@, site_view(config), frontmatter_spec(raw@), html_of(
                expanded_spec(*defs, body_spec(raw@)),
            )) is None,
        }),
{
    let fm = extract_frontmatter(raw);
    let body = entry_body(raw);
    let expanded = process_containers(defs, body.as_str());
    let pairs: Vec<(String, Option<String>)>;
    match parse_yaml_pairs(fm.as_str()) {
        Some(ps) => {
            pairs = ps;
        },
        None => {
            pairs = Vec::new();
            proof {
                assert(pairs.deep_view() =~= Seq::<(Seq<char>, Option<Seq<char>>)>::empty());
            }
        },
    }
    assert(pairs.deep_view() == meta_pairs(frontmatter_spec(raw@)));
    let title = match pairs_get(&pairs, "title") {
        Some(t) => t,
        None => {
            return Err(RenderError::MissingTitle(file_path.to_owned()));
        },
    };
    let date = match pairs_get(&pairs, "date") {
        Some(d) => d,
        None => {
            return Err(RenderError::MissingDate(file_path.to_owned()));
        },
    };
    let content = render_html(expanded.as_str());
    let site = site_pairs(config);
    let html = match apply(page_template, &site, fm.as_str(), content.as_str()) {
        Ok(h) => h,
        Err(e) => {
            return Err(RenderError::Template(e));
        },
    };
    let slug = entry_id_of(file_path, config.entries.as_str());
    let output_path = output_path_of(file_path, config.entries.as_str(), config.build.as_str());
    Ok(RenderOutput { post: Post { title, date, slug }, html, output_path })
}

} // verus!
