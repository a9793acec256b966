//! The lightweight descriptor a rendered entry leaves behind, and the
//! index generator that turns the descriptor list into the index artifact.
use vstd::prelude::*;

use crate::config::{site_pairs, site_view, Config};
use crate::template::{apply, applied_of, posts_view};
use crate::text::{chars_string, push_all, str_chars};

verus! {

/// Descriptor of one rendered entry: what the index needs to link to it.
#[derive(Debug)]
pub struct Post {
    /// The entry's title, from its metadata.
    pub title: String,
    /// The entry's date, from its metadata.
    pub date: String,
    /// The entry identifier: the path under the content root with the source
    /// extension stripped.
    pub slug: String,
}

/// One text, escaped for a double-quoted scalar: backslashes, quotes and
/// the common control characters are escaped, everything else stands as it
/// is.
pub open spec fn escaped_from(s: Seq<char>, i: int) -> Seq<char>
    decreases s.len() - i,
{
    if i < 0 || i >= s.len() {
        Seq::empty()
    } else {
        let c = s[i];
        let e: Seq<char> = if c == '\\' {
            seq!['\\', '\\']
        } else if c == '"' {
            seq!['\\', '"']
        } else if c == '\n' {
            seq!['\\', 'n']
        } else if c == '\r' {
            seq!['\\', 'r']
        } else if c == '\t' {
            seq!['\\', 't']
        } else {
            seq![c]
        };
        e + escaped_from(s, i + 1)
    }
}

/// A double-quoted scalar holding `s`.
pub open spec fn quoted(s: Seq<char>) -> Seq<char> {
    seq!['"'] + escaped_from(s, 0) + seq!['"']
}

/// One descriptor as a mapping item of the `posts` list.
pub open spec fn post_yaml_item(p: (Seq<char>, Seq<char>, Seq<char>)) -> Seq<char> {
    "- title: "@ + quoted(p.0) + "\n  date: "@ + quoted(p.1) + "\n  slug: "@ + quoted(p.2)
        + "\n"@
}

/// The items of the `posts` list from index `i` on.
pub open spec fn posts_yaml_items(ps: Seq<(Seq<char>, Seq<char>, Seq<char>)>, i: int) -> Seq<char>
    decreases ps.len() - i,
{
    if i < 0 || i >= ps.len() {
        Seq::empty()
    } else {
        post_yaml_item(ps[i]) + posts_yaml_items(ps, i + 1)
    }
}

/// The descriptor list as a metadata text: a mapping with the single key
/// `posts`, holding one mapping of `title`, `date` and `slug` per
/// descriptor, in order.
pub open spec fn posts_yaml_spec(ps: Seq<(Seq<char>, Seq<char>, Seq<char>)>) -> Seq<char> {
    if ps.len() == 0 {
        "posts: []\n"@
    } else {
        "posts:\n"@ + posts_yaml_items(ps, 0)
    }
}

/// Append `s` as a double-quoted scalar.
#[verifier::loop_isolation(false)]
fn push_quoted(out: &mut Vec<char>, s: &str)
    ensures
        final(out)@ == old(out)@ + quoted(s@),
{
    let cv = str_chars(s);
    out.push('"');
    let mut i: usize = 0;
    while i < cv.len()
        invariant
            i <= cv@.len(),
            out@ + escaped_from(cv@, i as int) == old(out)@ + seq!['"'] + escaped_from(cv@, 0),
        decreases cv@.len() - i,
    {
        let c = cv[i];
        if c == '\\' {
            out.push('\\');
            out.push('\\');
        } else if c == '"' {
            out.push('\\');
            out.push('"');
        } else if c == '\n' {
            out.push('\\');
            out.push('n');
        } else if c == '\r' {
            out.push('\\');
            out.push('r');
        } else if c == '\t' {
            out.push('\\');
            out.push('t');
        } else {
            out.push(c);
        }
        proof {
            assert(out@ + escaped_from(cv@, i + 1) =~= old(out)@ + seq!['"'] + escaped_from(
                cv@,
                0,
            ));
        }
        i = i + 1;
    }
    out.push('"');
    proof {
        assert(escaped_from(cv@, cv@.len() as int) =~= Seq::<char>::empty());
        assert(out@ =~= old(out)@ + quoted(s@));
    }
}

/// The descriptor list as the index page's metadata text, exposing the
/// descriptors under the `posts` key.
#[verifier::loop_isolation(false)]
pub fn posts_yaml(posts: &Vec<Post>) -> (r: String)
    ensures
        r@ == posts_yaml_spec(posts_view(posts@)),
{
    let ghost pv = posts_view(posts@);
    if posts.len() == 0 {
        return "posts: []\n".to_owned();
    }
    let mut out: Vec<char> = Vec::new();
    let head = str_chars("posts:\n");
    push_all(&mut out, &head);
    let mut i: usize = 0;
    while i < posts.len()
        invariant
            i <= posts@.len(),
            out@ + posts_yaml_items(pv, i as int) == "posts:\n"@ + posts_yaml_items(pv, 0),
        decreases posts@.len() - i,
    {
        let ghost out0 = out@;
        let lead = str_chars("- title: ");
        push_all(&mut out, &lead);
        push_quoted(&mut out, posts[i].title.as_str());
        let mid = str_chars("\n  date: ");
        push_all(&mut out, &mid);
        push_quoted(&mut out, posts[i].date.as_str());
        let tail = str_chars("\n  slug: ");
        push_all(&mut out, &tail);
        push_quoted(&mut out, posts[i].slug.as_str());
        out.push('\n');
        proof {
            reveal_strlit("\n");
            assert("\n"@ =~= seq!['\n']);
            assert(pv[i as int] == (posts@[i as int].title@, posts@[i as int].date@,
                posts@[i as int].slug@));
            assert(out@ =~= out0 + post_yaml_item(pv[i as int]));
            assert(out@ + posts_yaml_items(pv, i + 1) =~= "posts:\n"@ + posts_yaml_items(pv, 0));
        }
        i = i + 1;
    }
    proof {
        assert(posts_yaml_items(pv, pv.len() as int) =~= Seq::<char>::empty());
        assert(out@ =~= posts_yaml_spec(pv));
    }
    chars_string(&out)
}

/// Render the index artifact from the descriptor list: the index template
/// applied to a context of the site configuration and, under `page.posts`,
/// the descriptors.
pub fn generate_index(config: &Config, posts: &Vec<Post>, index_template: &str) -> (r: Result<
    String,
    String,
>)
    ensures
        (match r {
            Ok(v) => applied_of(index_template@, site_view(config),
                posts_yaml_spec(posts_view(posts@)), Seq::empty()) == Some(v@),
            Err(_) => applied_of(index_template@, site_view(config),
                posts_yaml_spec(posts_view(posts@)), Seq::empty()) is None,
        }),
{
    let site = site_pairs(config);
    let py = posts_yaml(posts);
    let r = apply(index_template, &site, py.as_str(), "");
    proof {
        reveal_strlit("");
        assert(""@ =~= Seq::<char>::empty());
    }
    r
}

} // verus!
