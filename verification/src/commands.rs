//! The build orchestrator and the watch-loop state machine.
//!
//! The orchestrator takes the enumerated entries (with their raw texts and
//! modification times, read by the caller), decides which are stale,
//! renders those, regenerates the index, and returns the updated cache and
//! the artifacts to write. The watcher debounces change batches and decides
//! when a changed path needs an index regeneration.
use vstd::prelude::*;

use crate::cache::{spec_is_stale, BuildCache};
use crate::config::{site_view, Config, ContainerConfig};
use crate::posts::{generate_index, posts_yaml_spec, Post};
use crate::render::{
    body_spec, entry_id_of, entry_id_spec, expanded_spec, frontmatter_spec, html_of, meta_pairs,
    meta_string, output_path_spec, process_markdown, RenderError, RenderOutput,
};
use crate::template::{applied_of, posts_view};

verus! {

/// The identifier and modification time of each enumerated entry.
pub open spec fn entry_keys(files: Seq<(String, String, u64)>, root: Seq<char>) -> Seq<(
    Seq<char>,
    u64,
)> {
    files.map_values(|f: (String, String, u64)| (entry_id_spec(f.0@, root), f.2))
}

/// The cache after recording every entry's modification time, from index
/// `i` on.
pub open spec fn cache_after(m: Map<Seq<char>, u64>, es: Seq<(Seq<char>, u64)>, i: int) -> Map<
    Seq<char>,
    u64,
>
    decreases es.len() - i,
{
    if i < 0 || i >= es.len() {
        m
    } else {
        cache_after(m.insert(es[i].0, es[i].1), es, i + 1)
    }
}

/// The indices of the entries a pass renders, from index `i` on: every
/// entry in full mode, the stale ones in incremental mode. The cache is
/// updated along the way, as the pass itself updates it.
pub open spec fn rendered_idxs(
    m: Map<Seq<char>, u64>,
    es: Seq<(Seq<char>, u64)>,
    incremental: bool,
    i: int,
) -> Seq<int>
    decreases es.len() - i,
{
    if i < 0 || i >= es.len() {
        Seq::empty()
    } else {
        let rest = rendered_idxs(m.insert(es[i].0, es[i].1), es, incremental, i + 1);
        if !incremental || spec_is_stale(m, es[i].0, es[i].1) {
            seq![i] + rest
        } else {
            rest
        }
    }
}

/// Whether one entry's text renders without a fatal error.
pub open spec fn render_ok(
    config: &Config,
    defs: Option<Vec<(String, ContainerConfig)>>,
    page_template: Seq<char>,
    text: Seq<char>,
) -> bool {
    let meta = meta_pairs(frontmatter_spec(text));
    &&& meta_string(meta, "title"@, 0) is Some
    &&& meta_string(meta, "date"@, 0) is Some
    &&& applied_of(page_template, site_view(config), frontmatter_spec(text), html_of(
        expanded_spec(defs, body_spec(text)),
    )) is Some
}

/// Every entry a pass renders does so without a fatal error.
pub open spec fn all_rendered_ok(
    config: &Config,
    defs: Option<Vec<(String, ContainerConfig)>>,
    page_template: Seq<char>,
    files: Seq<(String, String, u64)>,
    idxs: Seq<int>,
) -> bool {
    forall|k: int|
        0 <= k < idxs.len() ==> render_ok(config, defs, page_template,
            files[#[trigger] idxs[k]].1@)
}

/// Some rendered entry at path `p` lacks the metadata key `key`.
pub open spec fn some_rendered_lacks(
    files: Seq<(String, String, u64)>,
    idxs: Seq<int>,
    key: Seq<char>,
    p: Seq<char>,
) -> bool {
    exists|k: int|
        0 <= k < idxs.len() && files[#[trigger] idxs[k]].0@ == p && meta_string(
            meta_pairs(frontmatter_spec(files[idxs[k]].1@)),
            key,
            0,
        ) is None
}

/// The descriptor a rendered entry leaves, over views.
pub open spec fn spec_post_of(f: (String, String, u64), root: Seq<char>) -> (
    Seq<char>,
    Seq<char>,
    Seq<char>,
) {
    let meta = meta_pairs(frontmatter_spec(f.1@));
    (
        meta_string(meta, "title"@, 0)->Some_0,
        meta_string(meta, "date"@, 0)->Some_0,
        entry_id_spec(f.0@, root),
    )
}

/// The artifact a rendered entry leaves: its output path and its page.
pub open spec fn spec_output_of(
    config: &Config,
    defs: Option<Vec<(String, ContainerConfig)>>,
    page_template: Seq<char>,
    f: (String, String, u64),
) -> (Seq<char>, Seq<char>) {
    (
        output_path_spec(f.0@, config.entries@, config.build@),
        applied_of(page_template, site_view(config), frontmatter_spec(f.1@),
            html_of(expanded_spec(defs, body_spec(f.1@))))->Some_0,
    )
}

/// The artifact pairs seen through views.
pub open spec fn outputs_view(outs: Seq<(String, String)>) -> Seq<(Seq<char>, Seq<char>)> {
    outs.map_values(|o: (String, String)| (o.0@, o.1@))
}

/// What one build pass hands back.
#[derive(Debug)]
pub struct BuildOutcome {
    /// The descriptors of the entries rendered in this pass.
    pub posts: Vec<Post>,
    /// The artifacts to write: `(output path, rendered page)` per entry.
    pub outputs: Vec<(String, String)>,
    /// The cache with every enumerated entry's time recorded.
    pub cache: BuildCache,
    /// The regenerated index artifact.
    pub index_html: String,
}

/// One build pass over the enumerated entries, given as
/// `(path, raw text, modified_at)` in traversal order. Stale entries (all,
/// in full mode) are rendered; every entry's time is recorded in the
/// cache; the index is regenerated from the rendered descriptors. The pass
/// fails exactly when a rendered entry yields no string for `title` or
/// `date`, or the template engine rejects the page or index template.
///
/// The index's scope is deliberately narrow: in incremental mode it is
/// regenerated from the descriptors rendered in this pass alone, not the
/// whole corpus — descriptors of up-to-date entries are not re-derived, so
/// an index regenerated after a partial pass drops them. A full (non
/// incremental) pass rebuilds the complete index.
#[verifier::loop_isolation(false)]
pub fn build(
    config: &Config,
    defs: &Option<Vec<(String, ContainerConfig)>>,
    page_template: &str,
    index_template: &str,
    files: &Vec<(String, String, u64)>,
    cache0: BuildCache,
    incremental: bool,
) -> (r: Result<BuildOutcome, RenderError>)
    requires
        cache0.wf(),
    ensures
        (r is Ok) == ({
            let es = entry_keys(files@, config.entries@);
            let idxs = rendered_idxs(cache0.as_map(), es, incremental, 0);
            &&& all_rendered_ok(config, *defs, page_template@, files@, idxs)
            &&& applied_of(index_template@, site_view(config),
                posts_yaml_spec(idxs.map_values(|t: int| spec_post_of(files@[t],
                config.entries@))), Seq::empty()) is Some
        }),
        (match r {
            Ok(out) => {
                let es = entry_keys(files@, config.entries@);
                let idxs = rendered_idxs(cache0.as_map(), es, incremental, 0);
                &&& out.cache.wf()
                &&& out.cache.as_map() == cache_after(cache0.as_map(), es, 0)
                &&& out.posts@.len() == idxs.len()
                &&& posts_view(out.posts@) == idxs.map_values(
                    |t: int| spec_post_of(files@[t], config.entries@),
                )
                &&& outputs_view(out.outputs@) == idxs.map_values(
                    |t: int| spec_output_of(config, *defs, page_template@, files@[t]),
                )
                &&& applied_of(index_template@, site_view(config),
                    posts_yaml_spec(posts_view(out.posts@)), Seq::empty()) == Some(
                    out.index_html@,
                )
            },
            Err(RenderError::MissingTitle(p)) => some_rendered_lacks(
                files@,
                rendered_idxs(cache0.as_map(), entry_keys(files@, config.entries@), incremental, 0),
                "title"@,
                p@,
            ),
            Err(RenderError::MissingDate(p)) => some_rendered_lacks(
                files@,
                rendered_idxs(cache0.as_map(), entry_keys(files@, config.entries@), incremental, 0),
                "date"@,
                p@,
            ),
            Err(RenderError::Template(_)) => true,
        }),
{
    let ghost m0 = cache0.as_map();
    let ghost root = config.entries@;
    let ghost es = entry_keys(files@, root);
    let ghost idxs0 = rendered_idxs(m0, es, incremental, 0);
    let mut c = cache0;
    let mut posts: Vec<Post> = Vec::new();
    let mut outputs: Vec<(String, String)> = Vec::new();
    let ghost mut gidx: Seq<int> = Seq::empty();
    proof {
        assert(posts_view(posts@) =~= gidx.map_values(|t: int| spec_post_of(files@[t], root)));
        assert(outputs_view(outputs@) =~= gidx.map_values(
            |t: int| spec_output_of(config, *defs, page_template@, files@[t]),
        ));
    }
    let mut i: usize = 0;
    while i < files.len()
        invariant
            i <= files@.len(),
            c.wf(),
            cache_after(m0, es, 0) == cache_after(c.as_map(), es, i as int),
            idxs0 == gidx + rendered_idxs(c.as_map(), es, incremental, i as int),
            posts@.len() == gidx.len(),
            posts_view(posts@) == gidx.map_values(|t: int| spec_post_of(files@[t], root)),
            outputs_view(outputs@) == gidx.map_values(
                |t: int| spec_output_of(config, *defs, page_template@, files@[t]),
            ),
            all_rendered_ok(config, *defs, page_template@, files@, gidx),
        decreases files@.len() - i,
    {
        let id = entry_id_of(files[i].0.as_str(), config.entries.as_str());
        proof {
            assert(es[i as int] == (id@, files@[i as int].2));
        }
        let stale = !incremental || c.is_stale(id.as_str(), files[i].2);
        let ghost cm = c.as_map();
        if stale {
            proof {
                assert(rendered_idxs(cm, es, incremental, i as int) == seq![i as int]
                    + rendered_idxs(cm.insert(es[i as int].0, es[i as int].1), es, incremental, i
                    + 1));
                assert(idxs0[gidx.len() as int] == i as int);
            }
            match process_markdown(
                config,
                defs,
                page_template,
                files[i].0.as_str(),
                files[i].1.as_str(),
            ) {
                Ok(out) => {
                    let ghost posts0 = posts@;
                    let ghost outputs0 = outputs@;
                    let RenderOutput { post, html, output_path } = out;
                    posts.push(post);
                    outputs.push((output_path, html));
                    proof {
                        let g2 = gidx.push(i as int);
                        assert forall|k: int| 0 <= k < posts@.len() implies posts_view(posts@)[k]
                            == g2.map_values(|t: int| spec_post_of(files@[t], root))[k] by {
                            if k < gidx.len() {
                                assert(posts@[k] == posts0[k]);
                                assert(posts_view(posts0)[k] == gidx.map_values(
                                    |t: int| spec_post_of(files@[t], root),
                                )[k]);
                            } else {
                                assert(posts@[k] == post);
                                assert(g2[k] == i as int);
                            }
                        }
                        assert(posts_view(posts@) =~= g2.map_values(
                            |t: int| spec_post_of(files@[t], root),
                        ));
                        assert forall|k: int|
                            0 <= k < outputs@.len() implies outputs_view(outputs@)[k]
                            == g2.map_values(
                            |t: int| spec_output_of(config, *defs, page_template@, files@[t]),
                        )[k] by {
                            if k < gidx.len() {
                                assert(outputs@[k] == outputs0[k]);
                                assert(outputs_view(outputs0)[k] == gidx.map_values(
                                    |t: int| spec_output_of(config, *defs, page_template@,
                                    files@[t]),
                                )[k]);
                            } else {
                                assert(outputs@[k] == (output_path, html));
                                assert(g2[k] == i as int);
                            }
                        }
                        assert(outputs_view(outputs@) =~= g2.map_values(
                            |t: int| spec_output_of(config, *defs, page_template@, files@[t]),
                        ));
                        gidx = g2;
                    }
                },
                Err(e) => {
                    proof {
                        assert(0 <= gidx.len() < idxs0.len());
                        assert(files@[idxs0[gidx.len() as int]].0@ == files@[i as int].0@);
                        assert(!render_ok(config, *defs, page_template@, files@[i as int].1@));
                    }
                    return Err(e);
                },
            }
        } else {
            proof {
                assert(rendered_idxs(cm, es, incremental, i as int) == rendered_idxs(
                    cm.insert(es[i as int].0, es[i as int].1),
                    es,
                    incremental,
                    i + 1,
                ));
            }
        }
        c.insert(id, files[i].2);
        proof {
            assert(cache_after(cm, es, i as int) == cache_after(c.as_map(), es, i + 1));
        }
        i = i + 1;
    }
    proof {
        assert(rendered_idxs(c.as_map(), es, incremental, files@.len() as int)
            =~= Seq::<int>::empty());
        assert(idxs0 =~= gidx);
        assert(cache_after(c.as_map(), es, files@.len() as int) == c.as_map());
    }
    match generate_index(config, &posts, index_template) {
        Ok(index_html) => Ok(BuildOutcome { posts, outputs, cache: c, index_html }),
        Err(e) => Err(RenderError::Template(e)),
    }
}

/// The debounce threshold in milliseconds: change batches closer together
/// than this are coalesced.
pub const DEBOUNCE_MS: u64 = 500;

/// Whether a known-path list holds a path.
pub open spec fn known_contains(paths: Seq<String>, p: Seq<char>) -> bool {
    exists|k: int| 0 <= k < paths.len() && (#[trigger] paths[k])@ == p
}

/// The watch loop's state: the descriptors and paths of the known entries,
/// the shared cache, and the time of the last accepted change batch.
pub struct Watcher {
    /// Descriptors of every entry seen so far, feeding the index.
    pub posts: Vec<Post>,
    /// The paths of the known entries.
    pub known_paths: Vec<String>,
    /// The build cache, updated on every accepted change.
    pub cache: BuildCache,
    /// When the last accepted batch arrived, in milliseconds.
    pub last_event_time: u64,
}

impl Watcher {
    /// Well-formed: the cache is.
    pub open spec fn wf(&self) -> bool {
        self.cache.wf()
    }

    /// A watcher that starts from an initial build's outcome.
    pub fn new(posts: Vec<Post>, known_paths: Vec<String>, cache: BuildCache, now: u64) -> (r:
        Watcher)
        requires
            cache.wf(),
        ensures
            r.wf(),
            r.posts == posts,
            r.known_paths == known_paths,
            r.cache == cache,
            r.last_event_time == now,
    {
        Watcher { posts, known_paths, cache, last_event_time: now }
    }

    /// Debounce: a change batch is processed only when at least the
    /// threshold has passed since the last accepted batch; a discarded
    /// batch leaves the state untouched.
    pub fn accept_batch(&mut self, now: u64) -> (r: bool)
        requires
            old(self).wf(),
            old(self).last_event_time <= now,
        ensures
            final(self).wf(),
            r == (now - old(self).last_event_time >= DEBOUNCE_MS),
            final(self).last_event_time == (if r {
                now
            } else {
                old(self).last_event_time
            }),
            final(self).posts == old(self).posts,
            final(self).known_paths == old(self).known_paths,
            final(self).cache == old(self).cache,
    {
        if now - self.last_event_time < DEBOUNCE_MS {
            false
        } else {
            self.last_event_time = now;
            true
        }
    }

    /// Record one changed entry, already re-rendered by the caller: its
    /// cache record is updated; a path not yet known is a new entry, whose
    /// descriptor is appended and which alone requires regenerating the
    /// index.
    #[verifier::loop_isolation(false)]
    pub fn on_entry_changed(
        &mut self,
        path: String,
        entry_id: String,
        modified_at: u64,
        post: Post,
    ) -> (rebuild_index: bool)
        requires
            old(self).wf(),
        ensures
            final(self).wf(),
            rebuild_index == !known_contains(old(self).known_paths@, path@),
            final(self).cache.as_map() == old(self).cache.as_map().insert(entry_id@, modified_at),
            rebuild_index ==> final(self).posts@ == old(self).posts@.push(post)
                && final(self).known_paths@ == old(self).known_paths@.push(path),
            !rebuild_index ==> final(self).posts@ == old(self).posts@ && final(self).known_paths@
                == old(self).known_paths@,
            final(self).last_event_time == old(self).last_event_time,
    {
        self.cache.insert(entry_id, modified_at);
        let mut known = false;
        let mut k: usize = 0;
        while k < self.known_paths.len()
            invariant
                k <= self.known_paths@.len(),
                known == exists|t: int|
                    0 <= t < k && (#[trigger] self.known_paths@[t])@ == path@,
                self.known_paths@ == old(self).known_paths@,
            decreases self.known_paths@.len() - k,
        {
            if self.known_paths[k] == path {
                known = true;
            }
            k = k + 1;
        }
        if known {
            false
        } else {
            self.posts.push(post);
            self.known_paths.push(path);
            true
        }
    }
}

/// Recording an entry leaves another identifier's record alone.
proof fn lemma_cache_after_frame(
    m: Map<Seq<char>, u64>,
    es: Seq<(Seq<char>, u64)>,
    i: int,
    id: Seq<char>,
)
    requires
        forall|k: int| i <= k < es.len() ==> (#[trigger] es[k]).0 != id,
    ensures
        cache_after(m, es, i).contains_key(id) == m.contains_key(id),
        m.contains_key(id) ==> cache_after(m, es, i)[id] == m[id],
    decreases es.len() - i,
{
    if 0 <= i < es.len() {
        lemma_cache_after_frame(m.insert(es[i].0, es[i].1), es, i + 1, id);
    }
}

/// After a pass, an entry with no later duplicate has its time recorded.
proof fn lemma_cache_after_value(
    m: Map<Seq<char>, u64>,
    es: Seq<(Seq<char>, u64)>,
    i: int,
    k: int,
)
    requires
        0 <= i <= k < es.len(),
        forall|j: int| k < j < es.len() ==> (#[trigger] es[j]).0 != es[k].0,
    ensures
        cache_after(m, es, i).contains_key(es[k].0),
        cache_after(m, es, i)[es[k].0] == es[k].1,
    decreases k - i,
{
    if i == k {
        lemma_cache_after_frame(m.insert(es[i].0, es[i].1), es, i + 1, es[k].0);
    } else {
        lemma_cache_after_value(m.insert(es[i].0, es[i].1), es, i + 1, k);
    }
}

/// A cache that already records every entry's time makes nothing stale.
proof fn lemma_rendered_stable(m1: Map<Seq<char>, u64>, es: Seq<(Seq<char>, u64)>, i: int)
    requires
        forall|k: int|
            0 <= k < es.len() ==> m1.contains_key((#[trigger] es[k]).0) && m1[es[k].0] == es[k].1,
    ensures
        rendered_idxs(m1, es, true, i) == Seq::<int>::empty(),
    decreases es.len() - i,
{
    if 0 <= i < es.len() {
        assert(m1.insert(es[i].0, es[i].1) =~= m1);
        lemma_rendered_stable(m1, es, i + 1);
        assert(!spec_is_stale(m1, es[i].0, es[i].1));
    }
}

/// Incremental idempotence: once a pass has recorded every entry's
/// modification time, a second incremental pass over the same unchanged
/// entries renders nothing. Distinct identifiers are required — a
/// filesystem enumeration gives them, but two paths that collapse to one
/// identifier could leave only the later time in the cache and the
/// earlier entry stale.
pub proof fn lemma_incremental_idempotence(m0: Map<Seq<char>, u64>, es: Seq<(Seq<char>, u64)>)
    requires
        forall|k: int, j: int|
            0 <= k < j < es.len() ==> (#[trigger] es[k]).0 != (#[trigger] es[j]).0,
    ensures
        rendered_idxs(cache_after(m0, es, 0), es, true, 0) == Seq::<int>::empty(),
{
    let m1 = cache_after(m0, es, 0);
    assert forall|k: int| 0 <= k < es.len() implies m1.contains_key((#[trigger] es[k]).0)
        && m1[es[k].0] == es[k].1 by {
        lemma_cache_after_value(m0, es, 0, k);
    }
    lemma_rendered_stable(m1, es, 0);
}


/// Lowercase for the ASCII letters; any other character is unchanged.
pub open spec fn lower_char(c: char) -> char {
    match c {
        'A' => 'a',
        'B' => 'b',
        'C' => 'c',
        'D' => 'd',
        'E' => 'e',
        'F' => 'f',
        'G' => 'g',
        'H' => 'h',
        'I' => 'i',
        'J' => 'j',
        'K' => 'k',
        'L' => 'l',
        'M' => 'm',
        'N' => 'n',
        'O' => 'o',
        'P' => 'p',
        'Q' => 'q',
        'R' => 'r',
        'S' => 's',
        'T' => 't',
        'U' => 'u',
        'V' => 'v',
        'W' => 'w',
        'X' => 'x',
        'Y' => 'y',
        'Z' => 'z',
        _ => c,
    }
}

/// One character's contribution to a title's slug: lowercased, a space
/// becomes a dash, and anything but ASCII letters, digits and dashes is
/// dropped.
pub open spec fn slug_char(c: char) -> Seq<char> {
    let l = lower_char(c);
    if l == ' ' {
        seq!['-']
    } else if ('a' <= l && l <= 'z') || ('0' <= l && l <= '9') || l == '-' {
        seq![l]
    } else {
        Seq::empty()
    }
}

/// The slug of a title, from index `i` on.
pub open spec fn slug_from(s: Seq<char>, i: int) -> Seq<char>
    decreases s.len() - i,
{
    if i < 0 || i >= s.len() {
        Seq::empty()
    } else {
        slug_char(s[i]) + slug_from(s, i + 1)
    }
}

/// The slug of a title.
pub open spec fn slug_of(s: Seq<char>) -> Seq<char> {
    slug_from(s, 0)
}

/// Lowercase one ASCII letter.
fn lower_char_exec(c: char) -> (r: char)
    ensures
        r == lower_char(c),
{
    match c {
        'A' => 'a',
        'B' => 'b',
        'C' => 'c',
        'D' => 'd',
        'E' => 'e',
        'F' => 'f',
        'G' => 'g',
        'H' => 'h',
        'I' => 'i',
        'J' => 'j',
        'K' => 'k',
        'L' => 'l',
        'M' => 'm',
        'N' => 'n',
        'O' => 'o',
        'P' => 'p',
        'Q' => 'q',
        'R' => 'r',
        'S' => 's',
        'T' => 't',
        'U' => 'u',
        'V' => 'v',
        'W' => 'w',
        'X' => 'x',
        'Y' => 'y',
        'Z' => 'z',
        _ => c,
    }
}

/// The slug a new entry's title becomes: lowercased, spaces to dashes,
/// everything but ASCII letters, digits and dashes dropped.
#[verifier::loop_isolation(false)]
pub fn title_slug(title: &str) -> (r: String)
    ensures
        r@ == slug_of(title@),
{
    let cv = crate::text::str_chars(title);
    let mut out: Vec<char> = Vec::new();
    let mut i: usize = 0;
    while i < cv.len()
        invariant
            i <= cv@.len(),
            slug_of(title@) == out@ + slug_from(cv@, i as int),
        decreases cv@.len() - i,
    {
        let l = lower_char_exec(cv[i]);
        if l == ' ' {
            out.push('-');
        } else if ('a' <= l && l <= 'z') || ('0' <= l && l <= '9') || l == '-' {
            out.push(l);
        }
        proof {
            assert(slug_of(title@) =~= out@ + slug_from(cv@, i + 1));
        }
        i = i + 1;
    }
    assert(out@ =~= slug_of(title@));
    crate::text::chars_string(&out)
}


/// The source path a descriptor's entry lives at, under the content root.
pub fn post_source_path(config: &Config, slug: &str) -> (r: String)
    ensures
        r@ == config.entries@ + seq!['/'] + slug@ + seq!['.', 'm', 'd'],
{
    proof {
        reveal_strlit("/");
        reveal_strlit(".md");
        assert("/"@ =~= seq!['/']);
        assert(".md"@ =~= seq!['.', 'm', 'd']);
    }
    config.entries.clone().concat("/").concat(slug).concat(".md")
}

/// Where a new entry for this title belongs, under the content root and an
/// optional folder.
pub fn new_post_path(config: &Config, folder: &Option<String>, title: &str) -> (r: String)
    ensures
        (match folder {
            Some(f) => r@ == config.entries@ + seq!['/'] + f@ + seq!['/'] + slug_of(title@)
                + seq!['.', 'm', 'd'],
            None => r@ == config.entries@ + seq!['/'] + slug_of(title@) + seq!['.', 'm', 'd'],
        }),
{
    proof {
        reveal_strlit("/");
        reveal_strlit(".md");
        assert("/"@ =~= seq!['/']);
        assert(".md"@ =~= seq!['.', 'm', 'd']);
    }
    let slug = title_slug(title);
    let r = match folder {
        Some(f) => config.entries.clone().concat("/").concat(f.as_str()).concat("/").concat(
            slug.as_str(),
        ).concat(".md"),
        None => config.entries.clone().concat("/").concat(slug.as_str()).concat(".md"),
    };
    r
}

/// The skeleton text of a new entry: metadata with the title and the given
/// date, and a heading.
pub fn new_post_content(title: &str, date: &str) -> (r: String)
    ensures
        r@ == "---\ntitle: "@ + title@ + "\ndate: "@ + date@ + "\n---\n\n# "@ + title@
            + "\n"@,
{
    "---\ntitle: ".to_owned().concat(title).concat("\ndate: ").concat(date).concat(
        "\n---\n\n# ",
    ).concat(title).concat("\n")
}

} // verus!
