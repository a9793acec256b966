//! The container expander: scans a text for custom delimited blocks
//! (`:::kind` ... `:::`), extracts each block's arguments and content, and
//! expands the block through its kind's template, leaving all other text
//! untouched and in order.
use vstd::prelude::*;

use crate::config::{ArgPolicy, ContainerConfig};
use crate::posts::Post;
use minijinja::value::Value;
use crate::text::{
    all_digits, all_digits_exec, copy_range, chars_string, digits_val, find_char, join_lines,
    join_lines_exec, lemma_digits_val_nonneg, lemma_digits_val_prefix_le, lines_spec, push_all,
    split_lines, str_chars, trim_range, trim_spec,
};

verus! {

/// The three-character block delimiter.
pub open spec fn marker() -> Seq<char> {
    seq![':', ':', ':']
}

/// A line opens a block when it begins with the marker; the rest of the
/// line, trimmed, is the block's kind.
pub open spec fn is_open_line(l: Seq<char>) -> bool {
    l.len() >= 3 && l[0] == ':' && l[1] == ':' && l[2] == ':'
}

/// The kind named by an opening line.
pub open spec fn open_kind(l: Seq<char>) -> Seq<char> {
    trim_spec(l.subrange(3, l.len() as int))
}

/// A line closes a block when it is exactly the marker once trimmed.
pub open spec fn is_close_line(l: Seq<char>) -> bool {
    trim_spec(l) == marker()
}

/// First registered definition for `kind` at or after `i`.
pub open spec fn lookup_def(
    defs: Seq<(String, ContainerConfig)>,
    kind: Seq<char>,
    i: int,
) -> Option<ContainerConfig>
    decreases defs.len() - i,
{
    if i < 0 || i >= defs.len() {
        None
    } else if defs[i].0@ == kind {
        Some(defs[i].1)
    } else {
        lookup_def(defs, kind, i + 1)
    }
}

/// Index of the first closing line at or after `i`; `ls.len()` if none.
pub open spec fn find_close(ls: Seq<Seq<char>>, i: int) -> int
    decreases ls.len() - i,
{
    if i < 0 || i >= ls.len() {
        ls.len() as int
    } else if is_close_line(ls[i]) {
        i
    } else {
        find_close(ls, i + 1)
    }
}

/// A line is blank when trimming leaves nothing.
pub open spec fn is_blank_line(l: Seq<char>) -> bool {
    trim_spec(l).len() == 0
}

/// A key-value parameter line: not blank, and holding a colon.
pub open spec fn is_pair_line(l: Seq<char>) -> bool {
    !is_blank_line(l) && find_char(l, ':', 0) < l.len()
}

/// Index of the first body line that is not a parameter line; `body.len()`
/// if every line is one.
pub open spec fn kv_end(body: Seq<Seq<char>>, i: int) -> int
    decreases body.len() - i,
{
    if i < 0 || i >= body.len() {
        body.len() as int
    } else if !is_pair_line(body[i]) {
        i
    } else {
        kv_end(body, i + 1)
    }
}

/// The key and value of a parameter line: split at the first colon, both
/// sides trimmed.
pub open spec fn pair_of_line(l: Seq<char>) -> (Seq<char>, Seq<char>) {
    let c = find_char(l, ':', 0);
    (trim_spec(l.subrange(0, c)), trim_spec(l.subrange(c + 1, l.len() as int)))
}

/// The placeholder name that expands to the block's content.
pub open spec fn content_name() -> Seq<char> {
    seq!['c', 'o', 'n', 't', 'e', 'n', 't']
}

/// The placeholder name that expands to the block's kind.
pub open spec fn kind_name() -> Seq<char> {
    seq!['k', 'i', 'n', 'd']
}

/// First parameter whose key is `name`, at or after `i`.
pub open spec fn lookup_param(
    params: Seq<(Seq<char>, Seq<char>)>,
    name: Seq<char>,
    i: int,
) -> Option<Seq<char>>
    decreases params.len() - i,
{
    if i < 0 || i >= params.len() {
        None
    } else if params[i].0 == name {
        Some(params[i].1)
    } else {
        lookup_param(params, name, i + 1)
    }
}

/// What a placeholder name stands for: the content, the kind, a positional
/// argument by index, or a keyed parameter; `None` when nothing matches.
pub open spec fn placeholder_value(
    kind: Seq<char>,
    args: Seq<Seq<char>>,
    params: Seq<(Seq<char>, Seq<char>)>,
    content: Seq<char>,
    name: Seq<char>,
) -> Option<Seq<char>> {
    if name == content_name() {
        Some(content)
    } else if name == kind_name() {
        Some(kind)
    } else if all_digits(name) {
        if digits_val(name) < args.len() {
            Some(args[digits_val(name)])
        } else {
            None
        }
    } else {
        lookup_param(params, name, 0)
    }
}

/// Index of the first `}}` at or after `i`; `t.len()` if none.
pub open spec fn find_braces(t: Seq<char>, i: int) -> int
    decreases t.len() - i,
{
    if i < 0 || i + 1 >= t.len() {
        t.len() as int
    } else if t[i] == '}' && t[i + 1] == '}' {
        i
    } else {
        find_braces(t, i + 1)
    }
}

/// The template text from index `i` on, with each `{{name}}` placeholder
/// replaced by its value; an unknown placeholder and an unterminated `{{`
/// are left verbatim. Substituted values are not rescanned.
pub open spec fn subst_from(
    t: Seq<char>,
    kind: Seq<char>,
    args: Seq<Seq<char>>,
    params: Seq<(Seq<char>, Seq<char>)>,
    content: Seq<char>,
    i: int,
) -> Seq<char>
    decreases t.len() - i,
{
    if i < 0 || i >= t.len() {
        Seq::empty()
    } else if i + 1 < t.len() && t[i] == '{' && t[i + 1] == '{' {
        let c0 = find_braces(t, i + 2);
        let c = if c0 < i + 2 {
            i + 2
        } else if c0 > t.len() - 2 {
            t.len() as int
        } else {
            c0
        };
        if c >= t.len() {
            t.subrange(i, t.len() as int)
        } else {
            let name = trim_spec(t.subrange(i + 2, c));
            match placeholder_value(kind, args, params, content, name) {
                Some(v) => v + subst_from(t, kind, args, params, content, c + 2),
                None => t.subrange(i, c + 2) + subst_from(t, kind, args, params, content, c + 2),
            }
        }
    } else {
        seq![t[i]] + subst_from(t, kind, args, params, content, i + 1)
    }
}

/// One block's expansion: arguments and content are read from the body
/// under the kind's policy, then substituted into the kind's template.
/// Under the key-value policy, a leading run of pair lines counts only
/// when it ends at a blank line or at the body's end; a non-matching,
/// non-blank line abandons the interpretation entirely, and the whole
/// body becomes content with no parameters.
pub open spec fn expand_block(cfg: ContainerConfig, kind: Seq<char>, body: Seq<Seq<char>>) -> Seq<
    char,
> {
    match cfg.args {
        ArgPolicy::Positional(n) => {
            let k = if (n as int) <= body.len() {
                n as int
            } else {
                body.len() as int
            };
            let args = body.subrange(0, k).map_values(|l: Seq<char>| trim_spec(l));
            let content = join_lines(body.subrange(k, body.len() as int));
            subst_from(cfg.template@, kind, args, Seq::empty(), content, 0)
        },
        ArgPolicy::KeyValue => {
            let e = kv_end(body, 0);
            if 0 < e && (e == body.len() || is_blank_line(body[e])) {
                let params = body.subrange(0, e).map_values(|l: Seq<char>| pair_of_line(l));
                let content = if e < body.len() {
                    join_lines(body.subrange(e + 1, body.len() as int))
                } else {
                    Seq::empty()
                };
                subst_from(cfg.template@, kind, Seq::empty(), params, content, 0)
            } else {
                subst_from(cfg.template@, kind, Seq::empty(), Seq::empty(), join_lines(body), 0)
            }
        },
    }
}

/// The expansion of the lines from index `i` on. A line that opens a
/// registered kind consumes its block up to the first closing line (or the
/// end of input, for an unterminated block); every other line — including
/// one opening an unregistered kind — passes through verbatim with its
/// newline.
pub open spec fn expand_from(
    defs: Seq<(String, ContainerConfig)>,
    ls: Seq<Seq<char>>,
    i: int,
) -> Seq<char>
    decreases ls.len() - i,
{
    if i < 0 || i >= ls.len() {
        Seq::empty()
    } else {
        let l = ls[i];
        if is_open_line(l) && lookup_def(defs, open_kind(l), 0) is Some {
            let cfg = lookup_def(defs, open_kind(l), 0)->Some_0;
            let c0 = find_close(ls, i + 1);
            let c = if c0 < i + 1 {
                i + 1
            } else if c0 > ls.len() {
                ls.len() as int
            } else {
                c0
            };
            let body = ls.subrange(i + 1, c);
            if c < ls.len() {
                expand_block(cfg, open_kind(l), body) + expand_from(defs, ls, c + 1)
            } else {
                expand_block(cfg, open_kind(l), body)
            }
        } else {
            l.push('\n') + expand_from(defs, ls, i + 1)
        }
    }
}

/// The whole text's expansion: its lines, expanded from the top.
pub open spec fn expand_text(defs: Seq<(String, ContainerConfig)>, input: Seq<char>) -> Seq<char> {
    expand_from(defs, lines_spec(input), 0)
}

/// Compare two character vectors.
#[verifier::loop_isolation(false)]
pub fn chars_eq(a: &Vec<char>, b: &Vec<char>) -> (r: bool)
    ensures
        r == (a@ == b@),
{
    if a.len() != b.len() {
        return false;
    }
    let mut k: usize = 0;
    while k < a.len()
        invariant
            k <= a@.len(),
            a@.len() == b@.len(),
            forall|t: int| 0 <= t < k ==> a@[t] == b@[t],
        decreases a@.len() - k,
    {
        if a[k] != b[k] {
            return false;
        }
        k = k + 1;
    }
    proof {
        assert(a@ =~= b@);
    }
    true
}

/// Whether `name` is the literal placeholder name `content`.
fn is_content_name(name: &Vec<char>) -> (r: bool)
    ensures
        r == (name@ == content_name()),
{
    let r = name.len() == 7 && name[0] == 'c' && name[1] == 'o' && name[2] == 'n' && name[3] == 't'
        && name[4] == 'e' && name[5] == 'n' && name[6] == 't';
    proof {
        if r {
            assert(name@ =~= content_name());
        }
    }
    r
}

/// Whether `name` is the literal placeholder name `kind`.
fn is_kind_name(name: &Vec<char>) -> (r: bool)
    ensures
        r == (name@ == kind_name()),
{
    let r = name.len() == 4 && name[0] == 'k' && name[1] == 'i' && name[2] == 'n' && name[3] == 'd';
    proof {
        if r {
            assert(name@ =~= kind_name());
        }
    }
    r
}

/// Parse an all-digit name as an index, refusing values at or above `limit`.
#[verifier::loop_isolation(false)]
fn parse_index(name: &Vec<char>, limit: usize) -> (r: Option<usize>)
    requires
        all_digits(name@),
    ensures
        match r {
            Some(v) => digits_val(name@) == v && v < limit,
            None => digits_val(name@) >= limit,
        },
{
    if limit == 0 {
        proof {
            lemma_digits_val_nonneg(name@);
        }
        return None;
    }
    let mut acc: u128 = 0;
    let mut t: usize = 0;
    while t < name.len()
        invariant
            t <= name@.len(),
            acc == digits_val(name@.subrange(0, t as int)),
            acc < limit as u128,
        decreases name@.len() - t,
    {
        let c = name[t];
        let d: u128 = (c as u128) - 48;
        let new_acc: u128 = acc * 10 + d;
        proof {
            assert(name@.subrange(0, t + 1).drop_last() =~= name@.subrange(0, t as int));
            assert(name@.subrange(0, t + 1).last() == name@[t as int]);
            assert(digits_val(name@.subrange(0, t + 1)) == acc * 10 + d);
        }
        if new_acc >= limit as u128 {
            proof {
                lemma_digits_val_prefix_le(name@, t + 1);
            }
            return None;
        }
        acc = new_acc;
        t = t + 1;
    }
    proof {
        assert(name@.subrange(0, name@.len() as int) =~= name@);
    }
    Some(acc as usize)
}

/// Look a parameter name up in the keyed parameter set.
#[verifier::loop_isolation(false)]
fn lookup_param_exec(params: &Vec<(Vec<char>, Vec<char>)>, name: &Vec<char>) -> (r: Option<
    Vec<char>,
>)
    ensures
        match r {
            Some(v) => lookup_param(params.deep_view(), name@, 0) == Some(v@),
            None => lookup_param(params.deep_view(), name@, 0) is None,
        },
{
    let ghost pv = params.deep_view();
    let mut k: usize = 0;
    while k < params.len()
        invariant
            k <= params@.len(),
            pv.len() == params@.len(),
            lookup_param(pv, name@, 0) == lookup_param(pv, name@, k as int),
        decreases params@.len() - k,
    {
        proof {
            assert(pv[k as int] == (params@[k as int].0@, params@[k as int].1@));
        }
        if chars_eq(&params[k].0, name) {
            let v = copy_range(&params[k].1, 0, params[k].1.len());
            proof {
                assert(v@ =~= pv[k as int].1);
            }
            return Some(v);
        }
        k = k + 1;
    }
    None
}

/// Resolve one placeholder name against the block's environment.
fn resolve_placeholder(
    kind: &Vec<char>,
    args: &Vec<Vec<char>>,
    params: &Vec<(Vec<char>, Vec<char>)>,
    content: &Vec<char>,
    name: &Vec<char>,
) -> (r: Option<Vec<char>>)
    ensures
        match r {
            Some(v) => placeholder_value(kind@, args.deep_view(), params.deep_view(), content@, name@)
                == Some(v@),
            None => placeholder_value(kind@, args.deep_view(), params.deep_view(), content@, name@)
                is None,
        },
{
    broadcast use crate::text::lemma_vec_char_deep_view;

    if is_content_name(name) {
        let v = copy_range(content, 0, content.len());
        proof {
            assert(v@ =~= content@);
        }
        return Some(v);
    }
    if is_kind_name(name) {
        let v = copy_range(kind, 0, kind.len());
        proof {
            assert(v@ =~= kind@);
        }
        return Some(v);
    }
    if all_digits_exec(name) {
        match parse_index(name, args.len()) {
            Some(idx) => {
                let v = copy_range(&args[idx], 0, args[idx].len());
                proof {
                    assert(v@ =~= args.deep_view()[digits_val(name@)]);
                }
                return Some(v);
            },
            None => {
                return None;
            },
        }
    }
    lookup_param_exec(params, name)
}

/// Substitute every placeholder of the template.
#[verifier::loop_isolation(false)]
fn subst_exec(
    t: &Vec<char>,
    kind: &Vec<char>,
    args: &Vec<Vec<char>>,
    params: &Vec<(Vec<char>, Vec<char>)>,
    content: &Vec<char>,
) -> (r: Vec<char>)
    ensures
        r@ == subst_from(t@, kind@, args.deep_view(), params.deep_view(), content@, 0),
{
    let ghost kv = kind@;
    let ghost av = args.deep_view();
    let ghost pv = params.deep_view();
    let ghost cv = content@;
    let mut out: Vec<char> = Vec::new();
    let mut i: usize = 0;
    while i < t.len()
        invariant
            i <= t@.len(),
            subst_from(t@, kv, av, pv, cv, 0) == out@ + subst_from(t@, kv, av, pv, cv, i as int),
        decreases t@.len() - i,
    {
        let ghost out0 = out@;
        if i + 1 < t.len() && t[i] == '{' && t[i + 1] == '{' {
            let mut j: usize = i + 2;
            while j < t.len() - 1 && !(t[j] == '}' && t[j + 1] == '}')
                invariant
                    i + 2 <= j <= t@.len(),
                    find_braces(t@, i + 2) == find_braces(t@, j as int),
                decreases t@.len() - j,
            {
                j = j + 1;
            }
            if j >= t.len() - 1 {
                assert(find_braces(t@, i + 2) == t@.len());
                let rest = copy_range(t, i, t.len());
                push_all(&mut out, &rest);
                proof {
                    assert(subst_from(t@, kv, av, pv, cv, i as int) == rest@);
                    assert(subst_from(t@, kv, av, pv, cv, 0) =~= out@ + subst_from(
                        t@,
                        kv,
                        av,
                        pv,
                        cv,
                        t@.len() as int,
                    ));
                }
                i = t.len();
            } else {
                assert(t@[j as int] == '}' && t@[j + 1] == '}');
                assert(find_braces(t@, i + 2) == j);
                let name = trim_range(t, i + 2, j);
                match resolve_placeholder(kind, args, params, content, &name) {
                    Some(v) => {
                        push_all(&mut out, &v);
                    },
                    None => {
                        let verbatim = copy_range(t, i, j + 2);
                        push_all(&mut out, &verbatim);
                    },
                }
                proof {
                    assert(subst_from(t@, kv, av, pv, cv, 0) =~= out@ + subst_from(
                        t@,
                        kv,
                        av,
                        pv,
                        cv,
                        j + 2,
                    ));
                }
                i = j + 2;
            }
        } else {
            out.push(t[i]);
            proof {
                assert(out@ =~= out0 + seq![t@[i as int]]);
                assert(subst_from(t@, kv, av, pv, cv, 0) =~= out@ + subst_from(
                    t@,
                    kv,
                    av,
                    pv,
                    cv,
                    i + 1,
                ));
            }
            i = i + 1;
        }
    }
    assert(out@ =~= subst_from(t@, kv, av, pv, cv, 0));
    out
}


/// Copy the line range `[from, to)`.
#[verifier::loop_isolation(false)]
fn copy_lines_range(lines: &Vec<Vec<char>>, from: usize, to: usize) -> (r: Vec<Vec<char>>)
    requires
        from <= to <= lines@.len(),
    ensures
        r.deep_view() == lines.deep_view().subrange(from as int, to as int),
{
    broadcast use crate::text::lemma_vec_char_deep_view;

    let mut r: Vec<Vec<char>> = Vec::new();
    proof {
        assert(r.deep_view() =~= lines.deep_view().subrange(from as int, from as int));
    }
    let mut k: usize = from;
    while k < to
        invariant
            from <= k <= to,
            r.deep_view() == lines.deep_view().subrange(from as int, k as int),
        decreases to - k,
    {
        let ghost dv0 = r.deep_view();
        let line = copy_range(&lines[k], 0, lines[k].len());
        proof {
            assert(line@ =~= lines@[k as int]@);
        }
        r.push(line);
        proof {
            assert(r.deep_view() =~= dv0.push(line@));
            assert(r.deep_view() =~= lines.deep_view().subrange(from as int, k + 1));
        }
        k = k + 1;
    }
    r
}

/// Whether the line closes a block.
fn is_close_exec(l: &Vec<char>) -> (r: bool)
    ensures
        r == is_close_line(l@),
{
    let t = trim_range(l, 0, l.len());
    proof {
        assert(l@.subrange(0, l@.len() as int) =~= l@);
    }
    let r = t.len() == 3 && t[0] == ':' && t[1] == ':' && t[2] == ':';
    proof {
        if r {
            assert(t@ =~= marker());
        }
    }
    r
}

/// Index of the first colon of the line; its length if none.
#[verifier::loop_isolation(false)]
fn find_colon(l: &Vec<char>) -> (r: usize)
    ensures
        r == find_char(l@, ':', 0),
        r <= l@.len(),
{
    let mut k: usize = 0;
    while k < l.len() && l[k] != ':'
        invariant
            k <= l@.len(),
            find_char(l@, ':', 0) == find_char(l@, ':', k as int),
        decreases l@.len() - k,
    {
        k = k + 1;
    }
    k
}

/// Whether the line is blank once trimmed.
fn is_blank_exec(l: &Vec<char>) -> (r: bool)
    ensures
        r == is_blank_line(l@),
{
    let t = trim_range(l, 0, l.len());
    proof {
        assert(l@.subrange(0, l@.len() as int) =~= l@);
    }
    t.len() == 0
}

/// Whether the line is a key-value parameter line.
fn is_pair_exec(l: &Vec<char>) -> (r: bool)
    ensures
        r == is_pair_line(l@),
{
    if is_blank_exec(l) {
        return false;
    }
    let c = find_colon(l);
    c < l.len()
}

/// Find the registered definition for a kind, if any.
#[verifier::loop_isolation(false)]
fn lookup_def_exec(defs: &Vec<(String, ContainerConfig)>, kind: &Vec<char>) -> (r: Option<usize>)
    ensures
        (match r {
            Some(d) => d < defs@.len() && lookup_def(defs@, kind@, 0) == Some(
                defs@[d as int].1,
            ),
            None => lookup_def(defs@, kind@, 0) is None,
        }),
{
    let kind_s = chars_string(kind);
    let mut k: usize = 0;
    while k < defs.len()
        invariant
            k <= defs@.len(),
            kind_s@ == kind@,
            lookup_def(defs@, kind@, 0) == lookup_def(defs@, kind@, k as int),
        decreases defs@.len() - k,
    {
        if defs[k].0 == kind_s {
            return Some(k);
        }
        k = k + 1;
    }
    None
}

/// Expand one block's body through its kind's template.
#[verifier::loop_isolation(false)]
fn expand_block_exec(cfg: &ContainerConfig, kind: &Vec<char>, body: &Vec<Vec<char>>) -> (r: Vec<
    char,
>)
    ensures
        r@ == expand_block(*cfg, kind@, body.deep_view()),
{
    broadcast use crate::text::lemma_vec_char_deep_view;

    let ghost bv = body.deep_view();
    let tmpl = str_chars(cfg.template.as_str());
    let empty_args: Vec<Vec<char>> = Vec::new();
    let empty_params: Vec<(Vec<char>, Vec<char>)> = Vec::new();
    proof {
        assert(empty_args.deep_view() =~= Seq::<Seq<char>>::empty());
        assert(empty_params.deep_view() =~= Seq::<(Seq<char>, Seq<char>)>::empty());
    }
    match cfg.args {
        ArgPolicy::Positional(n) => {
            let k: usize = if n <= body.len() {
                n
            } else {
                body.len()
            };
            let mut args: Vec<Vec<char>> = Vec::new();
            proof {
                assert(args.deep_view() =~= bv.subrange(0, 0).map_values(
                    |l: Seq<char>| trim_spec(l),
                ));
            }
            let mut t: usize = 0;
            while t < k
                invariant
                    t <= k <= body@.len(),
                    args.deep_view() == bv.subrange(0, t as int).map_values(
                        |l: Seq<char>| trim_spec(l),
                    ),
                decreases k - t,
            {
                let ghost dv0 = args.deep_view();
                let a = trim_range(&body[t], 0, body[t].len());
                proof {
                    assert(bv[t as int].subrange(0, bv[t as int].len() as int) =~= bv[t as int]);
                }
                args.push(a);
                proof {
                    assert(args.deep_view() =~= dv0.push(a@));
                    assert(args.deep_view() =~= bv.subrange(0, t + 1).map_values(
                        |l: Seq<char>| trim_spec(l),
                    ));
                }
                t = t + 1;
            }
            let content_lines = copy_lines_range(body, k, body.len());
            let content = join_lines_exec(&content_lines);
            subst_exec(&tmpl, kind, &args, &empty_params, &content)
        },
        ArgPolicy::KeyValue => {
            let mut e: usize = 0;
            while e < body.len() && is_pair_exec(&body[e])
                invariant
                    e <= body@.len(),
                    kv_end(bv, 0) == kv_end(bv, e as int),
                    forall|q: int| 0 <= q < e ==> is_pair_line(#[trigger] bv[q]),
                decreases body@.len() - e,
            {
                e = e + 1;
            }
            assert(kv_end(bv, 0) == e);
            let blank_term = if e < body.len() {
                is_blank_exec(&body[e])
            } else {
                true
            };
            if e > 0 && blank_term {
                let mut params: Vec<(Vec<char>, Vec<char>)> = Vec::new();
                proof {
                    assert(params.deep_view() =~= bv.subrange(0, 0).map_values(
                        |l: Seq<char>| pair_of_line(l),
                    ));
                }
                let mut t: usize = 0;
                while t < e
                    invariant
                        t <= e <= body@.len(),
                        forall|q: int| 0 <= q < e ==> is_pair_line(#[trigger] bv[q]),
                        params.deep_view() == bv.subrange(0, t as int).map_values(
                            |l: Seq<char>| pair_of_line(l),
                        ),
                    decreases e - t,
                {
                    let ghost dv0 = params.deep_view();
                    let line = &body[t];
                    proof {
                        assert(is_pair_line(bv[t as int]));
                        assert(bv[t as int] == line@);
                    }
                    let llen = line.len();
                    let c = find_colon(line);
                    assert(c < llen);
                    let key = trim_range(line, 0, c);
                    let val = trim_range(line, c + 1, llen);
                    params.push((key, val));
                    proof {
                        assert((key@, val@) == pair_of_line(bv[t as int]));
                        assert(params.deep_view() =~= dv0.push((key@, val@)));
                        assert(params.deep_view() =~= bv.subrange(0, t + 1).map_values(
                            |l: Seq<char>| pair_of_line(l),
                        ));
                    }
                    t = t + 1;
                }
                let content: Vec<char> = if e < body.len() {
                    let rest = copy_lines_range(body, e + 1, body.len());
                    join_lines_exec(&rest)
                } else {
                    Vec::new()
                };
                subst_exec(&tmpl, kind, &empty_args, &params, &content)
            } else {
                let content = join_lines_exec(body);
                subst_exec(&tmpl, kind, &empty_args, &empty_params, &content)
            }
        },
    }
}

/// Expand all blocks among the given lines.
#[verifier::loop_isolation(false)]
fn expand_lines_exec(defs: &Vec<(String, ContainerConfig)>, lines: &Vec<Vec<char>>) -> (r: Vec<
    char,
>)
    ensures
        r@ == expand_from(defs@, lines.deep_view(), 0),
{
    broadcast use crate::text::lemma_vec_char_deep_view;

    let ghost lv = lines.deep_view();
    let mut out: Vec<char> = Vec::new();
    let mut i: usize = 0;
    while i < lines.len()
        invariant
            i <= lv.len(),
            expand_from(defs@, lv, 0) == out@ + expand_from(defs@, lv, i as int),
        decreases lv.len() - i,
    {
        let ghost out0 = out@;
        let line = &lines[i];
        proof {
            assert(line@ == lv[i as int]);
        }
        let opens = line.len() >= 3 && line[0] == ':' && line[1] == ':' && line[2] == ':';
        let mut handled = false;
        if opens {
            assert(is_open_line(lv[i as int]));
            let kind = trim_range(line, 3, line.len());
            proof {
                assert(kind@ == open_kind(lv[i as int]));
            }
            match lookup_def_exec(defs, &kind) {
                Some(d) => {
                    let mut j: usize = i + 1;
                    while j < lines.len() && !is_close_exec(&lines[j])
                        invariant
                            i + 1 <= j <= lv.len(),
                            find_close(lv, i + 1) == find_close(lv, j as int),
                        decreases lv.len() - j,
                    {
                        j = j + 1;
                    }
                    assert(find_close(lv, i + 1) == j);
                    let body = copy_lines_range(lines, i + 1, j);
                    let expanded = expand_block_exec(&defs[d].1, &kind, &body);
                    push_all(&mut out, &expanded);
                    if j < lines.len() {
                        proof {
                            assert(expand_from(defs@, lv, i as int) == expand_block(
                                defs@[d as int].1,
                                kind@,
                                lv.subrange(i + 1, j as int),
                            ) + expand_from(defs@, lv, j + 1));
                            assert(expand_from(defs@, lv, 0) =~= out@ + expand_from(
                                defs@,
                                lv,
                                j + 1,
                            ));
                        }
                        i = j + 1;
                    } else {
                        proof {
                            assert(expand_from(defs@, lv, i as int) == expand_block(
                                defs@[d as int].1,
                                kind@,
                                lv.subrange(i + 1, j as int),
                            ));
                            assert(expand_from(defs@, lv, 0) =~= out@ + expand_from(
                                defs@,
                                lv,
                                lv.len() as int,
                            ));
                        }
                        i = lines.len();
                    }
                    handled = true;
                },
                None => {
                },
            }
        }
        if !handled {
            push_all(&mut out, line);
            out.push('\n');
            proof {
                assert(out@ =~= out0 + lv[i as int].push('\n'));
                assert(expand_from(defs@, lv, 0) =~= out@ + expand_from(defs@, lv, i + 1));
            }
            i = i + 1;
        }
    }
    assert(out@ =~= expand_from(defs@, lv, 0));
    out
}

/// Replace every registered container block of `input` by its expansion,
/// leaving all other text unchanged; with no definitions configured the
/// input is returned as it is.
pub fn process_containers(defs: &Option<Vec<(String, ContainerConfig)>>, input: &str) -> (r:
    String)
    ensures
        (match defs {
            Some(d) => r@ == expand_text(d@, input@),
            None => r@ == input@,
        }),
{
    match defs {
        None => input.to_owned(),
        Some(d) => {
            let cv = str_chars(input);
            let lines = split_lines(&cv);
            let out = expand_lines_exec(d, &lines);
            chars_string(&out)
        },
    }
}


/// The descriptors seen through views, as the index context receives
/// them.
pub open spec fn posts_view(ps: Seq<Post>) -> Seq<(Seq<char>, Seq<char>, Seq<char>)> {
    ps.map_values(|p: Post| (p.title@, p.date@, p.slug@))
}

/// What the external templating engine renders for a template text and a
/// context of site pairs, a page-metadata text (a YAML mapping; the
/// engine's context exposes it parsed, under `page`) and content; `None`
/// when the engine rejects the template.
pub uninterp spec fn applied_of(
    tpl: Seq<char>,
    site: Seq<(Seq<char>, Seq<char>)>,
    page: Seq<char>,
    content: Seq<char>,
) -> Option<Seq<char>>;

/// Relies on minijinja's `Environment::render_str`: with a fresh default
/// environment the rendering is a pure function of the template text and
/// the context values, and it returns `Ok` exactly when the template is
/// well-formed for this context. The context exposes `config` (the site
/// pairs), `content`, and `page`: the given metadata text parsed by
/// serde_yaml's `from_str` (deterministic too; a text that is no YAML
/// document at all is exposed as an empty value).
#[verifier::external_body]
pub fn apply(
    template: &str,
    site: &Vec<(String, String)>,
    page_yaml: &str,
    content: &str,
) -> (r: Result<String, String>)
    ensures
        (match r {
            Ok(v) => applied_of(template@, site.deep_view(), page_yaml@, content@) == Some(v@),
            Err(_) => applied_of(template@, site.deep_view(), page_yaml@, content@) is None,
        }),
{
    let pg: serde_yaml::Value = serde_yaml::from_str(page_yaml).unwrap_or(serde_yaml::Value::Null);
    let cfg = Value::from_iter(site.iter().map(|p| (p.0.as_str(), p.1.as_str())));
    let ctx = Value::from_iter([("config", cfg), ("content", Value::from(content)), ("page",
        Value::from_serialize(&pg))]);
    minijinja::Environment::new().render_str(template, ctx).map_err(|e| e.to_string())
}

} // verus!
