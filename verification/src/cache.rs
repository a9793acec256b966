//! The build cache: a mapping from entry identifier to the entry's
//! last-known modification timestamp. It decides which entries an
//! incremental build re-renders, and round-trips through a plain text
//! format (one `timestamp space identifier` line per record).
use vstd::prelude::*;

use crate::text::{
    all_digits, all_digits_exec, chars_string, copy_range, digit_seq, digits_val, find_char,
    is_digit_char, lemma_digits_val_prefix_le, lines_from, lines_spec, push_all, split_lines,
    str_chars,
};

verus! {

/// The pair sequence seen through views.
pub open spec fn view_pairs(s: Seq<(String, u64)>) -> Seq<(Seq<char>, u64)> {
    s.map_values(|p: (String, u64)| (p.0@, p.1))
}

/// The mapping an ordered pair sequence denotes; a later pair overrides an
/// earlier one with the same identifier.
pub open spec fn pairs_map(s: Seq<(Seq<char>, u64)>) -> Map<Seq<char>, u64>
    decreases s.len(),
{
    if s.len() == 0 {
        Map::empty()
    } else {
        pairs_map(s.drop_last()).insert(s.last().0, s.last().1)
    }
}

/// An entry is stale when the record holds nothing for it, or when a
/// strictly newer modification time is offered; an equal or older time is
/// not stale.
pub open spec fn spec_is_stale(m: Map<Seq<char>, u64>, entry_id: Seq<char>, modified_at: u64) -> bool {
    !m.contains_key(entry_id) || m[entry_id] < modified_at
}

/// Staleness is monotone: an entry not stale at `t1` is not stale at any
/// `t2 <= t1` either.
pub proof fn lemma_staleness_monotonic(
    m: Map<Seq<char>, u64>,
    entry_id: Seq<char>,
    t1: u64,
    t2: u64,
)
    requires
        !spec_is_stale(m, entry_id, t1),
        t2 <= t1,
    ensures
        !spec_is_stale(m, entry_id, t2),
{
}

/// The identifiers a pair sequence knows are exactly those of its pairs.
proof fn lemma_pairs_map_domain(s: Seq<(Seq<char>, u64)>, id: Seq<char>)
    ensures
        pairs_map(s).contains_key(id) <==> exists|k: int|
            0 <= k < s.len() && (#[trigger] s[k]).0 == id,
    decreases s.len(),
{
    if s.len() > 0 {
        lemma_pairs_map_domain(s.drop_last(), id);
        if s.last().0 == id {
            assert((s[s.len() - 1]).0 == id);
        } else if pairs_map(s).contains_key(id) {
            let k = choose|k: int| 0 <= k < s.drop_last().len() && (#[trigger] s.drop_last()[k]).0
                == id;
            assert((s[k]).0 == id);
        } else {
            assert forall|k: int| 0 <= k < s.len() implies (#[trigger] s[k]).0 != id by {
                if k < s.len() - 1 {
                    assert(s.drop_last()[k] == s[k]);
                }
            }
        }
    }
}

/// A pair with no later duplicate gives the mapping its value.
proof fn lemma_pairs_map_index(s: Seq<(Seq<char>, u64)>, i: int)
    requires
        0 <= i < s.len(),
        forall|j: int| i < j < s.len() ==> (#[trigger] s[j]).0 != s[i].0,
    ensures
        pairs_map(s).contains_key(s[i].0),
        pairs_map(s)[s[i].0] == s[i].1,
    decreases s.len(),
{
    if i < s.len() - 1 {
        assert forall|j: int| i < j < s.drop_last().len() implies (#[trigger] s.drop_last()[j]).0
            != s.drop_last()[i].0 by {
            assert(s.drop_last()[j] == s[j]);
        }
        lemma_pairs_map_index(s.drop_last(), i);
        assert((s[s.len() - 1]).0 != s[i].0);
    }
}

/// Removing a pair removes its identifier, when identifiers are unique.
proof fn lemma_pairs_map_remove(s: Seq<(Seq<char>, u64)>, i: int)
    requires
        0 <= i < s.len(),
        forall|k: int, j: int|
            0 <= k < j < s.len() ==> (#[trigger] s[k]).0 != (#[trigger] s[j]).0,
    ensures
        pairs_map(s.remove(i)) == pairs_map(s).remove(s[i].0),
    decreases s.len(),
{
    if i == s.len() - 1 {
        assert(s.remove(i) =~= s.drop_last());
        lemma_pairs_map_domain(s.drop_last(), s[i].0);
        assert forall|k: int| 0 <= k < s.drop_last().len() implies (#[trigger] s.drop_last()[k]).0
            != s[i].0 by {
            assert(s.drop_last()[k] == s[k]);
        }
        assert(!pairs_map(s.drop_last()).contains_key(s[i].0));
        assert(pairs_map(s.drop_last()) =~= pairs_map(s).remove(s[i].0));
    } else {
        let w = s.remove(i);
        assert(w.drop_last() =~= s.drop_last().remove(i));
        assert(w.last() == s.last());
        assert forall|k: int, j: int| 0 <= k < j < s.drop_last().len() implies (#[trigger] s.drop_last()[k]).0
            != (#[trigger] s.drop_last()[j]).0 by {
            assert(s.drop_last()[k] == s[k] && s.drop_last()[j] == s[j]);
        }
        lemma_pairs_map_remove(s.drop_last(), i);
        assert(s.drop_last()[i] == s[i]);
        assert((s[s.len() - 1]).0 != (s[i]).0);
        assert(pairs_map(w) == pairs_map(s.drop_last()).remove(s[i].0).insert(
            s.last().0,
            s.last().1,
        ));
        assert(pairs_map(s.drop_last()).remove(s[i].0).insert(s.last().0, s.last().1)
            =~= pairs_map(s.drop_last()).insert(s.last().0, s.last().1).remove(s[i].0));
    }
}

/// The build cache.
#[derive(Debug)]
pub struct BuildCache {
    /// One record per entry identifier, as `(identifier, modified_at)`.
    pub posts: Vec<(String, u64)>,
}

impl BuildCache {
    /// Well-formed: at most one record per entry identifier.
    pub open spec fn wf(&self) -> bool {
        forall|i: int, j: int|
            0 <= i < j < self.posts@.len() ==> (#[trigger] self.posts@[i]).0@ != (
            #[trigger] self.posts@[j]).0@
    }

    /// The mapping this cache denotes.
    pub open spec fn as_map(&self) -> Map<Seq<char>, u64> {
        pairs_map(view_pairs(self.posts@))
    }

    /// The empty cache.
    pub fn new() -> (r: BuildCache)
        ensures
            r.wf(),
            r.as_map() == Map::<Seq<char>, u64>::empty(),
    {
        let r = BuildCache { posts: Vec::new() };
        proof {
            assert(view_pairs(r.posts@) =~= Seq::<(Seq<char>, u64)>::empty());
        }
        r
    }

    /// The stored modification time for an entry, if any.
    #[verifier::loop_isolation(false)]
    pub fn get(&self, entry_id: &str) -> (r: Option<u64>)
        requires
            self.wf(),
        ensures
            (match r {
                Some(t) => self.as_map().contains_key(entry_id@) && self.as_map()[entry_id@] == t,
                None => !self.as_map().contains_key(entry_id@),
            }),
    {
        let ghost vp = view_pairs(self.posts@);
        let id = entry_id.to_owned();
        let mut k: usize = 0;
        while k < self.posts.len()
            invariant
                k <= self.posts@.len(),
                id@ == entry_id@,
                forall|t: int| 0 <= t < k ==> (#[trigger] self.posts@[t]).0@ != entry_id@,
            decreases self.posts@.len() - k,
        {
            if self.posts[k].0 == id {
                proof {
                    assert(vp[k as int].0 == entry_id@);
                    assert forall|j: int| k < j < vp.len() implies (#[trigger] vp[j]).0
                        != vp[k as int].0 by {
                        assert(vp[j].0 == self.posts@[j].0@);
                    }
                    lemma_pairs_map_index(vp, k as int);
                }
                return Some(self.posts[k].1);
            }
            k = k + 1;
        }
        proof {
            lemma_pairs_map_domain(vp, entry_id@);
            assert forall|t: int| 0 <= t < vp.len() implies (#[trigger] vp[t]).0 != entry_id@ by {
                assert(vp[t].0 == self.posts@[t].0@);
            }
        }
        None
    }

    /// Whether an entry with the given modification time is stale.
    pub fn is_stale(&self, entry_id: &str, modified_at: u64) -> (r: bool)
        requires
            self.wf(),
        ensures
            r == spec_is_stale(self.as_map(), entry_id@, modified_at),
    {
        match self.get(entry_id) {
            None => true,
            Some(t) => t < modified_at,
        }
    }

    /// Insert or overwrite the record for an entry.
    #[verifier::loop_isolation(false)]
    pub fn insert(&mut self, entry_id: String, modified_at: u64)
        requires
            old(self).wf(),
        ensures
            final(self).wf(),
            final(self).as_map() == old(self).as_map().insert(entry_id@, modified_at),
    {
        let ghost ow = old(self).posts@;
        let ghost vp0 = view_pairs(ow);
        let mut k: usize = 0;
        let mut found: Option<usize> = None;
        while k < self.posts.len()
            invariant
                k <= self.posts@.len(),
                (match found {
                    Some(f) => f < self.posts@.len() && self.posts@[f as int].0@ == entry_id@,
                    None => forall|t: int|
                        0 <= t < k ==> (#[trigger] self.posts@[t]).0@ != entry_id@,
                }),
                self.posts@ == ow,
            decreases self.posts@.len() - k,
        {
            if found.is_none() && self.posts[k].0 == entry_id {
                found = Some(k);
            }
            k = k + 1;
        }
        match found {
            Some(f) => {
                proof {
                    assert forall|a: int, b: int| 0 <= a < b < vp0.len() implies (
                    #[trigger] vp0[a]).0 != (#[trigger] vp0[b]).0 by {
                        assert(vp0[a].0 == ow[a].0@ && vp0[b].0 == ow[b].0@);
                    }
                    lemma_pairs_map_remove(vp0, f as int);
                }
                self.posts.remove(f);
                let ghost w = self.posts@;
                proof {
                    assert forall|a: int| 0 <= a < w.len() implies (#[trigger] w[a]).0@
                        != entry_id@ by {
                        if a < f {
                            assert(w[a] == ow[a]);
                        } else {
                            assert(w[a] == ow[a + 1]);
                        }
                    }
                    assert forall|a: int, b: int| 0 <= a < b < w.len() implies (
                    #[trigger] w[a]).0@ != (#[trigger] w[b]).0@ by {
                        if a < f {
                            assert(w[a] == ow[a]);
                        } else {
                            assert(w[a] == ow[a + 1]);
                        }
                        if b < f {
                            assert(w[b] == ow[b]);
                        } else {
                            assert(w[b] == ow[b + 1]);
                        }
                    }
                    assert(view_pairs(w) =~= vp0.remove(f as int));
                }
                self.posts.push((entry_id, modified_at));
                proof {
                    let vp2 = view_pairs(self.posts@);
                    assert(vp2.drop_last() =~= view_pairs(w));
                    assert(self.as_map() == pairs_map(view_pairs(w)).insert(entry_id@,
                        modified_at));
                    assert(vp0[f as int].0 == entry_id@);
                    assert(self.as_map() =~= old(self).as_map().insert(entry_id@, modified_at));
                }
            },
            None => {
                let ghost w = self.posts@;
                self.posts.push((entry_id, modified_at));
                proof {
                    let vp2 = view_pairs(self.posts@);
                    assert(vp2.drop_last() =~= view_pairs(w));
                    assert(self.as_map() =~= old(self).as_map().insert(entry_id@, modified_at));
                }
            },
        }
    }
}


/// The character for one decimal digit.
pub open spec fn digit_char(d: int) -> char {
    if d == 0 { '0' }
    else if d == 1 { '1' }
    else if d == 2 { '2' }
    else if d == 3 { '3' }
    else if d == 4 { '4' }
    else if d == 5 { '5' }
    else if d == 6 { '6' }
    else if d == 7 { '7' }
    else if d == 8 { '8' }
    else { '9' }
}

/// The decimal digits of a positive number; empty for zero.
pub open spec fn dec_rec(n: int) -> Seq<char>
    decreases n,
{
    if n <= 0 {
        Seq::empty()
    } else {
        dec_rec(n / 10).push(digit_char(n % 10))
    }
}

/// The decimal text of a non-negative number.
pub open spec fn dec_spec(n: int) -> Seq<char> {
    if n == 0 {
        seq!['0']
    } else {
        dec_rec(n)
    }
}

/// One cache line parsed: the digits before the first space are the
/// timestamp, the rest of the line is the identifier.
pub open spec fn parse_line(l: Seq<char>) -> Option<(Seq<char>, u64)> {
    let sp = find_char(l, ' ', 0);
    if sp >= l.len() {
        None
    } else {
        let ds = l.subrange(0, sp);
        if all_digits(ds) && digits_val(ds) <= u64::MAX {
            Some((l.subrange(sp + 1, l.len() as int), digits_val(ds) as u64))
        } else {
            None
        }
    }
}

/// All cache lines parsed in order; `None` as soon as one is malformed.
pub open spec fn parse_lines(ls: Seq<Seq<char>>) -> Option<Seq<(Seq<char>, u64)>>
    decreases ls.len(),
{
    if ls.len() == 0 {
        Some(Seq::empty())
    } else {
        match parse_line(ls[0]) {
            None => None,
            Some(p) => match parse_lines(ls.drop_first()) {
                None => None,
                Some(rest) => Some(seq![p] + rest),
            },
        }
    }
}

/// The records a cache text denotes; a malformed text denotes no records
/// (the cache degrades to empty, never fails).
pub open spec fn decode_pairs(s: Seq<char>) -> Seq<(Seq<char>, u64)> {
    match parse_lines(lines_spec(s)) {
        Some(ps) => ps,
        None => Seq::empty(),
    }
}

/// The encoded text of a record sequence: one `timestamp space identifier`
/// line per record.
pub open spec fn encode_pairs(ps: Seq<(Seq<char>, u64)>) -> Seq<char>
    decreases ps.len(),
{
    if ps.len() == 0 {
        Seq::empty()
    } else {
        dec_spec(ps[0].1 as int) + seq![' '] + ps[0].0 + seq!['\n'] + encode_pairs(
            ps.drop_first(),
        )
    }
}

/// Digit characters are digits and carry their value.
proof fn lemma_digit_char_val(d: int)
    requires
        0 <= d < 10,
    ensures
        is_digit_char(digit_char(d)),
        digit_char(d) as int == 48 + d,
{
}

/// The decimal digits of `n` are digits and denote `n`.
proof fn lemma_dec_digits(n: int)
    requires
        n >= 0,
    ensures
        digit_seq(dec_rec(n)),
        digits_val(dec_rec(n)) == n,
        n > 0 ==> dec_rec(n).len() >= 1,
    decreases n,
{
    if n > 0 {
        lemma_dec_digits(n / 10);
        lemma_digit_char_val(n % 10);
        let w = dec_rec(n);
        assert(w.drop_last() =~= dec_rec(n / 10));
        assert(digits_val(w) == digits_val(dec_rec(n / 10)) * 10 + (digit_char(n % 10) as int
            - 48));
        assert forall|k: int| 0 <= k < w.len() implies is_digit_char(#[trigger] w[k]) by {
            if k < w.len() - 1 {
                assert(w[k] == dec_rec(n / 10)[k]);
            }
        }
    }
}

/// The decimal text of `n` is all digits and denotes `n`.
proof fn lemma_dec_spec(n: int)
    requires
        n >= 0,
    ensures
        all_digits(dec_spec(n)),
        digits_val(dec_spec(n)) == n,
        dec_spec(n).len() >= 1,
{
    if n == 0 {
        assert(dec_spec(0) =~= seq!['0']);
        assert(digits_val(seq!['0']) == ('0' as int - 48)) by {
            assert(seq!['0'].drop_last() =~= Seq::<char>::empty());
            assert(digits_val(Seq::<char>::empty()) == 0);
            assert(seq!['0'].last() == '0');
        }
    } else {
        lemma_dec_digits(n);
    }
}

/// A search that starts past a `c`-free prefix finds the same occurrence.
proof fn lemma_find_char_from(t: Seq<char>, c: char, i: int)
    requires
        0 <= i <= t.len(),
        forall|k: int| 0 <= k < i ==> t[k] != c,
    ensures
        find_char(t, c, 0) == find_char(t, c, i),
    decreases i,
{
    if i > 0 {
        lemma_find_char_from(t, c, i - 1);
    }
}

/// Searching after a prefix is searching the suffix, shifted.
proof fn lemma_find_char_shift(p: Seq<char>, s: Seq<char>, c: char, i: int)
    requires
        0 <= i,
    ensures
        find_char(p + s, c, p.len() + i) == p.len() + find_char(s, c, i),
    decreases s.len() - i,
{
    let t = p + s;
    if i < s.len() {
        assert(t[p.len() + i] == s[i]);
        if s[i] != c {
            lemma_find_char_shift(p, s, c, i + 1);
        }
    }
}

/// Splitting lines after a prefix is splitting the suffix, shifted.
proof fn lemma_lines_shift(p: Seq<char>, s: Seq<char>, i: int)
    requires
        0 <= i,
    ensures
        lines_from(p + s, p.len() + i) == lines_from(s, i),
    decreases s.len() - i,
{
    let t = p + s;
    if i >= s.len() {
    } else {
        lemma_find_char_shift(p, s, '\n', i);
        let b0 = find_char(s, '\n', i);
        let b = if b0 < i {
            i
        } else if b0 > s.len() {
            s.len() as int
        } else {
            b0
        };
        if b >= s.len() {
            assert(t.subrange(p.len() + i, t.len() as int) =~= s.subrange(i, s.len() as int));
        } else {
            assert(t.subrange(p.len() + i, p.len() + b) =~= s.subrange(i, b));
            lemma_lines_shift(p, s, b + 1);
        }
    }
}

/// An encoded line parses back to its record.
proof fn lemma_parse_encoded_line(id: Seq<char>, t: u64)
    ensures
        parse_line(dec_spec(t as int) + seq![' '] + id) == Some((id, t)),
{
    lemma_dec_spec(t as int);
    let ds = dec_spec(t as int);
    let l = ds + seq![' '] + id;
    assert forall|k: int| 0 <= k < ds.len() implies l[k] != ' ' by {
        assert(l[k] == ds[k]);
        assert(is_digit_char(ds[k]));
    }
    lemma_find_char_from(l, ' ', ds.len() as int);
    assert(l[ds.len() as int] == ' ');
    assert(find_char(l, ' ', ds.len() as int) == ds.len() as int);
    assert(l.subrange(0, ds.len() as int) =~= ds);
    assert(l.subrange(ds.len() as int + 1, l.len() as int) =~= id);
}

/// An encoded record sequence parses back to itself, line by line.
proof fn lemma_encode_parses(ps: Seq<(Seq<char>, u64)>)
    requires
        forall|k: int, j: int|
            0 <= k < ps.len() && 0 <= j < ps[k].0.len() ==> (#[trigger] ps[k].0[j]) != '\n',
    ensures
        parse_lines(lines_spec(encode_pairs(ps))) == Some(ps),
    decreases ps.len(),
{
    if ps.len() == 0 {
        assert(encode_pairs(ps) =~= Seq::<char>::empty());
        assert(parse_lines(lines_spec(encode_pairs(ps))) == Some(Seq::<(Seq<char>, u64)>::empty()));
        assert(ps =~= Seq::<(Seq<char>, u64)>::empty());
    } else {
        let p0 = ps[0];
        lemma_dec_spec(p0.1 as int);
        let ds = dec_spec(p0.1 as int);
        let line0 = ds + seq![' '] + p0.0;
        let reste = encode_pairs(ps.drop_first());
        let e = encode_pairs(ps);
        assert(e == line0 + seq!['\n'] + reste);
        assert forall|k: int| 0 <= k < line0.len() implies e[k] != '\n' by {
            assert(e[k] == line0[k]);
            if k < ds.len() {
                assert(line0[k] == ds[k]);
                assert(is_digit_char(ds[k]));
            } else if k == ds.len() {
                assert(line0[k] == ' ');
            } else {
                assert(line0[k] == p0.0[k - ds.len() - 1]);
            }
        }
        lemma_find_char_from(e, '\n', line0.len() as int);
        assert(e[line0.len() as int] == '\n');
        assert(find_char(e, '\n', line0.len() as int) == line0.len() as int);
        assert(e.subrange(0, line0.len() as int) =~= line0);
        assert(e =~= (line0 + seq!['\n']) + reste);
        lemma_lines_shift(line0 + seq!['\n'], reste, 0);
        assert(lines_from(e, line0.len() as int + 1) == lines_from(reste, 0));
        let ls = lines_spec(e);
        assert(ls == seq![line0] + lines_spec(reste));
        lemma_parse_encoded_line(p0.0, p0.1);
        assert(ls[0] == line0);
        assert(parse_line(ls[0]) == Some((p0.0, p0.1)));
        assert forall|k: int, j: int|
            0 <= k < ps.drop_first().len() && 0 <= j < ps.drop_first()[k].0.len() implies (
        #[trigger] ps.drop_first()[k].0[j]) != '\n' by {
            assert(ps.drop_first()[k] == ps[k + 1]);
            assert(ps[k + 1].0[j] != '\n');
        }
        lemma_encode_parses(ps.drop_first());
        assert(ls.drop_first() =~= lines_spec(reste));
        assert(parse_lines(ls) == Some(seq![(p0.0, p0.1)] + ps.drop_first()));
        assert(seq![(p0.0, p0.1)] + ps.drop_first() =~= ps);
    }
}

/// Cache round-trip: decoding an encoded record sequence yields it back,
/// for identifiers free of newlines.
pub proof fn lemma_cache_round_trip(ps: Seq<(Seq<char>, u64)>)
    requires
        forall|k: int, j: int|
            0 <= k < ps.len() && 0 <= j < ps[k].0.len() ==> (#[trigger] ps[k].0[j]) != '\n',
    ensures
        decode_pairs(encode_pairs(ps)) == ps,
{
    lemma_encode_parses(ps);
}

/// The character of one digit.
fn digit_char_exec(d: u64) -> (r: char)
    requires
        d < 10,
    ensures
        r == digit_char(d as int),
{
    if d == 0 { '0' }
    else if d == 1 { '1' }
    else if d == 2 { '2' }
    else if d == 3 { '3' }
    else if d == 4 { '4' }
    else if d == 5 { '5' }
    else if d == 6 { '6' }
    else if d == 7 { '7' }
    else if d == 8 { '8' }
    else { '9' }
}

/// Append the digits of a positive number.
fn push_dec_rec(out: &mut Vec<char>, n: u64)
    requires
        n > 0,
    ensures
        final(out)@ == old(out)@ + dec_rec(n as int),
    decreases n,
{
    if n >= 10 {
        push_dec_rec(out, n / 10);
    }
    out.push(digit_char_exec(n % 10));
    proof {
        if n < 10 {
            assert(dec_rec((n as int) / 10) == Seq::<char>::empty());
        }
        assert(out@ =~= old(out)@ + dec_rec(n as int));
    }
}

/// Append the decimal text of a number.
fn push_dec(out: &mut Vec<char>, n: u64)
    ensures
        final(out)@ == old(out)@ + dec_spec(n as int),
{
    if n == 0 {
        out.push('0');
        assert(out@ =~= old(out)@ + dec_spec(0));
    } else {
        push_dec_rec(out, n);
    }
}

/// Index of the first space of the line; its length if none.
#[verifier::loop_isolation(false)]
fn find_space(l: &Vec<char>) -> (r: usize)
    ensures
        r == find_char(l@, ' ', 0),
        r <= l@.len(),
{
    let mut k: usize = 0;
    while k < l.len() && l[k] != ' '
        invariant
            k <= l@.len(),
            find_char(l@, ' ', 0) == find_char(l@, ' ', k as int),
        decreases l@.len() - k,
    {
        k = k + 1;
    }
    k
}

/// Parse an all-digit text as a timestamp.
#[verifier::loop_isolation(false)]
fn parse_u64(ds: &Vec<char>) -> (r: Option<u64>)
    requires
        all_digits(ds@),
    ensures
        (match r {
            Some(v) => digits_val(ds@) == v,
            None => digits_val(ds@) > u64::MAX,
        }),
{
    let mut acc: u128 = 0;
    let mut t: usize = 0;
    while t < ds.len()
        invariant
            t <= ds@.len(),
            acc == digits_val(ds@.subrange(0, t as int)),
            acc <= u64::MAX as u128,
        decreases ds@.len() - t,
    {
        let c = ds[t];
        let d: u128 = (c as u128) - 48;
        let new_acc: u128 = acc * 10 + d;
        proof {
            assert(ds@.subrange(0, t + 1).drop_last() =~= ds@.subrange(0, t as int));
            assert(ds@.subrange(0, t + 1).last() == ds@[t as int]);
            assert(digits_val(ds@.subrange(0, t + 1)) == acc * 10 + d);
        }
        if new_acc > u64::MAX as u128 {
            proof {
                lemma_digits_val_prefix_le(ds@, t + 1);
            }
            return None;
        }
        acc = new_acc;
        t = t + 1;
    }
    proof {
        assert(ds@.subrange(0, ds@.len() as int) =~= ds@);
    }
    Some(acc as u64)
}

impl BuildCache {
    /// The cache as its persisted text.
    #[verifier::loop_isolation(false)]
    pub fn to_text(&self) -> (r: String)
        ensures
            r@ == encode_pairs(view_pairs(self.posts@)),
    {
        let ghost vp = view_pairs(self.posts@);
        let mut out: Vec<char> = Vec::new();
        proof {
            assert(vp.skip(0) =~= vp);
        }
        let mut i: usize = 0;
        while i < self.posts.len()
            invariant
                i <= self.posts@.len(),
                encode_pairs(vp) == out@ + encode_pairs(vp.skip(i as int)),
            decreases self.posts@.len() - i,
        {
            push_dec(&mut out, self.posts[i].1);
            out.push(' ');
            let idc = str_chars(self.posts[i].0.as_str());
            push_all(&mut out, &idc);
            out.push('\n');
            proof {
                assert(vp.skip(i as int)[0] == (self.posts@[i as int].0@, self.posts@[i as int].1));
                assert(vp.skip(i as int).drop_first() =~= vp.skip(i + 1));
                assert(encode_pairs(vp) =~= out@ + encode_pairs(vp.skip(i + 1)));
            }
            i = i + 1;
        }
        proof {
            assert(vp.skip(vp.len() as int) =~= Seq::<(Seq<char>, u64)>::empty());
            assert(out@ =~= encode_pairs(vp));
        }
        chars_string(&out)
    }

    /// A cache read back from its persisted text; a malformed text yields
    /// the empty cache rather than an error.
    #[verifier::loop_isolation(false)]
    pub fn from_text(text: &str) -> (r: BuildCache)
        ensures
            r.wf(),
            r.as_map() == pairs_map(decode_pairs(text@)),
    {
        broadcast use crate::text::lemma_vec_char_deep_view;

        let cv = str_chars(text);
        let lines = split_lines(&cv);
        let ghost lsv = lines.deep_view();
        let mut c = BuildCache::new();
        let ghost mut acc: Seq<(Seq<char>, u64)> = Seq::empty();
        proof {
            assert(lsv.skip(0) =~= lsv);
            assert(pairs_map(acc) =~= Map::<Seq<char>, u64>::empty());
        }
        let mut i: usize = 0;
        while i < lines.len()
            invariant
                i <= lsv.len(),
                c.wf(),
                c.as_map() == pairs_map(acc),
                (parse_lines(lsv) is Some) == (parse_lines(lsv.skip(i as int)) is Some),
                parse_lines(lsv) is Some ==> parse_lines(lsv)->Some_0 == acc + parse_lines(
                    lsv.skip(i as int),
                )->Some_0,
            decreases lsv.len() - i,
        {
            let line = &lines[i];
            proof {
                assert(line@ == lsv[i as int]);
                assert(lsv.skip(i as int)[0] == lsv[i as int]);
                assert(lsv.skip(i as int).drop_first() =~= lsv.skip(i + 1));
            }
            let sp = find_space(line);
            if sp >= line.len() {
                proof {
                    assert(parse_line(lsv[i as int]) is None);
                    assert(parse_lines(lsv.skip(i as int)) is None);
                }
                let r = BuildCache::new();
                proof {
                    assert(decode_pairs(text@) =~= Seq::<(Seq<char>, u64)>::empty());
                }
                return r;
            }
            let ds = copy_range(line, 0, sp);
            if !all_digits_exec(&ds) {
                proof {
                    assert(parse_line(lsv[i as int]) is None);
                    assert(parse_lines(lsv.skip(i as int)) is None);
                }
                let r = BuildCache::new();
                proof {
                    assert(decode_pairs(text@) =~= Seq::<(Seq<char>, u64)>::empty());
                }
                return r;
            }
            match parse_u64(&ds) {
                None => {
                    proof {
                        assert(parse_line(lsv[i as int]) is None);
                        assert(parse_lines(lsv.skip(i as int)) is None);
                    }
                    let r = BuildCache::new();
                    proof {
                        assert(decode_pairs(text@) =~= Seq::<(Seq<char>, u64)>::empty());
                    }
                    return r;
                },
                Some(v) => {
                    let idc = copy_range(line, sp + 1, line.len());
                    let id = chars_string(&idc);
                    c.insert(id, v);
                    proof {
                        let p = (idc@, v);
                        assert(parse_line(lsv[i as int]) == Some(p));
                        assert(pairs_map(acc.push(p)) == pairs_map(acc).insert(p.0, p.1)) by {
                            assert(acc.push(p).drop_last() =~= acc);
                        }
                        acc = acc.push(p);
                        if parse_lines(lsv) is Some {
                            assert(parse_lines(lsv.skip(i as int))->Some_0 == seq![p] + parse_lines(
                                lsv.skip(i + 1),
                            )->Some_0);
                            assert(parse_lines(lsv)->Some_0 =~= acc + parse_lines(
                                lsv.skip(i + 1),
                            )->Some_0);
                        }
                    }
                    i = i + 1;
                },
            }
        }
        proof {
            assert(lsv.skip(lsv.len() as int) =~= Seq::<Seq<char>>::empty());
            assert(parse_lines(lsv) is Some);
            assert(parse_lines(lsv)->Some_0 =~= acc);
            assert(lsv == lines_spec(text@));
        }
        c
    }
}

impl Default for BuildCache {
    /// The default cache is empty.
    fn default() -> (r: BuildCache)
        ensures
            r.wf(),
            r.as_map() == Map::<Seq<char>, u64>::empty(),
    {
        BuildCache::new()
    }
}

} // verus!
