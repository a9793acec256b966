//! Character-level text utilities shared by the expander, the renderer and
//! the cache codec: whitespace trimming, line splitting and joining, and the
//! conversions between `String` and `Vec<char>`.
use vstd::prelude::*;

verus! {

/// The whitespace characters that trimming removes.
pub open spec fn is_space_char(c: char) -> bool {
    c == ' ' || c == '\t' || c == '\r' || c == '\n'
}

/// Index of the first non-space character at or after `i`; `s.len()` if none.
pub open spec fn first_non_space(s: Seq<char>, i: int) -> int
    decreases s.len() - i,
{
    if i < 0 || i >= s.len() {
        s.len() as int
    } else if !is_space_char(s[i]) {
        i
    } else {
        first_non_space(s, i + 1)
    }
}

/// Index of the last non-space character at or before `i`; `-1` if none.
pub open spec fn last_non_space(s: Seq<char>, i: int) -> int
    decreases i + 1,
{
    if i < 0 || i >= s.len() {
        -1
    } else if !is_space_char(s[i]) {
        i
    } else {
        last_non_space(s, i - 1)
    }
}

/// `s` with leading and trailing whitespace removed.
pub open spec fn trim_spec(s: Seq<char>) -> Seq<char> {
    let a = first_non_space(s, 0);
    let b = last_non_space(s, s.len() - 1);
    if a <= b {
        s.subrange(a, b + 1)
    } else {
        Seq::empty()
    }
}

/// Index of the first occurrence of `c` at or after `i`; `s.len()` if none.
pub open spec fn find_char(s: Seq<char>, c: char, i: int) -> int
    decreases s.len() - i,
{
    if i < 0 || i >= s.len() {
        s.len() as int
    } else if s[i] == c {
        i
    } else {
        find_char(s, c, i + 1)
    }
}

/// The lines of `s` starting at index `i`, split at `'\n'`; a final line
/// ending is optional and yields no extra empty line.
pub open spec fn lines_from(s: Seq<char>, i: int) -> Seq<Seq<char>>
    decreases s.len() - i,
{
    if i < 0 || i >= s.len() {
        Seq::empty()
    } else {
        let b0 = find_char(s, '\n', i);
        let b = if b0 < i {
            i
        } else if b0 > s.len() {
            s.len() as int
        } else {
            b0
        };
        if b >= s.len() {
            seq![s.subrange(i, s.len() as int)]
        } else {
            seq![s.subrange(i, b)] + lines_from(s, b + 1)
        }
    }
}

/// The lines of `s`.
pub open spec fn lines_spec(s: Seq<char>) -> Seq<Seq<char>> {
    lines_from(s, 0)
}

/// The lines joined with a single `'\n'` between them (no trailing newline).
pub open spec fn join_lines(ls: Seq<Seq<char>>) -> Seq<char>
    decreases ls.len(),
{
    if ls.len() == 0 {
        Seq::empty()
    } else if ls.len() == 1 {
        ls[0]
    } else {
        join_lines(ls.drop_last()) + seq!['\n'] + ls.last()
    }
}

/// `last_non_space` never moves forward past its starting index.
pub proof fn lemma_last_non_space_le(s: Seq<char>, i: int)
    requires
        -1 <= i,
    ensures
        -1 <= last_non_space(s, i) <= i,
    decreases i + 1,
{
    if !(i < 0 || i >= s.len()) && is_space_char(s[i]) {
        lemma_last_non_space_le(s, i - 1);
    }
}

/// A `Vec<char>` viewed deeply is just its view.
pub broadcast proof fn lemma_vec_char_deep_view(v: Vec<char>)
    ensures
        #[trigger] v.deep_view() == v@,
{
    assert(v.deep_view() =~= v@);
}

/// Relies on `str::chars` of std: it yields the characters of the string in
/// order, which is exactly the string's view.
#[verifier::external_body]
pub fn str_chars(s: &str) -> (r: Vec<char>)
    ensures
        r@ == s@,
{
    s.chars().collect()
}

/// Relies on `String::from_iter` of std (through `Iterator::collect`): the
/// collected string holds the given characters in order.
#[verifier::external_body]
pub fn chars_string(v: &Vec<char>) -> (r: String)
    ensures
        r@ == v@,
{
    v.iter().collect()
}

/// Copy of `s[from..to]`.
#[verifier::loop_isolation(false)]
pub fn copy_range(s: &Vec<char>, from: usize, to: usize) -> (r: Vec<char>)
    requires
        from <= to <= s@.len(),
    ensures
        r@ == s@.subrange(from as int, to as int),
{
    let mut r: Vec<char> = Vec::new();
    let mut k: usize = from;
    while k < to
        invariant
            from <= k <= to,
            r@ == s@.subrange(from as int, k as int),
        decreases to - k,
    {
        r.push(s[k]);
        k = k + 1;
        assert(r@ =~= s@.subrange(from as int, k as int));
    }
    r
}

/// Append all of `s` to `out`.
#[verifier::loop_isolation(false)]
pub fn push_all(out: &mut Vec<char>, s: &Vec<char>)
    ensures
        final(out)@ == old(out)@ + s@,
{
    let mut k: usize = 0;
    while k < s.len()
        invariant
            k <= s@.len(),
            out@ == old(out)@ + s@.subrange(0, k as int),
        decreases s@.len() - k,
    {
        out.push(s[k]);
        k = k + 1;
        assert(out@ =~= old(out)@ + s@.subrange(0, k as int));
    }
    assert(out@ =~= old(out)@ + s@);
}

/// Trimmed copy of `s[from..to]`.
#[verifier::loop_isolation(false)]
pub fn trim_range(s: &Vec<char>, from: usize, to: usize) -> (r: Vec<char>)
    requires
        from <= to <= s@.len(),
    ensures
        r@ == trim_spec(s@.subrange(from as int, to as int)),
{
    let ghost sub = s@.subrange(from as int, to as int);
    let mut a: usize = from;
    while a < to && is_space(s[a])
        invariant
            from <= a <= to,
            first_non_space(sub, 0) == first_non_space(sub, a - from),
        decreases to - a,
    {
        a = a + 1;
    }
    if a == to {
        assert(first_non_space(sub, 0) == sub.len());
        proof {
            lemma_last_non_space_le(sub, sub.len() - 1);
        }
        let r: Vec<char> = Vec::new();
        assert(r@ =~= trim_spec(sub));
        return r;
    }
    assert(first_non_space(sub, 0) == a - from);
    let mut b: usize = to;
    while b > a && is_space(s[b - 1])
        invariant
            a < b <= to,
            last_non_space(sub, sub.len() - 1) == last_non_space(sub, b - from - 1),
        decreases b,
    {
        b = b - 1;
        assert(!(b - from - 1 < 0 || b - from - 1 >= sub.len()));
    }
    assert(!is_space_char(sub[b - from - 1]));
    assert(last_non_space(sub, sub.len() - 1) == b - from - 1);
    let r = copy_range(s, a, b);
    assert(r@ =~= trim_spec(sub));
    r
}

/// Whether `c` is a whitespace character for trimming purposes.
pub fn is_space(c: char) -> (r: bool)
    ensures
        r == is_space_char(c),
{
    c == ' ' || c == '\t' || c == '\r' || c == '\n'
}

/// Split `s` into its lines.
#[verifier::loop_isolation(false)]
pub fn split_lines(s: &Vec<char>) -> (r: Vec<Vec<char>>)
    ensures
        r.deep_view() == lines_spec(s@),
{
    broadcast use lemma_vec_char_deep_view;

    let mut r: Vec<Vec<char>> = Vec::new();
    let mut i: usize = 0;
    while i < s.len()
        invariant
            i <= s@.len(),
            lines_spec(s@) == r.deep_view() + lines_from(s@, i as int),
        decreases s@.len() - i,
    {
        let ghost dv0 = r.deep_view();
        let mut j: usize = i;
        while j < s.len() && s[j] != '\n'
            invariant
                i <= j <= s@.len(),
                find_char(s@, '\n', i as int) == find_char(s@, '\n', j as int),
            decreases s@.len() - j,
        {
            j = j + 1;
        }
        let line = copy_range(s, i, j);
        r.push(line);
        assert(r.deep_view() =~= dv0.push(line@));
        if j == s.len() {
            assert(find_char(s@, '\n', i as int) == s@.len());
            assert(lines_from(s@, i as int) =~= seq![line@]);
            assert(lines_spec(s@) =~= r.deep_view());
            return r;
        }
        assert(find_char(s@, '\n', i as int) == j);
        assert(lines_from(s@, i as int) =~= seq![line@] + lines_from(s@, j + 1));
        assert(r.deep_view() + lines_from(s@, j + 1) =~= dv0 + lines_from(s@, i as int));
        i = j + 1;
    }
    assert(lines_spec(s@) =~= r.deep_view());
    r
}

/// Join `ls` with single newlines, no trailing newline.
#[verifier::loop_isolation(false)]
pub fn join_lines_exec(ls: &Vec<Vec<char>>) -> (r: Vec<char>)
    ensures
        r@ == join_lines(ls.deep_view()),
{
    broadcast use lemma_vec_char_deep_view;

    let mut r: Vec<char> = Vec::new();
    if ls.len() == 0 {
        assert(r@ =~= join_lines(ls.deep_view()));
        return r;
    }
    push_all(&mut r, &ls[0]);
    assert(r@ =~= join_lines(ls.deep_view().subrange(0, 1)));
    let mut i: usize = 1;
    while i < ls.len()
        invariant
            1 <= i <= ls@.len(),
            r@ == join_lines(ls.deep_view().subrange(0, i as int)),
        decreases ls@.len() - i,
    {
        r.push('\n');
        push_all(&mut r, &ls[i]);
        proof {
            let dv = ls.deep_view();
            assert(dv.subrange(0, i + 1).drop_last() =~= dv.subrange(0, i as int));
            assert(dv.subrange(0, i + 1).last() == dv[i as int]);
            assert(r@ =~= join_lines(dv.subrange(0, i + 1)));
        }
        i = i + 1;
    }
    assert(ls.deep_view().subrange(0, ls@.len() as int) =~= ls.deep_view());
    r
}


/// Whether `c` is a decimal digit.
pub open spec fn is_digit_char(c: char) -> bool {
    '0' <= c && c <= '9'
}


/// Every character of `s` is a decimal digit.
pub open spec fn digit_seq(s: Seq<char>) -> bool {
    forall|k: int| 0 <= k < s.len() ==> is_digit_char(#[trigger] s[k])
}


/// A non-empty, all-digit name.
pub open spec fn all_digits(s: Seq<char>) -> bool {
    s.len() > 0 && digit_seq(s)
}


/// The number an all-digit name denotes.
pub open spec fn digits_val(s: Seq<char>) -> int
    decreases s.len(),
{
    if s.len() == 0 {
        0
    } else {
        digits_val(s.drop_last()) * 10 + (s.last() as int - 48)
    }
}


/// `digits_val` of an all-digit text is never negative.
pub proof fn lemma_digits_val_nonneg(s: Seq<char>)
    requires
        digit_seq(s),
    ensures
        digits_val(s) >= 0,
    decreases s.len(),
{
    if s.len() > 0 {
        assert(digit_seq(s.drop_last()));
        lemma_digits_val_nonneg(s.drop_last());
    }
}


/// A prefix of an all-digit text never denotes more than the whole.
pub proof fn lemma_digits_val_prefix_le(s: Seq<char>, i: int)
    requires
        digit_seq(s),
        0 <= i <= s.len(),
    ensures
        digits_val(s.subrange(0, i)) <= digits_val(s),
    decreases s.len() - i,
{
    if i < s.len() {
        assert(digit_seq(s.subrange(0, i + 1)));
        assert(s.subrange(0, i + 1).drop_last() =~= s.subrange(0, i));
        assert(digit_seq(s.subrange(0, i)));
        lemma_digits_val_nonneg(s.subrange(0, i));
        assert(digits_val(s.subrange(0, i + 1)) == digits_val(s.subrange(0, i)) * 10 + (s[i] as int
            - 48));
        lemma_digits_val_prefix_le(s, i + 1);
    } else {
        assert(s.subrange(0, i) =~= s);
    }
}


/// Whether `name` is non-empty and all digits.
#[verifier::loop_isolation(false)]
pub fn all_digits_exec(name: &Vec<char>) -> (r: bool)
    ensures
        r == all_digits(name@),
{
    if name.len() == 0 {
        return false;
    }
    let mut k: usize = 0;
    while k < name.len()
        invariant
            k <= name@.len(),
            forall|t: int| 0 <= t < k ==> is_digit_char(#[trigger] name@[t]),
        decreases name@.len() - k,
    {
        let c = name[k];
        if !('0' <= c && c <= '9') {
            return false;
        }
        k = k + 1;
    }
    true
}

} // verus!
