//! Character-level string operations with exact specifications over `Seq<char>`.
use vstd::prelude::*;

verus! {

/// Appends one character to a string (`String::push`).
#[verifier::external_body]
pub(crate) fn push_char(s: &mut String, c: char)
    ensures
        final(s)@ == old(s)@.push(c),
{
    s.push(c);
}

/// The characters of a string, in order.
pub fn chars_of(s: &str) -> (res: Vec<char>)
    ensures
        res@ == s@,
{
    let n = s.unicode_len();
    let mut res: Vec<char> = Vec::new();
    let mut i: usize = 0;
    while i < n
        invariant
            n == s@.len(),
            i <= n,
            res@ == s@.subrange(0, i as int),
        decreases n - i,
    {
        res.push(s.get_char(i));
        i = i + 1;
    }
    assert(res@ == s@);
    res
}

/// Builds a string from a slice of characters.
pub fn string_of(cs: &[char]) -> (res: String)
    ensures
        res@ == cs@,
{
    let mut res = String::new();
    let mut i: usize = 0;
    while i < cs.len()
        invariant
            i <= cs@.len(),
            res@ == cs@.subrange(0, i as int),
        decreases cs@.len() - i,
    {
        push_char(&mut res, cs[i]);
        i = i + 1;
    }
    assert(res@ == cs@);
    res
}

} // verus!

verus! {

/// Unicode `White_Space`, the set that `char::is_whitespace` and `str::trim` use.
pub open spec fn is_whitespace(c: char) -> bool {
    ||| ('\u{9}' <= c && c <= '\u{d}')
    ||| c == ' '
    ||| c == '\u{85}'
    ||| c == '\u{a0}'
    ||| c == '\u{1680}'
    ||| ('\u{2000}' <= c && c <= '\u{200a}')
    ||| c == '\u{2028}'
    ||| c == '\u{2029}'
    ||| c == '\u{202f}'
    ||| c == '\u{205f}'
    ||| c == '\u{3000}'
}

/// The characters that trimming removes from the ends of a string.
pub enum TrimSet {
    /// Unicode white space, as `str::trim`.
    Whitespace,
    /// Spaces and slashes, as used to normalise request paths.
    SpaceOrSlash,
}

/// Whether `c` belongs to the characters that `set` trims.
pub open spec fn in_trim_set(set: TrimSet, c: char) -> bool {
    match set {
        TrimSet::Whitespace => is_whitespace(c),
        TrimSet::SpaceOrSlash => c == ' ' || c == '/',
    }
}

/// `s` with every leading character of `set` removed.
pub open spec fn trim_start_set(s: Seq<char>, set: TrimSet) -> Seq<char>
    decreases s.len(),
{
    if s.len() > 0 && in_trim_set(set, s[0]) {
        trim_start_set(s.drop_first(), set)
    } else {
        s
    }
}

/// `s` with every trailing character of `set` removed.
pub open spec fn trim_end_set(s: Seq<char>, set: TrimSet) -> Seq<char>
    decreases s.len(),
{
    if s.len() > 0 && in_trim_set(set, s.last()) {
        trim_end_set(s.drop_last(), set)
    } else {
        s
    }
}

/// `s` with the characters of `set` removed from both ends.
pub open spec fn trim_set(s: Seq<char>, set: TrimSet) -> Seq<char> {
    trim_end_set(trim_start_set(s, set), set)
}

/// What `str::trim` returns.
pub open spec fn spec_trim(s: Seq<char>) -> Seq<char> {
    trim_set(s, TrimSet::Whitespace)
}

fn in_set(set: &TrimSet, c: char) -> (res: bool)
    ensures
        res == in_trim_set(*set, c),
{
    match set {
        TrimSet::Whitespace => {
            ('\u{9}' <= c && c <= '\u{d}') || c == ' ' || c == '\u{85}' || c == '\u{a0}' || c
                == '\u{1680}' || ('\u{2000}' <= c && c <= '\u{200a}') || c == '\u{2028}' || c
                == '\u{2029}' || c == '\u{202f}' || c == '\u{205f}' || c == '\u{3000}'
        },
        TrimSet::SpaceOrSlash => c == ' ' || c == '/',
    }
}

proof fn lemma_trim_start_skip(s: Seq<char>, set: TrimSet, i: int)
    requires
        0 <= i <= s.len(),
        forall|j: int| 0 <= j < i ==> in_trim_set(set, #[trigger] s[j]),
    ensures
        trim_start_set(s, set) == trim_start_set(s.skip(i), set),
    decreases i,
{
    if i > 0 {
        assert(s.skip(1) == s.drop_first());
        lemma_trim_start_skip(s.drop_first(), set, i - 1);
        assert(s.drop_first().skip(i - 1) == s.skip(i));
    } else {
        assert(s.skip(0) == s);
    }
}

proof fn lemma_trim_end_take(s: Seq<char>, set: TrimSet, k: int)
    requires
        0 <= k <= s.len(),
        forall|j: int| k <= j < s.len() ==> in_trim_set(set, #[trigger] s[j]),
    ensures
        trim_end_set(s, set) == trim_end_set(s.take(k), set),
    decreases s.len() - k,
{
    if k < s.len() {
        lemma_trim_end_take(s.drop_last(), set, k);
        assert(s.drop_last().take(k) == s.take(k));
    } else {
        assert(s.take(k) == s);
    }
}

/// Removes the characters of `set` from both ends of `cs`.
pub fn trim_chars(cs: &[char], set: TrimSet) -> (res: Vec<char>)
    ensures
        res@ == trim_set(cs@, set),
{
    let n = cs.len();
    let mut start: usize = 0;
    while start < n && in_set(&set, cs[start])
        invariant
            n == cs@.len(),
            start <= n,
            forall|j: int| 0 <= j < start ==> in_trim_set(set, #[trigger] cs@[j]),
        decreases n - start,
    {
        start = start + 1;
    }
    proof {
        lemma_trim_start_skip(cs@, set, start as int);
        assert(trim_start_set(cs@.skip(start as int), set) == cs@.skip(start as int));
    }
    let mut end: usize = n;
    while end > start && in_set(&set, cs[end - 1])
        invariant
            n == cs@.len(),
            start <= end <= n,
            forall|j: int| end <= j < n ==> in_trim_set(set, #[trigger] cs@[j]),
        decreases end,
    {
        end = end - 1;
    }
    let ghost rest = cs@.skip(start as int);
    proof {
        assert forall|j: int| end - start <= j < rest.len() implies in_trim_set(
            set,
            #[trigger] rest[j],
        ) by {
            assert(rest[j] == cs@[j + start]);
        }
        lemma_trim_end_take(rest, set, end - start);
        let t = rest.take(end - start);
        if t.len() > 0 {
            assert(t.last() == cs@[end - 1]);
        }
        assert(trim_end_set(t, set) == t);
    }
    let mut res: Vec<char> = Vec::new();
    let mut i: usize = start;
    while i < end
        invariant
            start <= i <= end <= n,
            n == cs@.len(),
            res@ == cs@.subrange(start as int, i as int),
        decreases end - i,
    {
        res.push(cs[i]);
        i = i + 1;
    }
    assert(res@ == rest.take(end - start));
    res
}

/// `str::trim`: the string without leading and trailing white space.
pub fn trim(s: &str) -> (res: String)
    ensures
        res@ == spec_trim(s@),
{
    let cs = chars_of(s);
    let t = trim_chars(cs.as_slice(), TrimSet::Whitespace);
    string_of(t.as_slice())
}

/// `p` is a prefix of `s`.
pub open spec fn has_prefix(s: Seq<char>, p: Seq<char>) -> bool {
    p.len() <= s.len() && s.take(p.len() as int) == p
}

/// `p` occurs in `s` as a contiguous run of characters.
pub open spec fn has_substring(s: Seq<char>, p: Seq<char>) -> bool {
    exists|i: int| 0 <= i && i + p.len() <= s.len() && #[trigger] s.subrange(i, i + p.len()) == p
}

/// What `str::trim_start_matches` returns for a string pattern: every
/// repetition of `p` at the front of `s` removed (nothing for an empty `p`).
pub open spec fn trim_start_matches(s: Seq<char>, p: Seq<char>) -> Seq<char>
    decreases s.len(),
{
    if p.len() > 0 && has_prefix(s, p) {
        trim_start_matches(s.skip(p.len() as int), p)
    } else {
        s
    }
}

/// Whether `p` occurs in `s` at position `i`.
pub fn occurs_at(s: &[char], p: &[char], i: usize) -> (res: bool)
    requires
        i <= s@.len(),
    ensures
        res == (i + p@.len() <= s@.len() && s@.subrange(i as int, i + p@.len()) == p@),
{
    let n = s.len();
    if p.len() > n - i {
        return false;
    }
    let mut k: usize = 0;
    while k < p.len()
        invariant
            n == s@.len(),
            i + p@.len() <= s@.len(),
            k <= p@.len(),
            forall|j: int| 0 <= j < k ==> s@[i + j] == p@[j],
        decreases p@.len() - k,
    {
        if s[i + k] != p[k] {
            assert(s@.subrange(i as int, i + p@.len())[k as int] != p@[k as int]);
            return false;
        }
        k = k + 1;
    }
    assert(s@.subrange(i as int, i + p@.len()) == p@);
    true
}

/// `str::starts_with` on characters.
pub fn starts_with(s: &[char], p: &[char]) -> (res: bool)
    ensures
        res == has_prefix(s@, p@),
{
    let r = occurs_at(s, p, 0);
    assert(s@.subrange(0, p@.len() as int) == s@.take(p@.len() as int));
    r
}

/// `str::contains` on characters.
pub fn contains(s: &[char], p: &[char]) -> (res: bool)
    ensures
        res == has_substring(s@, p@),
{
    if p.len() > s.len() {
        return false;
    }
    let last = s.len() - p.len();
    let mut i: usize = 0;
    loop
        invariant
            last == s@.len() - p@.len(),
            i <= last,
            forall|j: int|
                0 <= j < i ==> #[trigger] s@.subrange(j, j + p@.len()) != p@,
        decreases last - i,
    {
        if occurs_at(s, p, i) {
            return true;
        }
        if i == last {
            return false;
        }
        i = i + 1;
    }
}

proof fn lemma_trim_start_matches_skip(s: Seq<char>, p: Seq<char>)
    requires
        p.len() > 0,
        has_prefix(s, p),
    ensures
        trim_start_matches(s, p) == trim_start_matches(s.skip(p.len() as int), p),
{
}

/// `str::trim_start_matches` with a string pattern (an empty pattern
/// removes nothing).
pub fn trim_start_matching(s: &[char], p: &[char]) -> (res: Vec<char>)
    ensures
        res@ == trim_start_matches(s@, p@),
{
    if p.len() == 0 {
        let mut res: Vec<char> = Vec::new();
        let mut i: usize = 0;
        while i < s.len()
            invariant
                i <= s@.len(),
                res@ == s@.take(i as int),
            decreases s@.len() - i,
        {
            res.push(s[i]);
            i = i + 1;
            assert(res@ == s@.take(i as int));
        }
        assert(s@.take(s@.len() as int) == s@);
        return res;
    }
    let n = s.len();
    let mut start: usize = 0;
    assert(s@.skip(0) == s@);
    while occurs_at(s, p, start)
        invariant
            n == s@.len(),
            p@.len() > 0,
            start <= s@.len(),
            trim_start_matches(s@, p@) == trim_start_matches(s@.skip(start as int), p@),
        decreases s@.len() - start,
    {
        proof {
            let r = s@.skip(start as int);
            assert(r.take(p@.len() as int) == s@.subrange(start as int, start + p@.len()));
            lemma_trim_start_matches_skip(r, p@);
            assert(r.skip(p@.len() as int) == s@.skip(start + p@.len()));
        }
        start = start + p.len();
    }
    proof {
        let r = s@.skip(start as int);
        if p@.len() <= r.len() {
            assert(r.take(p@.len() as int) == s@.subrange(start as int, start + p@.len()));
        }
    }
    let mut res: Vec<char> = Vec::new();
    let mut i: usize = start;
    while i < s.len()
        invariant
            start <= i <= s@.len(),
            res@ == s@.subrange(start as int, i as int),
        decreases s@.len() - i,
    {
        res.push(s[i]);
        i = i + 1;
    }
    assert(res@ == s@.skip(start as int));
    res
}

} // verus!

verus! {

/// What `str::split` with a single character returns: the pieces between
/// occurrences of `c`, in order (always at least one piece).
pub open spec fn split_on(s: Seq<char>, c: char) -> Seq<Seq<char>>
    decreases s.len(),
{
    if s.len() == 0 {
        seq![Seq::<char>::empty()]
    } else {
        let pieces = split_on(s.drop_last(), c);
        if s.last() == c {
            pieces.push(Seq::<char>::empty())
        } else {
            pieces.update(pieces.len() - 1, pieces.last().push(s.last()))
        }
    }
}

/// Splitting always yields at least one piece (`str::split` on the empty
/// string yields the empty string).
pub proof fn lemma_split_on_nonempty(s: Seq<char>, c: char)
    ensures
        split_on(s, c).len() >= 1,
    decreases s.len(),
{
    if s.len() > 0 {
        lemma_split_on_nonempty(s.drop_last(), c);
    }
}

/// Pieces joined back together with `c` between neighbours.
pub open spec fn joined(pieces: Seq<Seq<char>>, c: char) -> Seq<char>
    decreases pieces.len(),
{
    if pieces.len() <= 1 {
        if pieces.len() == 1 {
            pieces[0]
        } else {
            Seq::empty()
        }
    } else {
        joined(pieces.drop_last(), c).push(c) + pieces.last()
    }
}

proof fn lemma_joined_extend_last(ps: Seq<Seq<char>>, c: char, x: char)
    requires
        ps.len() >= 1,
    ensures
        joined(ps.update(ps.len() - 1, ps.last().push(x)), c) == joined(ps, c).push(x),
{
    let u = ps.update(ps.len() - 1, ps.last().push(x));
    if ps.len() > 1 {
        assert(u.drop_last() == ps.drop_last());
    }
}

/// Splitting on `c` cuts `s` at each `c` and nowhere else: no piece holds
/// `c`, and joining the pieces back with `c` gives `s`.
pub proof fn lemma_split_on_joined(s: Seq<char>, c: char)
    ensures
        joined(split_on(s, c), c) == s,
        forall|i: int| 0 <= i < split_on(s, c).len() ==> !(#[trigger] split_on(s, c)[i]).contains(c),
    decreases s.len(),
{
    if s.len() > 0 {
        let d = s.drop_last();
        let ps = split_on(d, c);
        lemma_split_on_joined(d, c);
        lemma_split_on_nonempty(d, c);
        if s.last() == c {
            let q = ps.push(Seq::<char>::empty());
            assert(q.drop_last() == ps);
            assert(joined(q, c) == joined(ps, c).push(c) + Seq::<char>::empty());
            assert(joined(ps, c).push(c) + Seq::<char>::empty() == d.push(c));
            assert(d.push(c) == s);
            assert forall|i: int| 0 <= i < q.len() implies !(#[trigger] q[i]).contains(c) by {
                if i < ps.len() {
                    assert(q[i] == ps[i]);
                }
            }
        } else {
            let x = s.last();
            lemma_joined_extend_last(ps, c, x);
            let u = ps.update(ps.len() - 1, ps.last().push(x));
            assert(d.push(x) == s);
            assert forall|i: int| 0 <= i < u.len() implies !(#[trigger] u[i]).contains(c) by {
                if i < ps.len() - 1 {
                    assert(u[i] == ps[i]);
                } else {
                    let l = ps.last();
                    assert(!ps[ps.len() - 1].contains(c));
                    if l.push(x).contains(c) {
                        let k = choose|k: int| 0 <= k < l.push(x).len() && l.push(x)[k] == c;
                        if k < l.len() {
                            assert(l[k] == c);
                        }
                    }
                }
            }
        }
    }
}

proof fn lemma_trim_start_set(s: Seq<char>, set: TrimSet)
    ensures
        ({
            let r = trim_start_set(s, set);
            let i = s.len() - r.len();
            &&& 0 <= i <= s.len()
            &&& r == s.skip(i)
            &&& forall|k: int| 0 <= k < i ==> in_trim_set(set, #[trigger] s[k])
            &&& r.len() > 0 ==> !in_trim_set(set, r[0])
        }),
    decreases s.len(),
{
    if s.len() > 0 && in_trim_set(set, s[0]) {
        let t = s.drop_first();
        lemma_trim_start_set(t, set);
        let r = trim_start_set(t, set);
        let i = t.len() - r.len();
        assert(s.skip(i + 1) == t.skip(i));
        assert forall|k: int| 0 <= k < i + 1 implies in_trim_set(set, #[trigger] s[k]) by {
            if k > 0 {
                assert(s[k] == t[k - 1]);
            }
        }
    } else {
        assert(s.skip(0) == s);
    }
}

proof fn lemma_trim_end_set(s: Seq<char>, set: TrimSet)
    ensures
        ({
            let r = trim_end_set(s, set);
            &&& r.len() <= s.len()
            &&& r == s.take(r.len() as int)
            &&& forall|k: int| r.len() <= k < s.len() ==> in_trim_set(set, #[trigger] s[k])
            &&& r.len() > 0 ==> !in_trim_set(set, r.last())
        }),
    decreases s.len(),
{
    if s.len() > 0 && in_trim_set(set, s.last()) {
        let t = s.drop_last();
        lemma_trim_end_set(t, set);
        let r = trim_end_set(t, set);
        assert(s.take(r.len() as int) == t.take(r.len() as int));
        assert forall|k: int| r.len() <= k < s.len() implies in_trim_set(set, #[trigger] s[k]) by {
            if k < t.len() {
                assert(s[k] == t[k]);
            }
        }
    } else {
        assert(s.take(s.len() as int) == s);
    }
}

/// Trimming keeps a contiguous part of `s` and removes only characters of
/// the set, from both ends, up to the first and last characters that are not
/// in it: the result is `s[i..i + len]`, everything before and after it is in
/// the set, and its own first and last characters are not.
pub proof fn lemma_trim_set_bounds(s: Seq<char>, set: TrimSet)
    ensures
        ({
            let r = trim_set(s, set);
            let i = s.len() - trim_start_set(s, set).len();
            &&& 0 <= i && i + r.len() <= s.len()
            &&& r == s.subrange(i, i + r.len())
            &&& forall|k: int| 0 <= k < i ==> in_trim_set(set, #[trigger] s[k])
            &&& forall|k: int| i + r.len() <= k < s.len() ==> in_trim_set(set, #[trigger] s[k])
            &&& r.len() > 0 ==> !in_trim_set(set, r[0]) && !in_trim_set(set, r.last())
        }),
{
    let t = trim_start_set(s, set);
    lemma_trim_start_set(s, set);
    lemma_trim_end_set(t, set);
    let r = trim_set(s, set);
    let i = s.len() - t.len();
    assert(r == s.subrange(i, i + r.len()));
    assert forall|k: int| i + r.len() <= k < s.len() implies in_trim_set(set, #[trigger] s[k]) by {
        assert(s[k] == t[k - i]);
    }
    if r.len() > 0 {
        assert(r[0] == t[0]);
    }
}

/// `str::split(c)`, collected.
pub fn split_chars(s: &[char], c: char) -> (res: Vec<Vec<char>>)
    ensures
        res@.len() == split_on(s@, c).len(),
        forall|i: int| 0 <= i < res@.len() ==> #[trigger] res@[i]@ == split_on(s@, c)[i],
{
    let mut done: Vec<Vec<char>> = Vec::new();
    let mut cur: Vec<char> = Vec::new();
    let mut i: usize = 0;
    assert(s@.take(0) == Seq::<char>::empty());
    while i < s.len()
        invariant
            i <= s@.len(),
            done@.len() + 1 == split_on(s@.take(i as int), c).len(),
            forall|j: int|
                0 <= j < done@.len() ==> #[trigger] done@[j]@ == split_on(s@.take(i as int), c)[j],
            cur@ == split_on(s@.take(i as int), c).last(),
        decreases s@.len() - i,
    {
        proof {
            assert(s@.take(i + 1).drop_last() == s@.take(i as int));
            lemma_split_on_nonempty(s@.take(i as int), c);
        }
        if s[i] == c {
            done.push(cur);
            cur = Vec::new();
        } else {
            cur.push(s[i]);
        }
        i = i + 1;
    }
    assert(s@.take(s@.len() as int) == s@);
    done.push(cur);
    done
}

/// `line` with one trailing carriage return removed, if it has one.
pub open spec fn strip_cr(line: Seq<char>) -> Seq<char> {
    if line.len() > 0 && line.last() == '\r' {
        line.drop_last()
    } else {
        line
    }
}

/// What `str::lines` returns: the pieces between line feeds, each without a
/// carriage return just before its line feed, and without the empty piece
/// after a final line feed.
pub open spec fn spec_lines(s: Seq<char>) -> Seq<Seq<char>> {
    let pieces = split_on(s, '\n');
    let ended = pieces.drop_last().map_values(|l: Seq<char>| strip_cr(l));
    if pieces.last().len() == 0 {
        ended
    } else {
        ended.push(pieces.last())
    }
}

proof fn lemma_split_on_chars(s: Seq<char>, c: char, x: char)
    ensures
        forall|i: int|
            0 <= i < split_on(s, c).len() && (#[trigger] split_on(s, c)[i]).contains(x) ==> s.contains(x),
    decreases s.len(),
{
    if s.len() > 0 {
        let d = s.drop_last();
        let ps = split_on(d, c);
        lemma_split_on_chars(d, c, x);
        lemma_split_on_nonempty(d, c);
        let q = split_on(s, c);
        assert forall|i: int| 0 <= i < q.len() && (#[trigger] q[i]).contains(x) implies s.contains(x) by {
            let k = choose|k: int| 0 <= k < q[i].len() && q[i][k] == x;
            if s.last() == c {
                if i < ps.len() {
                    assert(q[i] == ps[i]);
                    let w = choose|w: int| 0 <= w < d.len() && d[w] == x;
                    assert(s[w] == x);
                }
            } else {
                let l = ps.last();
                if i < ps.len() - 1 {
                    assert(q[i] == ps[i]);
                    let w = choose|w: int| 0 <= w < d.len() && d[w] == x;
                    assert(s[w] == x);
                } else {
                    assert(q[i] == l.push(s.last()));
                    if k < l.len() {
                        assert(l[k] == x);
                        assert(ps[ps.len() - 1].contains(x));
                        let w = choose|w: int| 0 <= w < d.len() && d[w] == x;
                        assert(s[w] == x);
                    } else {
                        assert(s[s.len() - 1] == x);
                    }
                }
            }
        }
    }
}

/// For a non-empty text without carriage returns that does not end in a
/// line feed, the lines are exactly the pieces between its line feeds: no line holds a
/// line feed, and joining the lines with line feeds gives the text back.
pub proof fn lemma_lines_joined(s: Seq<char>)
    requires
        !s.contains('\r'),
        s.len() > 0,
        s.last() != '\n',
    ensures
        spec_lines(s) == split_on(s, '\n'),
        joined(spec_lines(s), '\n') == s,
        forall|i: int| 0 <= i < spec_lines(s).len() ==> !(#[trigger] spec_lines(s)[i]).contains('\n'),
{
    let ps = split_on(s, '\n');
    lemma_split_on_nonempty(s, '\n');
    lemma_split_on_joined(s, '\n');
    lemma_split_on_chars(s, '\n', '\r');
    let ended = ps.drop_last().map_values(|l: Seq<char>| strip_cr(l));
    assert(ended == ps.drop_last()) by {
        assert forall|i: int| 0 <= i < ended.len() implies ended[i] == ps.drop_last()[i] by {
            let l = ps[i];
            assert(ps.drop_last()[i] == l);
            if l.len() > 0 && l.last() == '\r' {
                assert(l.contains('\r'));
            }
        }
    }
    if s.len() > 0 {
        if ps.last().len() == 0 {
            // The last piece is empty only after a final line feed.
            if ps.len() == 1 {
                assert(joined(ps, '\n') == ps[0]);
            } else {
                assert(joined(ps, '\n') == joined(ps.drop_last(), '\n').push('\n') + ps.last());
                assert(joined(ps.drop_last(), '\n').push('\n') + ps.last() == joined(
                    ps.drop_last(),
                    '\n',
                ).push('\n'));
            }
            assert(false);
        }
        assert(ps.drop_last().push(ps.last()) == ps);
    }
}

/// `str::lines`, collected.
pub fn lines(s: &str) -> (res: Vec<String>)
    ensures
        res@.len() == spec_lines(s@).len(),
        forall|i: int| 0 <= i < res@.len() ==> #[trigger] res@[i]@ == spec_lines(s@)[i],
{
    let cs = chars_of(s);
    let pieces = split_chars(cs.as_slice(), '\n');
    proof {
        lemma_split_on_nonempty(s@, '\n');
    }
    let ghost spec_pieces = split_on(s@, '\n');
    let ghost ended = spec_pieces.drop_last().map_values(|l: Seq<char>| strip_cr(l));
    let n = pieces.len();
    let mut res: Vec<String> = Vec::new();
    let mut i: usize = 0;
    while i + 1 < n
        invariant
            n == pieces@.len(),
            n == spec_pieces.len(),
            n >= 1,
            ended == spec_pieces.drop_last().map_values(|l: Seq<char>| strip_cr(l)),
            i + 1 <= n,
            forall|j: int| 0 <= j < n ==> #[trigger] pieces@[j]@ == spec_pieces[j],
            res@.len() == i,
            forall|j: int| 0 <= j < i ==> #[trigger] res@[j]@ == ended[j],
        decreases n - i,
    {
        let piece = &pieces[i];
        let k = piece.len();
        let line = if k > 0 && piece[k - 1] == '\r' {
            string_of(&piece.as_slice()[0..k - 1])
        } else {
            string_of(piece.as_slice())
        };
        proof {
            assert(pieces@[i as int]@ == spec_pieces[i as int]);
            if k > 0 && piece@[k - 1] == '\r' {
                assert(piece@.subrange(0, k - 1) == piece@.drop_last());
            }
            assert(ended[i as int] == strip_cr(spec_pieces[i as int]));
            assert(line@ == ended[i as int]);
        }
        res.push(line);
        i = i + 1;
    }
    let last = &pieces[n - 1];
    if last.len() > 0 {
        res.push(string_of(last.as_slice()));
    }
    proof {
        assert(pieces@[n - 1]@ == spec_pieces.last());
    }
    res
}

/// The ASCII upper-case form of `c` (`char::to_ascii_uppercase`).
pub open spec fn ascii_upper(c: char) -> char {
    if 'a' <= c && c <= 'z' {
        ((c as u32) - 32) as char
    } else {
        c
    }
}

/// The ASCII lower-case form of `c` (`char::to_ascii_lowercase`).
pub open spec fn ascii_lower(c: char) -> char {
    if 'A' <= c && c <= 'Z' {
        ((c as u32) + 32) as char
    } else {
        c
    }
}

/// ASCII case mapping swaps only the 26 letters: a lower-case letter and its
/// upper-case form map to each other, the other form of each is a letter of
/// the other case, and every other character is left as it is.
pub proof fn lemma_ascii_case(c: char)
    ensures
        !('a' <= c <= 'z') ==> ascii_upper(c) == c,
        !('A' <= c <= 'Z') ==> ascii_lower(c) == c,
        'a' <= c <= 'z' ==> 'A' <= ascii_upper(c) <= 'Z' && ascii_lower(ascii_upper(c)) == c
            && (ascii_upper(c) as u32) + 32 == c as u32,
        'A' <= c <= 'Z' ==> 'a' <= ascii_lower(c) <= 'z' && ascii_upper(ascii_lower(c)) == c
            && (c as u32) + 32 == ascii_lower(c) as u32,
{
}

fn upper_char(c: char) -> (res: char)
    ensures
        res == ascii_upper(c),
{
    if 'a' <= c && c <= 'z' {
        let u: u32 = (c as u32) - 32;
        let r = char_from_ascii(u);
        r
    } else {
        c
    }
}

fn lower_char(c: char) -> (res: char)
    ensures
        res == ascii_lower(c),
{
    if 'A' <= c && c <= 'Z' {
        let u: u32 = (c as u32) + 32;
        char_from_ascii(u)
    } else {
        c
    }
}

/// The character with ASCII code `u`.
fn char_from_ascii(u: u32) -> (res: char)
    requires
        u < 128,
    ensures
        res == u as char,
{
    let b: u8 = u as u8;
    b as char
}

/// `str::to_ascii_uppercase`, on characters.
pub fn to_ascii_uppercase(cs: &[char]) -> (res: Vec<char>)
    ensures
        res@ == cs@.map_values(|c: char| ascii_upper(c)),
{
    let mut res: Vec<char> = Vec::new();
    let mut i: usize = 0;
    while i < cs.len()
        invariant
            i <= cs@.len(),
            res@ == cs@.take(i as int).map_values(|c: char| ascii_upper(c)),
        decreases cs@.len() - i,
    {
        res.push(upper_char(cs[i]));
        i = i + 1;
        assert(cs@.take(i as int).drop_last() == cs@.take(i - 1));
    }
    assert(cs@.take(cs@.len() as int) == cs@);
    res
}

/// `str::to_ascii_lowercase`, on characters.
pub fn to_ascii_lowercase(cs: &[char]) -> (res: Vec<char>)
    ensures
        res@ == cs@.map_values(|c: char| ascii_lower(c)),
{
    let mut res: Vec<char> = Vec::new();
    let mut i: usize = 0;
    while i < cs.len()
        invariant
            i <= cs@.len(),
            res@ == cs@.take(i as int).map_values(|c: char| ascii_lower(c)),
        decreases cs@.len() - i,
    {
        res.push(lower_char(cs[i]));
        i = i + 1;
        assert(cs@.take(i as int).drop_last() == cs@.take(i - 1));
    }
    assert(cs@.take(cs@.len() as int) == cs@);
    res
}

} // verus!

verus! {

/// The ASCII digit for `d`, where `d < 10`.
pub open spec fn digit_char(d: nat) -> char {
    ((48 + d) as u32) as char
}

/// The decimal representation of `n`, without sign or leading zeros.
pub open spec fn decimal(n: nat) -> Seq<char>
    decreases n,
{
    if n < 10 {
        seq![digit_char(n)]
    } else {
        decimal(n / 10).push(digit_char(n % 10))
    }
}

/// Appends the decimal representation of `n` to `out` (as `format!("{n}")` does).
pub fn push_decimal(out: &mut String, n: u64)
    ensures
        final(out)@ == old(out)@ + decimal(n as nat),
    decreases n,
{
    if n >= 10 {
        push_decimal(out, n / 10);
    }
    let d: u32 = (n % 10) as u32;
    push_char(out, char_from_ascii(48 + d));
    proof {
        if n >= 10 {
            assert(decimal(n as nat) == decimal((n / 10) as nat).push(digit_char((n % 10) as nat)));
        }
    }
}

/// The decimal representation of `n`.
pub fn decimal_string(n: u64) -> (res: String)
    ensures
        res@ == decimal(n as nat),
{
    let mut s = String::new();
    push_decimal(&mut s, n);
    assert(Seq::<char>::empty() + decimal(n as nat) == decimal(n as nat));
    s
}

/// An ASCII decimal digit.
pub open spec fn is_digit(c: char) -> bool {
    '0' <= c && c <= '9'
}

/// The value of a run of decimal digits (0 for the empty run).
pub open spec fn digits_value(ds: Seq<char>) -> nat
    decreases ds.len(),
{
    if ds.len() == 0 {
        0
    } else {
        digits_value(ds.drop_last()) * 10 + ((ds.last() as u32) - 48) as nat
    }
}

/// `s` without one leading `+`, if it has one.
pub open spec fn unsigned_digits(s: Seq<char>) -> Seq<char> {
    if s.len() > 0 && s[0] == '+' {
        s.drop_first()
    } else {
        s
    }
}

/// What `usize::from_str` returns: an optional `+` followed by at least one
/// ASCII digit and nothing else, whose value fits in a `usize`.
pub open spec fn spec_parse_usize(s: Seq<char>) -> Option<usize> {
    let ds = unsigned_digits(s);
    if ds.len() > 0 && (forall|i: int| 0 <= i < ds.len() ==> is_digit(#[trigger] ds[i]))
        && digits_value(ds) <= usize::MAX {
        Some(digits_value(ds) as usize)
    } else {
        None
    }
}

proof fn lemma_digits_value_monotone(ds: Seq<char>, i: int)
    requires
        0 <= i <= ds.len(),
        forall|k: int| 0 <= k < ds.len() ==> is_digit(#[trigger] ds[k]),
    ensures
        digits_value(ds.take(i)) <= digits_value(ds),
    decreases ds.len() - i,
{
    if i < ds.len() {
        assert(ds.drop_last().take(i) == ds.take(i));
        assert forall|k: int| 0 <= k < ds.drop_last().len() implies is_digit(
            #[trigger] ds.drop_last()[k],
        ) by {
            assert(ds.drop_last()[k] == ds[k]);
        }
        lemma_digits_value_monotone(ds.drop_last(), i);
    } else {
        assert(ds.take(i) == ds);
    }
}

/// `usize::from_str`: `None` where the standard parser returns an error.
pub fn parse_usize(s: &str) -> (res: Option<usize>)
    ensures
        res == spec_parse_usize(s@),
{
    let cs = chars_of(s);
    let n = cs.len();
    let start: usize = if n > 0 && cs[0] == '+' { 1 } else { 0 };
    let ghost ds = unsigned_digits(s@);
    assert(ds == cs@.skip(start as int));
    if start == n {
        return None;
    }
    let mut value: usize = 0;
    let mut i: usize = start;
    while i < n
        invariant
            n == cs@.len(),
            start <= i <= n,
            ds == cs@.skip(start as int),
            cs@ == s@,
            ds == unsigned_digits(s@),
            forall|k: int| 0 <= k < i - start ==> is_digit(#[trigger] ds[k]),
            value as nat == digits_value(ds.take(i - start)),
        decreases n - i,
    {
        let c = cs[i];
        if !('0' <= c && c <= '9') {
            assert(!is_digit(ds[i - start]));
            assert(!(forall|k: int| 0 <= k < ds.len() ==> is_digit(#[trigger] ds[k])));
            return None;
        }
        let d: usize = ((c as u32) - 48) as usize;
        proof {
            assert(ds.take(i + 1 - start).drop_last() == ds.take(i - start));
            assert(ds[i - start] == c);
        }
        let m = value.checked_mul(10);
        if m.is_none() {
            proof {
                let t = ds.take(i + 1 - start);
                assert(t.last() == c);
                assert(digits_value(t) == digits_value(t.drop_last()) * 10 + d);
                assert(digits_value(t) > usize::MAX);
                if forall|k: int| 0 <= k < ds.len() ==> is_digit(#[trigger] ds[k]) {
                    lemma_digits_value_monotone(ds, i + 1 - start);
                }
            }
            return None;
        }
        let sum = m.unwrap().checked_add(d);
        if sum.is_none() {
            proof {
                let t = ds.take(i + 1 - start);
                assert(t.last() == c);
                assert(digits_value(t) == digits_value(t.drop_last()) * 10 + d);
                assert(digits_value(t) > usize::MAX);
                if forall|k: int| 0 <= k < ds.len() ==> is_digit(#[trigger] ds[k]) {
                    lemma_digits_value_monotone(ds, i + 1 - start);
                }
            }
            return None;
        }
        value = sum.unwrap();
        i = i + 1;
    }
    assert(ds.take(n - start) == ds);
    Some(value)
}

/// Parsing the decimal representation of a `usize` gives the number back.
pub proof fn lemma_parse_decimal(n: usize)
    ensures
        spec_parse_usize(decimal(n as nat)) == Some(n),
{
    lemma_decimal_digits(n as nat);
}

proof fn lemma_decimal_digits(n: nat)
    ensures
        decimal(n).len() > 0,
        decimal(n)[0] != '+',
        forall|i: int| 0 <= i < decimal(n).len() ==> is_digit(#[trigger] decimal(n)[i]),
        digits_value(decimal(n)) == n,
    decreases n,
{
    if n >= 10 {
        lemma_decimal_digits(n / 10);
        let d = decimal(n);
        assert(d.drop_last() == decimal(n / 10));
        assert forall|i: int| 0 <= i < d.len() implies is_digit(#[trigger] d[i]) by {
            if i < d.len() - 1 {
                assert(d[i] == decimal(n / 10)[i]);
            }
        }
    } else {
        assert(digits_value(decimal(n).drop_last()) == 0);
    }
}

} // verus!

verus! {

/// Whether two strings hold the same characters.
pub fn str_eq(a: &str, b: &str) -> (res: bool)
    ensures
        res == (a@ == b@),
{
    let x = String::from_str(a);
    let y = String::from_str(b);
    x == y
}

} // verus!
