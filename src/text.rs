//! Character-level helpers over string views: whitespace trimming, splitting
//! on a pattern and searching, each stated over `Seq<char>` and computed over
//! index ranges of a character vector.

use vstd::prelude::*;

verus! {

/// Unicode white space, as `char::is_whitespace` classifies it.
pub open spec fn is_space(c: char) -> bool {
    ('\u{9}' <= c && c <= '\u{d}') || c == ' ' || c == '\u{85}' || c == '\u{a0}'
        || c == '\u{1680}' || ('\u{2000}' <= c && c <= '\u{200a}') || c == '\u{2028}'
        || c == '\u{2029}' || c == '\u{202f}' || c == '\u{205f}' || c == '\u{3000}'
}

/// `s` without its leading white space.
pub open spec fn trim_start(s: Seq<char>) -> Seq<char>
    decreases s.len(),
{
    if s.len() > 0 && is_space(s[0]) {
        trim_start(s.drop_first())
    } else {
        s
    }
}

/// `s` without its trailing white space.
pub open spec fn trim_end(s: Seq<char>) -> Seq<char>
    decreases s.len(),
{
    if s.len() > 0 && is_space(s.last()) {
        trim_end(s.drop_last())
    } else {
        s
    }
}

/// `s` without leading and trailing white space.
pub open spec fn trim(s: Seq<char>) -> Seq<char> {
    trim_end(trim_start(s))
}

/// Whether `s` ends with `pat`.
pub open spec fn ends_with(s: Seq<char>, pat: Seq<char>) -> bool {
    pat.len() <= s.len() && s.subrange(s.len() - pat.len(), s.len() as int) == pat
}

/// The pieces of `s` between the occurrences of `pat`, found from left to
/// right without overlap, as `str::split` yields them. Read one character at
/// a time: a piece is cut as soon as it ends with `pat`.
pub open spec fn pieces(s: Seq<char>, pat: Seq<char>) -> Seq<Seq<char>>
    decreases s.len(),
{
    if s.len() == 0 {
        seq![Seq::empty()]
    } else {
        let prev = pieces(s.drop_last(), pat);
        let cur = prev.last().push(s.last());
        if ends_with(cur, pat) {
            prev.drop_last().push(cur.subrange(0, cur.len() - pat.len())).push(Seq::empty())
        } else {
            prev.drop_last().push(cur)
        }
    }
}

/// The index of the first occurrence of `pat` in `s`.
pub open spec fn find(s: Seq<char>, pat: Seq<char>) -> Option<int>
    decreases s.len(),
{
    if s.len() == 0 {
        None
    } else {
        match find(s.drop_last(), pat) {
            Some(k) => Some(k),
            None => if ends_with(s, pat) {
                Some(s.len() - pat.len())
            } else {
                None
            },
        }
    }
}

/// The index of the last occurrence of `c` in `s`.
pub open spec fn rfind(s: Seq<char>, c: char) -> Option<int>
    decreases s.len(),
{
    if s.len() == 0 {
        None
    } else if s.last() == c {
        Some(s.len() - 1)
    } else {
        rfind(s.drop_last(), c)
    }
}

/// The subsequences of `v` that the index ranges `rs` mark.
pub open spec fn range_views(v: Seq<char>, rs: Seq<(usize, usize)>) -> Seq<Seq<char>> {
    rs.map_values(|p: (usize, usize)| v.subrange(p.0 as int, p.1 as int))
}

/// Whether every range of `rs` lies in `lo..hi`.
pub open spec fn ranges_within(rs: Seq<(usize, usize)>, lo: int, hi: int) -> bool {
    forall|i: int| 0 <= i < rs.len() ==> lo <= #[trigger] rs[i].0 <= rs[i].1 <= hi
}

pub fn is_space_char(c: char) -> (r: bool)
    ensures
        r == is_space(c),
{
    ('\u{9}' <= c && c <= '\u{d}') || c == ' ' || c == '\u{85}' || c == '\u{a0}'
        || c == '\u{1680}' || ('\u{2000}' <= c && c <= '\u{200a}') || c == '\u{2028}'
        || c == '\u{2029}' || c == '\u{202f}' || c == '\u{205f}' || c == '\u{3000}'
}

/// The characters of `s`, in order.
pub fn chars_of(s: &str) -> (r: Vec<char>)
    ensures
        r@ == s@,
{
    let mut r: Vec<char> = Vec::new();
    for c in it: s.chars()
        invariant
            r@ == it.seq().subrange(0, it.index() as int),
            it.seq() == s@,
    {
        r.push(c);
    }
    r
}

/// The range of `v[lo..hi]` that remains once white space is trimmed from
/// both ends.
pub fn trim_range(v: &Vec<char>, lo: usize, hi: usize) -> (r: (usize, usize))
    requires
        lo <= hi <= v.len(),
    ensures
        lo <= r.0 <= r.1 <= hi,
        v@.subrange(r.0 as int, r.1 as int) == trim(v@.subrange(lo as int, hi as int)),
{
    let mut a: usize = lo;
    while a < hi && is_space_char(v[a])
        invariant
            lo <= a <= hi <= v.len(),
            trim_start(v@.subrange(lo as int, hi as int)) == trim_start(
                v@.subrange(a as int, hi as int),
            ),
        decreases hi - a,
    {
        assert(v@.subrange(a as int, hi as int).drop_first() =~= v@.subrange(
            a + 1,
            hi as int,
        ));
        a = a + 1;
    }
    let mut b: usize = hi;
    while b > a && is_space_char(v[b - 1])
        invariant
            lo <= a <= b <= hi <= v.len(),
            trim_end(v@.subrange(a as int, hi as int)) == trim_end(
                v@.subrange(a as int, b as int),
            ),
        decreases b - a,
    {
        assert(v@.subrange(a as int, b as int).drop_last() =~= v@.subrange(
            a as int,
            b - 1,
        ));
        b = b - 1;
    }
    (a, b)
}

/// Whether `pat` occurs in `v` at index `pos`.
pub fn matches_at(v: &Vec<char>, pos: usize, pat: &Vec<char>) -> (r: bool)
    requires
        pos + pat.len() <= v.len(),
    ensures
        r == (v@.subrange(pos as int, pos + pat.len()) == pat@),
{
    let mut j: usize = 0;
    while j < pat.len()
        invariant
            j <= pat.len(),
            pos + pat.len() <= v.len(),
            v@.subrange(pos as int, pos + j) == pat@.subrange(0, j as int),
        decreases pat.len() - j,
    {
        if v[pos + j] != pat[j] {
            assert(v@.subrange(pos as int, pos + pat.len())[j as int] != pat@[j as int]);
            return false;
        }
        assert(v@.subrange(pos as int, pos + j + 1) =~= v@.subrange(pos as int, pos + j).push(
            v@[pos + j],
        ));
        assert(pat@.subrange(0, j + 1) =~= pat@.subrange(0, j as int).push(pat@[j as int]));
        j = j + 1;
    }
    assert(pat@.subrange(0, pat.len() as int) =~= pat@);
    true
}

/// The ranges of the pieces of `v[lo..hi]` between the occurrences of `pat`.
pub fn split_range(v: &Vec<char>, lo: usize, hi: usize, pat: &Vec<char>) -> (r: Vec<(usize, usize)>)
    requires
        lo <= hi <= v.len(),
        pat.len() > 0,
    ensures
        range_views(v@, r@) == pieces(v@.subrange(lo as int, hi as int), pat@),
        ranges_within(r@, lo as int, hi as int),
{
    let mut r: Vec<(usize, usize)> = Vec::new();
    let mut st: usize = lo;
    let mut i: usize = lo;
    assert(v@.subrange(lo as int, lo as int) =~= Seq::<char>::empty());
    assert(range_views(v@, r@).push(v@.subrange(st as int, i as int)) =~= seq![Seq::<char>::empty()]);
    while i < hi
        invariant
            lo <= st <= i <= hi <= v.len(),
            pat.len() > 0,
            pieces(v@.subrange(lo as int, i as int), pat@) == range_views(v@, r@).push(
                v@.subrange(st as int, i as int),
            ),
            ranges_within(r@, lo as int, st as int),
        decreases hi - i,
    {
        let ghost s = v@.subrange(lo as int, i + 1);
        let ghost cur = v@.subrange(st as int, i + 1);
        assert(s.drop_last() =~= v@.subrange(lo as int, i as int));
        assert(cur =~= v@.subrange(st as int, i as int).push(s.last()));
        let m = pat.len();
        let cut = i + 1 - st >= m && matches_at(v, i + 1 - m, pat);
        proof {
            if i + 1 - st >= m {
                assert(cur.subrange(cur.len() - m, cur.len() as int) =~= v@.subrange(
                    i + 1 - m,
                    i + 1,
                ));
            }
        }
        if cut {
            assert(cur.subrange(0, cur.len() - m) =~= v@.subrange(st as int, i + 1 - m));
            let ghost old_r = r@;
            r.push((st, i + 1 - m));
            assert(range_views(v@, r@) =~= range_views(v@, old_r).push(
                v@.subrange(st as int, i + 1 - m),
            ));
            st = i + 1;
            assert(v@.subrange(st as int, i + 1) =~= Seq::<char>::empty());
        }
        i = i + 1;
    }
    let ghost old_r = r@;
    r.push((st, hi));
    assert(range_views(v@, r@) =~= range_views(v@, old_r).push(v@.subrange(st as int, hi as int)));
    r
}

/// The first occurrence of `pat` in `v[lo..hi]`, as an index of `v`.
pub fn find_range(v: &Vec<char>, lo: usize, hi: usize, pat: &Vec<char>) -> (r: Option<usize>)
    requires
        lo <= hi <= v.len(),
    ensures
        match r {
            Some(k) => lo <= k && k + pat.len() <= hi && find(
                v@.subrange(lo as int, hi as int),
                pat@,
            ) == Some(k - lo),
            None => find(v@.subrange(lo as int, hi as int), pat@) is None,
        },
{
    let mut i: usize = lo;
    assert(v@.subrange(lo as int, lo as int) =~= Seq::<char>::empty());
    while i < hi
        invariant
            lo <= i <= hi <= v.len(),
            find(v@.subrange(lo as int, i as int), pat@) is None,
        decreases hi - i,
    {
        let ghost s = v@.subrange(lo as int, i + 1);
        assert(s.drop_last() =~= v@.subrange(lo as int, i as int));
        let m = pat.len();
        if i + 1 - lo >= m && matches_at(v, i + 1 - m, pat) {
            assert(s.subrange(s.len() - m, s.len() as int) =~= v@.subrange(i + 1 - m, i + 1));
            proof {
                assert(find(s, pat@) == Some(i + 1 - m - lo));
                assert(v@.subrange(lo as int, hi as int).subrange(0, i + 1 - lo) =~= s);
                lemma_find_prefix(v@.subrange(lo as int, hi as int), (i + 1 - lo) as int, pat@);
            }
            return Some(i + 1 - m);
        }
        proof {
            if i + 1 - lo >= m {
                assert(s.subrange(s.len() - m, s.len() as int) =~= v@.subrange(i + 1 - m, i + 1));
            }
        }
        i = i + 1;
    }
    assert(v@.subrange(lo as int, hi as int) =~= v@.subrange(lo as int, i as int));
    None
}

/// A first occurrence found in a prefix is the first occurrence in the whole.
pub proof fn lemma_find_prefix(s: Seq<char>, n: int, pat: Seq<char>)
    requires
        0 <= n <= s.len(),
        find(s.subrange(0, n), pat) is Some,
    ensures
        find(s, pat) == find(s.subrange(0, n), pat),
    decreases s.len() - n,
{
    if n < s.len() {
        assert(s.subrange(0, n + 1).drop_last() =~= s.subrange(0, n));
        lemma_find_prefix(s, n + 1, pat);
    } else {
        assert(s.subrange(0, n) =~= s);
    }
}

/// The last occurrence of `c` in `v[lo..hi]`, as an index of `v`.
pub fn rfind_range(v: &Vec<char>, lo: usize, hi: usize, c: char) -> (r: Option<usize>)
    requires
        lo <= hi <= v.len(),
    ensures
        match r {
            Some(k) => lo <= k < hi && rfind(v@.subrange(lo as int, hi as int), c) == Some(k - lo),
            None => rfind(v@.subrange(lo as int, hi as int), c) is None,
        },
{
    let mut j: usize = hi;
    while j > lo
        invariant
            lo <= j <= hi <= v.len(),
            rfind(v@.subrange(lo as int, hi as int), c) == rfind(v@.subrange(lo as int, j as int), c),
        decreases j - lo,
    {
        assert(v@.subrange(lo as int, j as int).drop_last() =~= v@.subrange(lo as int, j - 1));
        if v[j - 1] == c {
            return Some(j - 1);
        }
        j = j - 1;
    }
    None
}

pub proof fn lemma_pieces_nonempty(s: Seq<char>, pat: Seq<char>)
    ensures
        pieces(s, pat).len() >= 1,
    decreases s.len(),
{
    if s.len() > 0 {
        lemma_pieces_nonempty(s.drop_last(), pat);
    }
}

/// Where `s` holds no first character of `pat`, it is one piece.
pub proof fn lemma_pieces_single(s: Seq<char>, pat: Seq<char>)
    requires
        pat.len() > 0,
        forall|i: int| 0 <= i < s.len() ==> s[i] != pat[0],
    ensures
        pieces(s, pat) == seq![s],
    decreases s.len(),
{
    if s.len() > 0 {
        lemma_pieces_single(s.drop_last(), pat);
        let cur = seq![s.drop_last()].last().push(s.last());
        assert(cur =~= s);
        if ends_with(s, pat) {
            assert(s.subrange(s.len() - pat.len(), s.len() as int)[0] == s[s.len() - pat.len()]);
        }
        assert(pieces(s, pat) =~= seq![s]);
    } else {
        assert(s =~= Seq::<char>::empty());
    }
}

proof fn lemma_pieces_partial(a: Seq<char>, pat: Seq<char>, j: int)
    requires
        pat.len() > 0,
        forall|i: int| 0 <= i < a.len() ==> a[i] != pat[0],
        0 <= j < pat.len(),
    ensures
        pieces(a + pat.subrange(0, j), pat) == seq![a + pat.subrange(0, j)],
    decreases j,
{
    if j == 0 {
        assert(a + pat.subrange(0, 0) =~= a);
        lemma_pieces_single(a, pat);
    } else {
        lemma_pieces_partial(a, pat, j - 1);
        let s = a + pat.subrange(0, j);
        assert(s.drop_last() =~= a + pat.subrange(0, j - 1));
        let prev = pieces(s.drop_last(), pat);
        assert(prev == seq![s.drop_last()]);
        let cur = prev.last().push(s.last());
        assert(cur =~= s);
        assert(!ends_with(s, pat)) by {
            if ends_with(s, pat) {
                let w = s.len() - pat.len();
                assert(s.subrange(w, s.len() as int)[0] == s[w]);
                assert(s[w] == a[w]);
            }
        }
        assert(pieces(s, pat) == prev.drop_last().push(cur));
        assert(pieces(s, pat) =~= seq![s]);
    }
}

/// A piece free of the first character of `pat`, then `pat`, then `b`: the
/// piece comes first, then the pieces of `b`.
pub proof fn lemma_pieces_cons(a: Seq<char>, pat: Seq<char>, b: Seq<char>)
    requires
        pat.len() > 0,
        forall|i: int| 0 <= i < a.len() ==> a[i] != pat[0],
    ensures
        pieces(a + pat + b, pat) == seq![a] + pieces(b, pat),
    decreases b.len(),
{
    if b.len() == 0 {
        let s = a + pat;
        lemma_pieces_partial(a, pat, pat.len() - 1);
        assert(s.drop_last() =~= a + pat.subrange(0, pat.len() - 1));
        assert(s.subrange(s.len() - pat.len(), s.len() as int) =~= pat);
        assert(s.subrange(0, a.len() as int) =~= a);
        assert(a + pat + b =~= s);
        let prev = pieces(s.drop_last(), pat);
        assert(prev == seq![s.drop_last()]);
        let cur = prev.last().push(s.last());
        assert(cur =~= s);
        assert(ends_with(s, pat));
        assert(cur.subrange(0, cur.len() - pat.len()) =~= a);
        assert(pieces(s, pat) == prev.drop_last().push(a).push(Seq::empty()));
        assert(pieces(s, pat) =~= seq![a, Seq::empty()]);
        assert(pieces(b, pat) == seq![Seq::<char>::empty()]);
        assert(seq![a] + pieces(b, pat) =~= seq![a, Seq::empty()]);
    } else {
        let s = a + pat + b;
        lemma_pieces_cons(a, pat, b.drop_last());
        lemma_pieces_nonempty(b.drop_last(), pat);
        assert(s.drop_last() =~= a + pat + b.drop_last());
        let p = pieces(b.drop_last(), pat);
        let prev = seq![a] + p;
        assert(prev.last() == p.last());
        assert(prev.drop_last() =~= seq![a] + p.drop_last());
        let cur = p.last().push(b.last());
        if ends_with(cur, pat) {
            assert(pieces(s, pat) =~= seq![a] + p.drop_last().push(
                cur.subrange(0, cur.len() - pat.len()),
            ).push(Seq::empty()));
        } else {
            assert(pieces(s, pat) =~= seq![a] + p.drop_last().push(cur));
        }
    }
}

/// `s` is its own trim where it begins and ends with other than white space.
pub proof fn lemma_trim_unchanged(s: Seq<char>)
    requires
        s.len() > 0,
        !is_space(s[0]),
        !is_space(s.last()),
    ensures
        trim(s) == s,
{
}

/// One white space character before `s` is trimmed away.
pub proof fn lemma_trim_space_before(c: char, s: Seq<char>)
    requires
        is_space(c),
        s.len() > 0,
        !is_space(s[0]),
        !is_space(s.last()),
    ensures
        trim(seq![c] + s) == s,
{
    assert((seq![c] + s).drop_first() =~= s);
    assert(trim_start(s) == s);
}

/// A first occurrence in `a` is one in `a + b`.
pub proof fn lemma_find_append(a: Seq<char>, b: Seq<char>, pat: Seq<char>)
    requires
        find(a, pat) is Some,
    ensures
        find(a + b, pat) == find(a, pat),
{
    assert((a + b).subrange(0, a.len() as int) =~= a);
    lemma_find_prefix(a + b, a.len() as int, pat);
}

/// Where `b` holds no `c`, the last `c` of `a + b` is that of `a`.
pub proof fn lemma_rfind_append(a: Seq<char>, b: Seq<char>, c: char)
    requires
        forall|i: int| 0 <= i < b.len() ==> b[i] != c,
    ensures
        rfind(a + b, c) == rfind(a, c),
    decreases b.len(),
{
    if b.len() == 0 {
        assert(a + b =~= a);
    } else {
        assert((a + b).drop_last() =~= a + b.drop_last());
        lemma_rfind_append(a, b.drop_last(), c);
    }
}

/// Every `]` of `s` but a last one is followed by another character.
pub open spec fn no_double_close(s: Seq<char>) -> bool {
    forall|k: int| 0 <= k < s.len() - 1 && #[trigger] s[k] == ']' ==> s[k + 1] != ']'
}

pub proof fn lemma_no_double_close_concat(a: Seq<char>, b: Seq<char>)
    requires
        no_double_close(a),
        no_double_close(b),
        a.len() == 0 || a.last() != ']',
    ensures
        no_double_close(a + b),
{
    let s = a + b;
    assert forall|k: int| 0 <= k < s.len() - 1 && #[trigger] s[k] == ']' implies s[k + 1] != ']' by {
        if k < a.len() - 1 {
            assert(s[k] == a[k] && s[k + 1] == a[k + 1]);
        } else if k == a.len() - 1 {
            assert(s[k] == a.last());
        } else {
            assert(s[k] == b[k - a.len()] && s[k + 1] == b[k + 1 - a.len()]);
        }
    }
}

pub proof fn lemma_find_no_double_close(s: Seq<char>)
    requires
        no_double_close(s),
    ensures
        find(s, seq![']', ']']) is None,
    decreases s.len(),
{
    if s.len() > 0 {
        lemma_find_no_double_close(s.drop_last());
        if ends_with(s, seq![']', ']']) {
            let w = s.len() - 2;
            assert(s.subrange(w, s.len() as int)[0] == s[w]);
            assert(s.subrange(w, s.len() as int)[1] == s[w + 1]);
        }
    }
}

} // verus!
