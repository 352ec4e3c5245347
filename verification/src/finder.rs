//! The file finder: how well a query fits a name, and the ranked list.
use vstd::prelude::*;
use crate::badge::{Icon, ext_badge, file_badge};
use crate::keys::{Keystroke, list_step, step_down, step_up};
use crate::order::{Ranked, sort, sorted, sorting_orders};
use crate::path::{FilePath, PathView, lemma_path_views_push, name_or_empty, parent_of, path_text, path_views, rel_text, stripped};
use crate::search::{clip, lemma_next_at, next_at};
use crate::text::{byte_len, cat, chars_of, dec, digits_count_in_tens, ends_with, find_from, finishes, is_number, is_space, join, join_undoes_split, joined, lemma_pieces_nonempty, lemma_utf8_at_least, lemma_utf8_split, lower, number, number_to, occurs, occurs_at, parse_usize, pieces, reading_undoes_writing, split, split_undoes_join, string_of, texts, trim, trim_end_char, trimmed, trimmed_end, trimmed_start, utf8_len, without_trailing};
use crate::theme::{DIR, FOLDER_ICON, MUTED, SEL_TEXT, TEXT};

verus! {

/// At most so many files are listed.
pub const FINDER_CAP: usize = 50;

// ── fuzzy matching ──────────────────────────────────────────────────────────

/// The first position at or after `from` that holds `c`.
pub open spec fn char_from(s: Seq<char>, c: char, from: int) -> Option<int>
    decreases s.len() - from,
{
    if from < 0 || from >= s.len() {
        None
    } else if s[from] == c {
        Some(from)
    } else {
        char_from(s, c, from + 1)
    }
}

/// Where character `k` of `q` falls in `s` when each takes the earliest place behind the
/// one before it.
pub open spec fn place(q: Seq<char>, s: Seq<char>, k: int) -> Option<int>
    decreases k,
{
    if k <= 0 {
        char_from(s, q[0], 0)
    } else {
        match place(q, s, k - 1) {
            Some(p) => char_from(s, q[k], p + 1),
            None => None,
        }
    }
}

/// The score of `q` in `s`: one point less for every character skipped between the first
/// and the last match, and for every four characters before the last match.
pub open spec fn fuzzy_chars(q: Seq<char>, s: Seq<char>) -> Option<int> {
    if q.len() == 0 {
        Some(0)
    } else {
        match place(q, s, q.len() - 1) {
            Some(last) => Some((q.len() - 1) - (last - place(q, s, 0)->0) - last / 4),
            None => None,
        }
    }
}

/// The score of a query in a candidate, upper and lower case alike.
pub open spec fn fuzzy_value(query: Seq<char>, candidate: Seq<char>) -> Option<int> {
    if query.len() == 0 {
        Some(0)
    } else {
        fuzzy_chars(lower(query), lower(candidate))
    }
}

proof fn lemma_char_from(s: Seq<char>, c: char, from: int)
    requires
        0 <= from,
    ensures
        match char_from(s, c, from) {
            Some(p) => from <= p < s.len() && s[p] == c && forall|j: int| from <= j < p ==> s[j] != c,
            None => forall|j: int| from <= j < s.len() ==> s[j] != c,
        },
    decreases s.len() - from,
{
    if from < s.len() && s[from] != c {
        lemma_char_from(s, c, from + 1);
    }
}

proof fn lemma_char_from_skip(s: Seq<char>, c: char, from: int, to: int)
    requires
        0 <= from <= to <= s.len(),
        forall|j: int| from <= j < to ==> s[j] != c,
    ensures
        char_from(s, c, from) == char_from(s, c, to),
    decreases to - from,
{
    if from < to {
        lemma_char_from_skip(s, c, from + 1, to);
    }
}

proof fn lemma_place(q: Seq<char>, s: Seq<char>, k: int)
    requires
        0 <= k < q.len(),
    ensures
        match place(q, s, k) {
            Some(p) => 0 <= k <= p < s.len() && s[p] == q[k] && place(q, s, 0) is Some && 0 <= place(
                q,
                s,
                0,
            )->0 <= p - k,
            None => true,
        },
        place(q, s, k) is Some && k > 0 ==> place(q, s, k - 1) is Some && place(q, s, k - 1)->0
            < place(q, s, k)->0,
    decreases k,
{
    if k == 0 {
        lemma_char_from(s, q[0], 0);
    } else {
        lemma_place(q, s, k - 1);
        if let Some(p) = place(q, s, k - 1) {
            lemma_char_from(s, q[k], p + 1);
        }
    }
}

proof fn lemma_place_none(q: Seq<char>, s: Seq<char>, k: int, n: int)
    requires
        0 <= k <= n < q.len(),
        place(q, s, k) is None,
    ensures
        place(q, s, n) is None,
    decreases n - k,
{
    if k < n {
        lemma_place_none(q, s, k, n - 1);
    }
}

fn fuzzy_vec(q: &Vec<char>, s: &Vec<char>) -> (r: Option<i128>)
    ensures
        match r {
            Some(v) => fuzzy_chars(q@, s@) == Some(v as int),
            None => fuzzy_chars(q@, s@) is None,
        },
        r is Some ==> -0x1_8000_0000_0000_0000 <= r->0 <= 0x1_0000_0000_0000_0000,
{
    if q.len() == 0 {
        return Some(0);
    }
    let mut done: usize = 0;
    let mut first: usize = 0;
    let mut last: usize = 0;
    let mut i: usize = 0;
    while i < s.len()
        invariant
            i <= s.len(),
            0 < q.len(),
            done <= q.len(),
            done > 0 ==> place(q@, s@, done - 1) == Some(last as int) && last < i && place(
                q@,
                s@,
                0,
            ) == Some(first as int),
            done < q.len() ==> place(q@, s@, done as int) == char_from(
                s@,
                q@[done as int],
                i as int,
            ),
        decreases s.len() - i,
    {
        if done < q.len() && s[i] == q[done] {
            if done == 0 {
                first = i;
            }
            last = i;
            done = done + 1;
        }
        i = i + 1;
    }
    if done == q.len() {
        proof {
            lemma_place(q@, s@, done - 1);
        }
        let skipped: i128 = (last - first) as i128 - (q.len() - 1) as i128;
        Some(-skipped - (last / 4) as i128)
    } else {
        proof {
            assert(place(q@, s@, done as int) is None);
            lemma_place_none(q@, s@, done as int, q@.len() - 1);
        }
        None
    }
}

/// Subsequence match; a higher score is better. None where there is no match.
pub fn fuzzy_score(query: &str, candidate: &str) -> (r: Option<i128>)
    ensures
        match r {
            Some(v) => fuzzy_value(query@, candidate@) == Some(v as int),
            None => fuzzy_value(query@, candidate@) is None,
        },
        r is Some ==> -0x1_8000_0000_0000_0000 <= r->0 <= 0x1_0000_0000_0000_0000,
{
    if query.is_empty() {
        return Some(0);
    }
    let ql = query.to_lowercase();
    let sl = candidate.to_lowercase();
    let q = chars_of(ql.as_str());
    let s = chars_of(sl.as_str());
    proof {
        if q@.len() > 0 {
            lemma_place(q@, s@, q@.len() - 1);
        }
    }
    fuzzy_vec(&q, &s)
}

/// Whether the characters of `q` stand in `s` in that order, at the positions `f`.
pub open spec fn embeds(q: Seq<char>, s: Seq<char>, f: Seq<int>) -> bool {
    &&& f.len() == q.len()
    &&& forall|i: int| 0 <= i < f.len() ==> 0 <= #[trigger] f[i] < s.len() && s[f[i]] == q[i]
    &&& forall|i: int, j: int| 0 <= i < j < f.len() ==> f[i] < f[j]
}

/// Whether `q` is a subsequence of `s`.
pub open spec fn subsequence(q: Seq<char>, s: Seq<char>) -> bool {
    exists|f: Seq<int>| embeds(q, s, f)
}

proof fn lemma_earliest(q: Seq<char>, s: Seq<char>, f: Seq<int>, k: int)
    requires
        embeds(q, s, f),
        0 <= k < q.len(),
    ensures
        place(q, s, k) is Some,
        place(q, s, k)->0 <= f[k],
    decreases k,
{
    assert(0 <= f[k] < s.len() && s[f[k]] == q[k]);
    if k == 0 {
        lemma_char_from(s, q[0], 0);
    } else {
        lemma_earliest(q, s, f, k - 1);
        let p = place(q, s, k - 1)->0;
        lemma_place(q, s, k - 1);
        lemma_char_from(s, q[k], p + 1);
        assert(f[k - 1] < f[k]);
    }
}

proof fn lemma_places_increase(q: Seq<char>, s: Seq<char>, i: int, j: int)
    requires
        0 <= i < j < q.len(),
        place(q, s, j) is Some,
    ensures
        place(q, s, i) is Some,
        place(q, s, i)->0 < place(q, s, j)->0,
    decreases j - i,
{
    lemma_place(q, s, j);
    if i < j - 1 {
        lemma_places_increase(q, s, i, j - 1);
    }
}

/// There is a score exactly where the query is a subsequence of the candidate.
pub proof fn fuzzy_matches_subsequences(q: Seq<char>, s: Seq<char>)
    ensures
        fuzzy_chars(q, s) is Some <==> subsequence(q, s),
{
    if q.len() == 0 {
        assert(embeds(q, s, Seq::empty()));
    } else {
        if subsequence(q, s) {
            let f = choose|f: Seq<int>| embeds(q, s, f);
            lemma_earliest(q, s, f, q.len() - 1);
        }
        if fuzzy_chars(q, s) is Some {
            let n = q.len() - 1;
            let f = Seq::new(q.len(), |i: int| place(q, s, i)->0);
            assert forall|i: int| 0 <= i < f.len() implies 0 <= #[trigger] f[i] < s.len() && s[f[i]]
                == q[i] by {
                if i < n {
                    lemma_places_increase(q, s, i, n);
                }
                lemma_place(q, s, i);
            }
            assert forall|i: int, j: int| 0 <= i < j < f.len() implies f[i] < f[j] by {
                if j < n {
                    lemma_places_increase(q, s, j, n);
                }
                lemma_places_increase(q, s, i, j);
            }
            assert(embeds(q, s, f));
        }
    }
}

/// A match without gaps at the very beginning has the best score there is but for the
/// part that counts its length.
pub proof fn fuzzy_score_is_at_most_zero(q: Seq<char>, s: Seq<char>)
    ensures
        fuzzy_chars(q, s) is Some ==> fuzzy_chars(q, s)->0 <= 0,
{
    if q.len() > 0 {
        lemma_place(q, s, q.len() - 1);
    }
}

// ── ranking files ───────────────────────────────────────────────────────────

/// The last name in a slash-separated path.
pub open spec fn last_piece(rel: Seq<char>) -> Seq<char> {
    pieces(rel, '/').last()
}

/// How well a query fits a file: best where the name holds it as it is (better still in
/// front), then where the name holds it with gaps, then where the path does.
pub open spec fn finder_value(query: Seq<char>, rel: Seq<char>) -> Option<int> {
    let q = lower(query);
    let name = lower(last_piece(rel));
    match next_at(name, q, 0) {
        Some(at) => {
            let pos = utf8_len(name.take(at));
            Some(100_000 + (if pos == 0 { 5_000int } else { 0 }) - pos * 50 - utf8_len(name))
        },
        None => match fuzzy_chars(q, name) {
            Some(sc) => Some(50_000 + sc - utf8_len(name)),
            None => match fuzzy_chars(q, lower(rel)) {
                Some(sc) => Some(sc - utf8_len(rel)),
                None => None,
            },
        },
    }
}

/// Scores a file against a query. Higher is better; None where it does not match.
pub fn finder_score(query: &str, rel: &str) -> (r: Option<i128>)
    ensures
        match r {
            Some(v) => finder_value(query@, rel@) == Some(v as int),
            None => finder_value(query@, rel@) is None,
        },
{
    let q = query.to_lowercase();
    let p = split(rel, '/');
    proof {
        lemma_pieces_nonempty(rel@, '/');
    }
    let tail = p[p.len() - 1].clone();
    assert(tail@ == last_piece(rel@)) by {
        assert(texts(p@).last() == p@[p@.len() - 1]@);
    }
    let name = tail.as_str().to_lowercase();
    let nv = chars_of(name.as_str());
    let qv = chars_of(q.as_str());
    let f = find_from(&nv, &qv, 0);
    proof {
        lemma_next_at(
            nv@,
            qv@,
            0,
            match f {
                Some(i) => Some(i as int),
                None => None,
            },
        );
    }
    let nlen: i128 = byte_len(name.as_str()) as i128;
    match f {
        Some(at) => {
            let head = string_of(&nv, 0, at);
            assert(nv@.subrange(0, at as int) =~= name@.take(at as int));
            let pos: i128 = byte_len(head.as_str()) as i128;
            let prefix: i128 = if pos == 0 {
                5_000
            } else {
                0
            };
            Some(100_000 + prefix - pos * 50 - nlen)
        },
        None => match fuzzy_vec(&qv, &nv) {
            Some(sc) => Some(50_000 + sc - nlen),
            None => {
                let low = rel.to_lowercase();
                let rv = chars_of(low.as_str());
                match fuzzy_vec(&qv, &rv) {
                    Some(sc) => Some(sc - byte_len(rel) as i128),
                    None => None,
                }
            },
        },
    }
}

/// How a query fits a file: 3 where the name holds it as it is, 2 where the name holds it with
/// gaps, 1 where the path does, 0 where nothing does; upper and lower case alike.
pub open spec fn fit(query: Seq<char>, rel: Seq<char>) -> int {
    let q = lower(query);
    let name = lower(last_piece(rel));
    if occurs(name, q) {
        3
    } else if subsequence(q, name) {
        2
    } else if subsequence(q, lower(rel)) {
        1
    } else {
        0
    }
}

proof fn lemma_next_in_range(t: Seq<char>, p: Seq<char>, from: int)
    requires
        0 <= from,
    ensures
        match next_at(t, p, from) {
            Some(i) => from <= i && occurs_at(t, p, i),
            None => forall|i: int| from <= i ==> !#[trigger] occurs_at(t, p, i),
        },
    decreases t.len() - from + 1,
{
    if from + p.len() <= t.len() && !occurs_at(t, p, from) {
        lemma_next_in_range(t, p, from + 1);
    }
}

/// A file has a score exactly where the query fits it, and the score tells how: what fits the
/// name as it is has some value over 50000, what fits it with gaps one over 0, while a name is
/// of ordinary length.
proof fn lemma_value_of_fit(query: Seq<char>, rel: Seq<char>)
    ensures
        finder_value(query, rel) is Some <==> fit(query, rel) > 0,
        fit(query, rel) == 2 ==> finder_value(query, rel)->0 <= 50_000,
        fit(query, rel) == 1 ==> finder_value(query, rel)->0 <= 0,
        utf8_len(lower(last_piece(rel))) < 900 ==> {
            &&& fit(query, rel) == 3 ==> finder_value(query, rel)->0 > 50_000
            &&& fit(query, rel) == 2 ==> finder_value(query, rel)->0 > 0
        },
{
    let q = lower(query);
    let name = lower(last_piece(rel));
    lemma_next_in_range(name, q, 0);
    fuzzy_matches_subsequences(q, name);
    fuzzy_matches_subsequences(q, lower(rel));
    fuzzy_score_is_at_most_zero(q, name);
    fuzzy_score_is_at_most_zero(q, lower(rel));
    lemma_utf8_at_least(name);
    if let Some(at) = next_at(name, q, 0) {
        lemma_utf8_split(name, at);
    }
    if q.len() > 0 {
        lemma_place(q, name, q.len() - 1);
    }
}

/// A file is scored exactly where the query fits its name or its path. A verbatim match in the
/// name beats a fuzzy match in the name, and that beats a fuzzy match in the path, where the
/// name of the better file takes fewer than 900 bytes in lower case.
pub proof fn verbatim_beats_fuzzy_beats_path(query: Seq<char>, a: Seq<char>, b: Seq<char>)
    ensures
        finder_value(query, a) is Some <==> fit(query, a) > 0,
        utf8_len(lower(last_piece(a))) < 900 && fit(query, a) > fit(query, b) > 0
            ==> finder_value(query, a)->0 > finder_value(query, b)->0,
{
    lemma_value_of_fit(query, a);
    lemma_value_of_fit(query, b);
}

/// One scored file.
#[derive(Clone, Copy, Debug, PartialEq, Eq, Structural)]
pub struct Scored {
    pub score: i128,
    pub len: usize,
    pub id: usize,
}

impl Ranked for Scored {
    open spec fn before(&self, other: &Self) -> bool {
        self.score > other.score || (self.score == other.score && self.len < other.len)
    }

    fn comes_before(&self, other: &Self) -> (r: bool) {
        self.score > other.score || (self.score == other.score && self.len < other.len)
    }

    proof fn order_is_strict(a: &Self, b: &Self) {
    }

    proof fn order_is_weak(a: &Self, b: &Self, c: &Self) {
    }
}

/// The files that match, each with its score, the length of its path and its place.
pub open spec fn scored(root: PathView, query: Seq<char>, files: Seq<PathView>) -> Seq<Scored>
    decreases files.len(),
{
    if files.len() == 0 {
        Seq::empty()
    } else {
        let s = scored(root, query, files.drop_last());
        match finder_value(query, rel_text(root, files.last())) {
            Some(v) => s.push(
                Scored {
                    score: v as i128,
                    len: utf8_len(path_text(files.last())) as usize,
                    id: (files.len() - 1) as usize,
                },
            ),
            None => s,
        }
    }
}

/// The files that the finder lists: the best first, and the shorter path where two are
/// equal.
pub open spec fn finder_list(root: PathView, query: Seq<char>, files: Seq<PathView>) -> Seq<PathView> {
    clip(sorted(scored(root, query, files)), FINDER_CAP as int).map_values(
        |s: Scored| files[s.id as int],
    )
}

proof fn lemma_scored_ids(root: PathView, query: Seq<char>, files: Seq<PathView>)
    requires
        files.len() <= usize::MAX,
    ensures
        forall|i: int|
            0 <= i < scored(root, query, files).len() ==> (#[trigger] scored(root, query, files)[i]).id
                < files.len(),
    decreases files.len(),
{
    if files.len() > 0 {
        lemma_scored_ids(root, query, files.drop_last());
        let s = scored(root, query, files.drop_last());
        let r = scored(root, query, files);
        assert forall|i: int| 0 <= i < r.len() implies (#[trigger] r[i]).id < files.len() by {
            if i < s.len() {
                assert(r[i] == s[i]);
            }
        }
    }
}

pub proof fn lemma_sorted_ids(s: Seq<Scored>, n: nat)
    requires
        forall|i: int| 0 <= i < s.len() ==> (#[trigger] s[i]).id < n,
    ensures
        forall|i: int| 0 <= i < sorted(s).len() ==> (#[trigger] sorted(s)[i]).id < n,
{
    let r = sorted(s);
    sorting_orders(s);
    r.to_multiset_ensures();
    s.to_multiset_ensures();
    assert forall|i: int| 0 <= i < r.len() implies (#[trigger] r[i]).id < n by {
        assert(r.contains(r[i]));
        assert(r.to_multiset().count(r[i]) > 0);
        assert(s.to_multiset().count(r[i]) > 0);
        assert(s.contains(r[i]));
        let k = choose|k: int| 0 <= k < s.len() && s[k] == r[i];
    }
}

/// The files that match a query, best first.
pub fn rank_files(root: &FilePath, query: &str, files: &Vec<FilePath>) -> (r: Vec<FilePath>)
    ensures
        path_views(r@) == finder_list(root@, query@, path_views(files@)),
{
    let ghost all = path_views(files@);
    let mut v: Vec<Scored> = Vec::new();
    let mut i: usize = 0;
    assert(all.take(0) =~= Seq::<PathView>::empty());
    assert(v@ =~= scored(root@, query@, all.take(0)));
    while i < files.len()
        invariant
            i <= files.len(),
            all == path_views(files@),
            v@ == scored(root@, query@, all.take(i as int)),
        decreases files.len() - i,
    {
        proof {
            assert(all.take(i + 1).drop_last() =~= all.take(i as int));
            assert(all.take(i + 1).last() == all[i as int]);
        }
        let rel = root.rel(&files[i]);
        match finder_score(query, rel.as_str()) {
            Some(score) => {
                let t = files[i].to_text();
                v.push(Scored { score, len: byte_len(t.as_str()), id: i });
            },
            None => {},
        }
        i = i + 1;
    }
    assert(all.take(all.len() as int) =~= all);
    let ghost sc = v@;
    let s = sort(v);
    let ghost shown = clip(s@, FINDER_CAP as int);
    proof {
        lemma_scored_ids(root@, query@, all);
        lemma_sorted_ids(sc, all.len());
    }
    let ghost want = finder_list(root@, query@, all);
    let mut out: Vec<FilePath> = Vec::new();
    let mut k: usize = 0;
    assert(path_views(out@) =~= want.take(0));
    while k < s.len() && k < FINDER_CAP
        invariant
            k <= s.len(),
            k <= FINDER_CAP,
            all == path_views(files@),
            s@ == sorted(scored(root@, query@, all)),
            want == finder_list(root@, query@, all),
            want.len() == clip(s@, FINDER_CAP as int).len(),
            forall|i: int| 0 <= i < s.len() ==> (#[trigger] s@[i]).id < all.len(),
            path_views(out@) == want.take(k as int),
        decreases s.len() - k,
    {
        let id: usize = s[k].id;
        assert(s@[k as int].id < all.len());
        let p = files[id].copy();
        proof {
            lemma_path_views_push(out@, p);
            assert(want[k as int] == all[id as int]);
            assert(want.take(k + 1) =~= want.take(k as int).push(p@));
        }
        out.push(p);
        k = k + 1;
    }
    assert(want.take(want.len() as int) =~= want);
    out
}

// ── the query box ───────────────────────────────────────────────────────────

/// A finder query: the path, and the line and column to go to.
#[derive(Debug)]
pub struct FinderQuery {
    pub path: String,
    pub line: Option<usize>,
    pub col: Option<usize>,
}

/// A number with white space round it.
pub open spec fn position(s: Seq<char>) -> Option<nat> {
    number_to(trimmed(s), usize::MAX as nat)
}

/// Whether a piece of a query is a line or a column: a number, or nothing as yet.
pub open spec fn is_position(s: Seq<char>) -> bool {
    trimmed(s).len() == 0 || number(trimmed(s)) is Some
}

/// How many trailing pieces of a query, cut at its colons, are a line or a line and a column.
pub open spec fn peeled(p: Seq<Seq<char>>) -> int {
    if p.len() < 2 || !is_position(p[p.len() - 1]) {
        0
    } else if p.len() < 3 || !is_position(p[p.len() - 2]) {
        1
    } else {
        2
    }
}

/// The path of a finder query: all that stands before the trailing line and column.
pub open spec fn query_path(q: Seq<char>) -> Seq<char> {
    let p = pieces(q, ':');
    joined(p.take(p.len() - peeled(p)), seq![':'])
}

/// The line of a finder query: the first of its trailing numbers.
pub open spec fn query_line(q: Seq<char>) -> Option<nat> {
    let p = pieces(q, ':');
    if peeled(p) > 0 {
        position(p[p.len() - peeled(p)])
    } else {
        None
    }
}

/// The column of a finder query: the second of its trailing numbers.
pub open spec fn query_col(q: Seq<char>) -> Option<nat> {
    let p = pieces(q, ':');
    if peeled(p) == 2 {
        position(p[p.len() - 1])
    } else {
        None
    }
}

/// A query that does not end in a number is all path; the path of any query, with what was
/// taken off behind a colon, is the query.
pub proof fn position_is_peeled_off_the_end(q: Seq<char>)
    ensures
        ({
            let p = pieces(q, ':');
            let n = p.len() - peeled(p);
            &&& peeled(p) == 0 ==> query_path(q) == q
            &&& peeled(p) > 0 ==> q == query_path(q) + seq![':'] + joined(p.skip(n), seq![':'])
        }),
{
    let p = pieces(q, ':');
    join_undoes_split(q, ':');
    lemma_pieces_nonempty(q, ':');
    if peeled(p) == 0 {
        assert(p.take(p.len() as int) =~= p);
    } else {
        let n = p.len() - peeled(p);
        lemma_joined_parts(p.take(n), p.skip(n), seq![':']);
        assert(p.take(n) + p.skip(n) =~= p);
    }
}

/// Joining two lists is joining each, with the separator between.
proof fn lemma_joined_parts(a: Seq<Seq<char>>, b: Seq<Seq<char>>, sep: Seq<char>)
    requires
        a.len() > 0,
        b.len() > 0,
    ensures
        joined(a + b, sep) == joined(a, sep) + sep + joined(b, sep),
    decreases b.len(),
{
    let ab = a + b;
    assert(ab.last() == b.last());
    if b.len() == 1 {
        assert(ab.drop_last() =~= a);
        assert(b.drop_last() =~= Seq::<Seq<char>>::empty());
        assert(joined(b, sep) =~= b[0]);
        assert(joined(ab, sep) =~= joined(a, sep) + sep + b[0]);
    } else {
        assert(ab.drop_last() =~= a + b.drop_last());
        lemma_joined_parts(a, b.drop_last(), sep);
        assert(joined(ab, sep) =~= joined(a, sep) + sep + joined(b, sep));
    }
}

/// An optional position as a number.
pub open spec fn opt_nat(o: Option<usize>) -> Option<nat> {
    match o {
        Some(n) => Some(n as nat),
        None => None,
    }
}

fn read_position(s: &str) -> (r: Option<usize>)
    ensures
        opt_nat(r) == position(s@),
{
    let t = trim(s);
    parse_usize(t.as_str())
}

fn position_piece(s: &str) -> (r: bool)
    ensures
        r == is_position(s@),
{
    let t = trim(s);
    t.as_str().is_empty() || is_number(t.as_str())
}

/// Takes a trailing `:line` or `:line:col` off a query, so that a pasted "src/x.ts:45"
/// still finds the file.
pub fn split_finder_query(q: &str) -> (r: FinderQuery)
    ensures
        r.path@ == query_path(q@),
        opt_nat(r.line) == query_line(q@),
        opt_nat(r.col) == query_col(q@),
{
    let mut ps = split(q, ':');
    let ghost p = pieces(q@, ':');
    proof {
        lemma_pieces_nonempty(q@, ':');
        assert forall|i: int| 0 <= i < ps@.len() implies (#[trigger] ps@[i])@ == p[i] by {
            assert(texts(ps@)[i] == ps@[i]@);
        }
        reveal_strlit(":");
        assert(":"@ =~= seq![':']);
    }
    let n: usize = ps.len();
    let mut line: Option<usize> = None;
    let mut col: Option<usize> = None;
    if n >= 2 && position_piece(ps[n - 1].as_str()) {
        line = read_position(ps[n - 1].as_str());
        if n >= 3 && position_piece(ps[n - 2].as_str()) {
            col = line;
            line = read_position(ps[n - 2].as_str());
            ps.pop();
        }
        ps.pop();
    }
    assert(texts(ps@) =~= p.take(p.len() - peeled(p)));
    FinderQuery { path: join(&ps, ":"), line, col }
}

/// Whether the finder lists folders: the query ends in a slash.
pub open spec fn lists_dirs(q: Seq<char>) -> bool {
    finishes(query_path(q), seq!['/'])
}

/// What the finder shows for a query: folders where it ends in a slash, else files.
pub open spec fn finder_results(root: PathView, q: Seq<char>, files: Seq<PathView>, dirs: Seq<PathView>) -> Seq<PathView> {
    if lists_dirs(q) {
        finder_list(root, without_trailing(query_path(q), '/'), dirs)
    } else {
        finder_list(root, query_path(q), files)
    }
}

/// The finder's list for what stands in its query box, and whether it lists folders.
pub fn update_finder(root: &FilePath, raw: &str, files: &Vec<FilePath>, dirs: &Vec<FilePath>) -> (r: (
    Vec<FilePath>,
    bool,
))
    ensures
        path_views(r.0@) == finder_results(root@, raw@, path_views(files@), path_views(dirs@)),
        r.1 == lists_dirs(raw@),
{
    let fq = split_finder_query(raw);
    proof {
        reveal_strlit("/");
        assert("/"@ =~= seq!['/']);
    }
    if ends_with(fq.path.as_str(), "/") {
        let q = trim_end_char(fq.path.as_str(), '/');
        (rank_files(root, q.as_str(), dirs), true)
    } else {
        (rank_files(root, fq.path.as_str(), files), false)
    }
}

/// The number in piece `i`, or 1.
pub open spec fn position_or_one(p: Seq<Seq<char>>, i: int) -> nat {
    if i < p.len() {
        match position(p[i]) {
            Some(n) => n,
            None => 1,
        }
    } else {
        1
    }
}

/// Reads `line` or `line:column` from the go-to-line box; what cannot be read is 1.
pub fn goto_target(q: &str) -> (r: (usize, usize))
    ensures
        r.0 == position_or_one(pieces(q@, ':'), 0),
        r.1 == position_or_one(pieces(q@, ':'), 1),
{
    let p = split(q, ':');
    proof {
        lemma_pieces_nonempty(q@, ':');
        assert(texts(p@)[0] == p@[0]@);
        if p@.len() > 1 {
            assert(texts(p@)[1] == p@[1]@);
        }
    }
    let line: usize = match read_position(p[0].as_str()) {
        Some(n) => n,
        None => 1,
    };
    let col: usize = if p.len() > 1 {
        match read_position(p[1].as_str()) {
            Some(n) => n,
            None => 1,
        }
    } else {
        1
    };
    (line, col)
}

/// Whether a text may be typed into the go-to-line box: digits and colons only.
pub open spec fn goto_accepts(s: Seq<char>) -> bool {
    forall|i: int| 0 <= i < s.len() ==> ('0' <= #[trigger] s[i] && s[i] <= '9') || s[i] == ':'
}

/// Whether a text may be typed into the go-to-line box.
pub fn goto_accept(s: &str) -> (r: bool)
    ensures
        r == goto_accepts(s@),
{
    let v = chars_of(s);
    let mut i: usize = 0;
    while i < v.len()
        invariant
            i <= v.len(),
            v@ == s@,
            forall|j: int| 0 <= j < i ==> ('0' <= #[trigger] s@[j] && s@[j] <= '9') || s@[j] == ':',
        decreases v.len() - i,
    {
        let c = v[i];
        if !(('0' <= c && c <= '9') || c == ':') {
            assert(s@[i as int] == c);
            return false;
        }
        i = i + 1;
    }
    true
}

// ── the finder's panel ──────────────────────────────────────────────────────

/// The state of the file finder: what it lists, and what it can list.
#[derive(Debug)]
pub struct Finder {
    pub open: bool,
    pub results: Vec<FilePath>,
    pub selected: usize,
    pub gen: usize,
    pub dirs_mode: bool,
    pub all_files: Vec<FilePath>,
    pub all_dirs: Vec<FilePath>,
}

/// The state of the finder as plain values.
pub ghost struct FinderView {
    pub open: bool,
    pub results: Seq<PathView>,
    pub selected: usize,
    pub gen: usize,
    pub dirs_mode: bool,
    pub all_files: Seq<PathView>,
    pub all_dirs: Seq<PathView>,
}

impl View for Finder {
    type V = FinderView;

    open spec fn view(&self) -> FinderView {
        FinderView {
            open: self.open,
            results: path_views(self.results@),
            selected: self.selected,
            gen: self.gen,
            dirs_mode: self.dirs_mode,
            all_files: path_views(self.all_files@),
            all_dirs: path_views(self.all_dirs@),
        }
    }
}

/// The finder with its list made for a query.
pub open spec fn finder_listing(f: FinderView, root: PathView, q: Seq<char>) -> FinderView {
    FinderView {
        results: finder_results(root, q, f.all_files, f.all_dirs),
        dirs_mode: lists_dirs(q),
        ..f
    }
}

/// What a key does in the finder.
#[derive(Debug)]
pub enum FinderKey {
    Close,
    /// Go to this path, and then to this line and column.
    Chosen(FilePath, Option<(usize, usize)>),
    Moved,
    Nothing,
    Edit,
}

/// The line and column that a query asks for: the column is 1 where it names none.
pub open spec fn asked_position(q: Seq<char>) -> Option<(nat, nat)> {
    match query_line(q) {
        Some(l) => Some(
            (
                l,
                match query_col(q) {
                    Some(c) => c,
                    None => 1,
                },
            ),
        ),
        None => None,
    }
}

impl Finder {
    /// A finder that is closed and knows no files.
    pub fn new() -> (r: Finder)
        ensures
            r@ == (FinderView {
                open: false,
                results: Seq::empty(),
                selected: 0,
                gen: 0,
                dirs_mode: false,
                all_files: Seq::empty(),
                all_dirs: Seq::empty(),
            }),
    {
        let r = Finder {
            open: false,
            results: Vec::new(),
            selected: 0,
            gen: 0,
            dirs_mode: false,
            all_files: Vec::new(),
            all_dirs: Vec::new(),
        };
        assert(path_views(r.results@) =~= Seq::<PathView>::empty());
        assert(path_views(r.all_files@) =~= Seq::<PathView>::empty());
        assert(path_views(r.all_dirs@) =~= Seq::<PathView>::empty());
        r
    }

    fn relist(&mut self, root: &FilePath, query: &str)
        ensures
            final(self)@ == finder_listing(old(self)@, root@, query@),
    {
        let r = update_finder(root, query, &self.all_files, &self.all_dirs);
        self.results = r.0;
        self.dirs_mode = r.1;
    }

    /// Opens the finder with an empty query, on the files that are known already.
    pub fn show(&mut self, root: &FilePath)
        ensures
            final(self)@ == (FinderView {
                open: true,
                selected: 0,
                ..finder_listing(old(self)@, root@, ""@)
            }),
    {
        self.open = true;
        self.selected = 0;
        self.relist(root, "");
    }

    /// The project's files and folders were read anew.
    pub fn scanned(&mut self, root: &FilePath, query: &str, files: Vec<FilePath>, dirs: Vec<FilePath>)
        ensures
            final(self)@ == finder_listing(
                FinderView {
                    all_files: path_views(files@),
                    all_dirs: path_views(dirs@),
                    ..old(self)@
                },
                root@,
                query@,
            ),
    {
        self.all_files = files;
        self.all_dirs = dirs;
        self.relist(root, query);
    }

    /// The query changed: gives the number under which the list is to be made anew, shortly
    /// after.
    pub fn schedule(&mut self) -> (r: usize)
        requires
            old(self).gen < usize::MAX,
        ensures
            r == old(self).gen + 1,
            final(self)@ == (FinderView { gen: r, ..old(self)@ }),
    {
        self.gen = self.gen + 1;
        self.gen
    }

    /// Makes the list anew for a query, unless it changed again since `gen` was given out. Says
    /// whether it did.
    pub fn refilter(&mut self, gen: usize, root: &FilePath, query: &str) -> (r: bool)
        ensures
            r == (gen == old(self).gen),
            final(self)@ == if r {
                FinderView { selected: 0, ..finder_listing(old(self)@, root@, query@) }
            } else {
                old(self)@
            },
    {
        if gen != self.gen {
            return false;
        }
        self.relist(root, query);
        self.selected = 0;
        true
    }

    /// A key in the finder.
    pub fn finder_key(&mut self, k: &Keystroke, query: &str) -> (r: FinderKey)
        ensures
            ({
                let k = k@.key;
                let o = old(self)@;
                if k == "escape"@ {
                    r is Close && final(self)@ == (FinderView { open: false, ..o })
                } else if k == "enter"@ {
                    &&& final(self)@ == o
                    &&& if o.selected < o.results.len() {
                        &&& r is Chosen
                        &&& r->Chosen_0@ == o.results[o.selected as int]
                        &&& (match r->Chosen_1 {
                            Some(p) => Some((p.0 as nat, p.1 as nat)),
                            None => None,
                        }) == asked_position(query@)
                    } else {
                        r is Nothing
                    }
                } else if k == "up"@ || k == "down"@ {
                    &&& r is Moved
                    &&& final(self)@ == (FinderView {
                        selected: list_step(k, o.selected as int, o.results.len() as int) as usize,
                        ..o
                    })
                } else {
                    r is Edit && final(self)@ == o
                }
            }),
    {
        if k.is("escape") {
            self.open = false;
            return FinderKey::Close;
        }
        if k.is("enter") {
            if self.selected >= self.results.len() {
                return FinderKey::Nothing;
            }
            let q = split_finder_query(query);
            let to = match q.line {
                Some(l) => Some(
                    (
                        l,
                        match q.col {
                            Some(c) => c,
                            None => 1,
                        },
                    ),
                ),
                None => None,
            };
            return FinderKey::Chosen(self.results[self.selected].copy(), to);
        }
        if k.is("up") {
            self.selected = step_up(self.selected);
            return FinderKey::Moved;
        }
        if k.is("down") {
            proof {
                reveal_strlit("up");
                reveal_strlit("down");
                assert("up"@.len() != "down"@.len());
            }
            self.selected = step_down(self.selected, self.results.len());
            return FinderKey::Moved;
        }
        FinderKey::Edit
    }
}

/// One row of the finder.
#[derive(Debug)]
pub struct FinderRow {
    pub badge: String,
    pub badge_color: u32,
    pub label: String,
    pub label_color: u32,
    pub dir: String,
    pub dir_color: u32,
}

/// The directory by which a path is shown: below the root, or nothing.
pub open spec fn shown_dir(root: PathView, p: PathView) -> Seq<char> {
    match parent_of(p) {
        Some(d) => match stripped(d, root) {
            Some(q) => path_text(q),
            None => Seq::empty(),
        },
        None => Seq::empty(),
    }
}

/// How a path is listed: a folder with its icon and a slash, a file with its badge.
pub fn finder_row(root: &FilePath, p: &FilePath, dirs_mode: bool, selected: bool) -> (r: FinderRow)
    ensures
        r.badge@ == if dirs_mode {
            seq![Icon::Folder.glyph_of()]
        } else {
            file_badge(p@).0
        },
        r.badge_color == if selected {
            SEL_TEXT
        } else if dirs_mode {
            FOLDER_ICON
        } else {
            file_badge(p@).1
        },
        r.label@ == if dirs_mode {
            name_or_empty(p@) + "/"@
        } else {
            name_or_empty(p@)
        },
        r.label_color == if selected {
            SEL_TEXT
        } else if dirs_mode {
            DIR
        } else {
            TEXT
        },
        r.dir@ == shown_dir(root@, p@),
        r.dir_color == if selected {
            SEL_TEXT
        } else {
            MUTED
        },
{
    let name = p.file_name_text();
    let dir = match p.parent() {
        Some(d) => match d.strip_prefix(root) {
            Some(q) => q.to_text(),
            None => {
                let e = String::new();
                assert(e@ =~= Seq::<char>::empty());
                e
            },
        },
        None => {
            let e = String::new();
            assert(e@ =~= Seq::<char>::empty());
            e
        },
    };
    let b = if dirs_mode {
        (Icon::Folder.glyph_text(), FOLDER_ICON)
    } else {
        ext_badge(p)
    };
    FinderRow {
        badge: b.0,
        badge_color: if selected {
            SEL_TEXT
        } else {
            b.1
        },
        label: if dirs_mode {
            cat(name.as_str(), "/")
        } else {
            name
        },
        label_color: if selected {
            SEL_TEXT
        } else if dirs_mode {
            DIR
        } else {
            TEXT
        },
        dir,
        dir_color: if selected {
            SEL_TEXT
        } else {
            MUTED
        },
    }
}

// ── what the finder prefers ─────────────────────────────────────────────────

proof fn lemma_front_places(q: Seq<char>, r: Seq<char>, k: int)
    requires
        0 <= k < q.len(),
    ensures
        place(q, q + r, k) == Some(k),
    decreases k,
{
    let s = q + r;
    assert(s[k] == q[k]);
    if k > 0 {
        lemma_front_places(q, r, k - 1);
    }
}

/// A query that a text begins with loses only for its length; one that stands there with a gap
/// loses more.
pub proof fn gaps_cost_points(q: Seq<char>, r: Seq<char>, s: Seq<char>)
    requires
        q.len() > 0,
    ensures
        fuzzy_chars(q, q + r) == Some(-((q.len() - 1) / 4)),
        fuzzy_chars(q, s) is Some ==> fuzzy_chars(q, s)->0 <= -((q.len() - 1) / 4),
        fuzzy_chars(q, s) is Some ==> fuzzy_chars(q, s)->0 == (q.len() - 1) - (place(q, s, q.len() - 1)->0 - place(q, s, 0)->0) - place(q, s, q.len() - 1)->0 / 4,
{
    lemma_front_places(q, r, 0);
    lemma_front_places(q, r, q.len() - 1);
    lemma_place(q, s, q.len() - 1);
}

/// Among files whose names hold the query as it is, one that begins with it comes before one of the
/// same length that holds it further behind, and of two that begin with it the shorter comes first.
pub proof fn front_and_short_names_come_first(query: Seq<char>, a: Seq<char>, b: Seq<char>)
    requires
        next_at(lower(last_piece(a)), lower(query), 0) == Some(0int),
        next_at(lower(last_piece(b)), lower(query), 0) is Some,
    ensures
        utf8_len(lower(last_piece(a))) == utf8_len(lower(last_piece(b))) && next_at(lower(last_piece(b)), lower(query), 0)->0 > 0 ==> finder_value(query, a)->0
            > finder_value(query, b)->0,
        next_at(lower(last_piece(b)), lower(query), 0)->0 == 0 && utf8_len(lower(last_piece(a))) < utf8_len(lower(last_piece(b))) ==> finder_value(query, a)->0
            > finder_value(query, b)->0,
{
    let na = lower(last_piece(a));
    let nb = lower(last_piece(b));
    let at = next_at(nb, lower(query), 0)->0;
    assert(na.take(0) =~= Seq::<char>::empty());
    assert(nb.take(0) =~= Seq::<char>::empty());
    lemma_next_in_range(nb, lower(query), 0);
    lemma_utf8_at_least(nb.take(at));
}

/// The list of matches is in the order of their scores, the shorter path first where two are equal,
/// and it holds every match once.
pub proof fn better_matches_come_first(v: Seq<Scored>, i: int, j: int)
    requires
        0 <= i < j < v.len(),
    ensures
        sorted(v)[i].score >= sorted(v)[j].score,
        sorted(v)[i].score == sorted(v)[j].score ==> sorted(v)[i].len <= sorted(v)[j].len,
        sorted(v).to_multiset() == v.to_multiset(),
{
    sorting_orders(v);
    assert(!sorted(v)[j].before(&sorted(v)[i]));
}

/// A file is scored by what its path below the root fits, under its own place.
pub proof fn files_that_fit_are_scored(root: PathView, query: Seq<char>, files: Seq<PathView>, i: int)
    requires
        0 <= i < files.len() <= usize::MAX,
    ensures
        finder_value(query, rel_text(root, files[i])) is Some ==> exists|k: int|
            0 <= k < scored(root, query, files).len() && (#[trigger] scored(root, query, files)[k]).id == i && scored(root, query, files)[k].score
                == finder_value(query, rel_text(root, files[i]))->0 as i128,
        scored(root, query, files).len() <= files.len(),
    decreases files.len(),
{
    let t = files.drop_last();
    let v = scored(root, query, files);
    let w = scored(root, query, t);
    if t.len() > 0 {
        files_that_fit_are_scored(root, query, t, if i < t.len() { i } else { 0 });
    }
    if finder_value(query, rel_text(root, files[i])) is Some {
        if i < t.len() {
            assert(t[i] == files[i]);
            let k = choose|k: int| 0 <= k < w.len() && (#[trigger] w[k]).id == i && w[k].score == finder_value(query, rel_text(root, t[i]))->0 as i128;
            assert(v[k] == w[k]);
        } else {
            assert(v[v.len() - 1].id == i);
        }
    }
}

/// What is scored is a file that fits.
pub proof fn scored_files_fit(root: PathView, query: Seq<char>, files: Seq<PathView>, k: int)
    requires
        0 <= k < scored(root, query, files).len(),
        files.len() <= usize::MAX,
    ensures
        scored(root, query, files)[k].id < files.len(),
        finder_value(query, rel_text(root, files[scored(root, query, files)[k].id as int])) is Some,
    decreases files.len(),
{
    if files.len() > 0 {
        let t = files.drop_last();
        let w = scored(root, query, t);
        if k < w.len() {
            scored_files_fit(root, query, t, k);
            assert(scored(root, query, files)[k] == w[k]);
            assert(t[w[k].id as int] == files[w[k].id as int]);
        }
    }
}

/// Up to fifty matches are all listed.
pub proof fn fifty_matches_are_listed(root: PathView, query: Seq<char>, files: Seq<PathView>)
    ensures
        scored(root, query, files).len() <= 50 ==> finder_list(root, query, files).len() == scored(root, query, files).len(),
        scored(root, query, files).len() > 50 ==> finder_list(root, query, files).len() == 50,
{
    sorting_orders(scored(root, query, files));
}

proof fn lemma_dec_position(n: nat)
    ensures
        trimmed(dec(n)) == dec(n),
        dec(n).len() > 0,
        !dec(n).contains(':'),
    decreases n,
{
    digits_count_in_tens(n / 10, n % 10);
    let d = dec(n);
    lemma_dec_chars(n);
    assert(!is_space(d[0]) && !is_space(d[d.len() - 1]));
    assert(trimmed_start(d) == d);
    assert(trimmed_end(d) == d);
    if d.contains(':') {
        let k = choose|k: int| 0 <= k < d.len() && d[k] == ':';
        assert('0' <= d[k] <= '9');
    }
}

proof fn lemma_dec_chars(n: nat)
    ensures
        dec(n).len() > 0,
        forall|k: int| 0 <= k < dec(n).len() ==> '0' <= #[trigger] dec(n)[k] <= '9',
    decreases n,
{
    digits_count_in_tens(n / 10, n % 10);
    if n >= 10 {
        lemma_dec_chars(n / 10);
        assert forall|k: int| 0 <= k < dec(n).len() implies '0' <= #[trigger] dec(n)[k] <= '9' by {
            if k < dec(n).len() - 1 {
                assert(dec(n)[k] == dec(n / 10)[k]);
            }
        }
    }
}

/// A path that is pasted with a line, or with a line and a column, behind it is found under its own
/// name, and the line and the column are gone to.
pub proof fn pasted_positions_are_gone_to(path: Seq<char>, line: nat, col: nat)
    requires
        !path.contains(':'),
        line <= usize::MAX,
        col <= usize::MAX,
    ensures
        query_path(path) == path && asked_position(path) is None,
        query_path(path + seq![':'] + dec(line)) == path,
        asked_position(path + seq![':'] + dec(line)) == Some((line, 1nat)),
        query_path(path + seq![':'] + dec(line) + seq![':'] + dec(col)) == path,
        asked_position(path + seq![':'] + dec(line) + seq![':'] + dec(col)) == Some((line, col)),
{
    lemma_dec_position(line);
    lemma_dec_position(col);
    reading_undoes_writing(line);
    reading_undoes_writing(col);
    let one = seq![path];
    let two = seq![path, dec(line)];
    let three = seq![path, dec(line), dec(col)];
    split_undoes_join(one, ':');
    split_undoes_join(two, ':');
    split_undoes_join(three, ':');
    assert(one.drop_last() =~= Seq::<Seq<char>>::empty());
    assert(two.drop_last() =~= one);
    assert(three.drop_last() =~= two);
    assert(joined(one, seq![':']) =~= path);
    assert(joined(two, seq![':']) =~= path + seq![':'] + dec(line));
    assert(joined(three, seq![':']) =~= path + seq![':'] + dec(line) + seq![':'] + dec(col));
    assert(one.take(1) =~= one);
    assert(two.take(1) =~= one);
    assert(three.take(1) =~= one);
}

/// The box for going to a line takes the line and the column apart at the colon.
pub proof fn goto_reads_line_and_column(line: nat, col: nat)
    requires
        line <= usize::MAX,
        col <= usize::MAX,
    ensures
        position_or_one(pieces(dec(line) + seq![':'] + dec(col), ':'), 0) == line,
        position_or_one(pieces(dec(line) + seq![':'] + dec(col), ':'), 1) == col,
        position_or_one(pieces(dec(line), ':'), 0) == line,
        position_or_one(pieces(dec(line), ':'), 1) == 1,
        position_or_one(pieces(Seq::empty(), ':'), 0) == 1,
        goto_accepts(seq!['7']) && goto_accepts(seq![':']) && !goto_accepts(seq!['a']) && !goto_accepts(seq![' ']),
{
    lemma_dec_position(line);
    lemma_dec_position(col);
    reading_undoes_writing(line);
    reading_undoes_writing(col);
    let one = seq![dec(line)];
    let two = seq![dec(line), dec(col)];
    split_undoes_join(one, ':');
    split_undoes_join(two, ':');
    assert(one.drop_last() =~= Seq::<Seq<char>>::empty());
    assert(two.drop_last() =~= one);
    assert(joined(one, seq![':']) =~= dec(line));
    assert(joined(two, seq![':']) =~= dec(line) + seq![':'] + dec(col));
    assert(pieces(Seq::<char>::empty(), ':') == seq![Seq::<char>::empty()]);
    assert(trimmed(Seq::<char>::empty()).len() == 0);
    assert(number(Seq::<char>::empty()) is None);
    assert(trimmed(Seq::<char>::empty()) =~= Seq::<char>::empty());
    assert(!goto_accepts(seq!['a'])) by {
        assert(seq!['a'][0] == 'a');
    }
    assert(!goto_accepts(seq![' '])) by {
        assert(seq![' '][0] == ' ');
    }
}

/// A query that ends in a slash lists folders, without that slash; any other lists files.
pub proof fn a_slash_lists_folders(root: PathView, q: Seq<char>, files: Seq<PathView>, dirs: Seq<PathView>)
    requires
        !q.contains(':'),
        q.len() > 0,
    ensures
        q.last() != '/' ==> finder_results(root, q, files, dirs) == finder_list(root, q, files),
        finder_results(root, q.push('/'), files, dirs) == finder_list(root, without_trailing(q, '/'), dirs),
{
    pasted_positions_are_gone_to(q, 0, 0);
    let d = q.push('/');
    assert(!d.contains(':')) by {
        if d.contains(':') {
            let k = choose|k: int| 0 <= k < d.len() && d[k] == ':';
            assert(q[k] == ':');
        }
    }
    pasted_positions_are_gone_to(d, 0, 0);
    assert(d.skip(d.len() - 1) =~= seq!['/']);
    assert(d.drop_last() =~= q);
    if q.last() != '/' {
        assert(q.skip(q.len() - 1) =~= seq![q.last()]);
        assert(seq![q.last()][0] != seq!['/'][0]);
    }
}

/// A file is shown by its directory below the root.
pub proof fn files_are_shown_by_directory(root: PathView, d: Seq<Seq<char>>, n: Seq<char>)
    ensures
        shown_dir(root, PathView { abs: root.abs, parts: (root.parts + d).push(n) }) == path_text(PathView { abs: false, parts: d }),
{
    let p = PathView { abs: root.abs, parts: (root.parts + d).push(n) };
    assert(p.parts.drop_last() =~= root.parts + d);
    assert((root.parts + d).take(root.parts.len() as int) =~= root.parts);
    assert((root.parts + d).skip(root.parts.len() as int) =~= d);
}

} // verus!
