//! Searching in files: the query box, file globs, the ripgrep command line and its
//! output, and the search that runs without ripgrep.
use vstd::prelude::*;
use crate::path::{FilePath, PathView, name_or_empty, path_of, path_text, path_views};
use crate::text::{begins, byte_len, cat, chars_of, contains, cut, cutting_parts_the_text, cutting_undoes_joining, dec, digits_count_in_tens, finishes, has_char, is_space, join, joined, lemma_texts_push, lemma_trimmed_start, line_seq, lines, lower, matches_at, number_to, occurs, occurs_at, parse_usize, reading_undoes_writing, split_once, string_of, strip_prefix, texts, trim_start, trimmed_start, utf8_len, words, words_of, words_undo_joining};

verus! {

/// At most so many results are shown.
pub const FIND_CAP: usize = 500;

/// At most so many characters of a matching line are kept.
pub const FIND_TEXT: usize = 200;

/// Files above this size are not searched.
pub const FIND_FILE_MAX: u64 = 1048576;

// ── the query box ───────────────────────────────────────────────────────────

/// Parsed pieces of the find-in-files query box.
#[derive(Debug)]
pub struct SearchQuery {
    pub term: String,
    pub excludes: Vec<String>,
    pub globs: Vec<String>,
}

/// What a parsed query asks for.
pub ghost struct QueryView {
    pub term: Seq<char>,
    pub excludes: Seq<Seq<char>>,
    pub globs: Seq<Seq<char>>,
}

impl View for SearchQuery {
    type V = QueryView;

    open spec fn view(&self) -> QueryView {
        QueryView {
            term: self.term@,
            excludes: texts(self.excludes@),
            globs: texts(self.globs@),
        }
    }
}

/// Whether a word is a file pattern.
pub open spec fn is_glob(s: Seq<char>) -> bool {
    s.contains('*') || s.contains('?')
}

/// What one word of the query box is.
pub enum TokenKind {
    Include,
    Exclude,
    Glob,
    NotGlob,
}

/// A dash in front, with something behind it, excludes; a star or a question mark
/// makes the word a file pattern.
pub open spec fn token_kind(s: Seq<char>) -> TokenKind {
    if s.len() > 1 && s[0] == '-' {
        if is_glob(s.drop_first()) {
            TokenKind::NotGlob
        } else {
            TokenKind::Exclude
        }
    } else if is_glob(s) {
        TokenKind::Glob
    } else {
        TokenKind::Include
    }
}

/// The words that are searched for.
pub open spec fn included(w: Seq<Seq<char>>) -> Seq<Seq<char>>
    decreases w.len(),
{
    if w.len() == 0 {
        Seq::empty()
    } else if token_kind(w.last()) == TokenKind::Include {
        included(w.drop_last()).push(w.last())
    } else {
        included(w.drop_last())
    }
}

/// The words that a line must not go on with, without their dash.
pub open spec fn excluded(w: Seq<Seq<char>>) -> Seq<Seq<char>>
    decreases w.len(),
{
    if w.len() == 0 {
        Seq::empty()
    } else if token_kind(w.last()) == TokenKind::Exclude {
        excluded(w.drop_last()).push(w.last().drop_first())
    } else {
        excluded(w.drop_last())
    }
}

/// The file patterns; one that is negated begins with an exclamation mark.
pub open spec fn globbed(w: Seq<Seq<char>>) -> Seq<Seq<char>>
    decreases w.len(),
{
    if w.len() == 0 {
        Seq::empty()
    } else {
        match token_kind(w.last()) {
            TokenKind::Glob => globbed(w.drop_last()).push(w.last()),
            TokenKind::NotGlob => globbed(w.drop_last()).push(seq!['!'] + w.last().drop_first()),
            _ => globbed(w.drop_last()),
        }
    }
}

/// What the query box asks for.
pub open spec fn query_of(q: Seq<char>) -> QueryView {
    let w = words_of(q);
    QueryView { term: joined(included(w), seq![' ']), excludes: excluded(w), globs: globbed(w) }
}

fn glob_word(s: &str) -> (r: bool)
    ensures
        r == is_glob(s@),
{
    has_char(s, '*') || has_char(s, '?')
}

/// Splits the query box into the literal search term, the words to exclude and the
/// file patterns.
pub fn parse_search_query(q: &str) -> (r: SearchQuery)
    ensures
        r@ == query_of(q@),
{
    let w = words(q);
    let ghost all = texts(w@);
    let mut term: Vec<String> = Vec::new();
    let mut excludes: Vec<String> = Vec::new();
    let mut globs: Vec<String> = Vec::new();
    let mut i: usize = 0;
    assert(all.take(0) =~= Seq::<Seq<char>>::empty());
    assert(texts(term@) =~= Seq::<Seq<char>>::empty());
    assert(texts(excludes@) =~= Seq::<Seq<char>>::empty());
    assert(texts(globs@) =~= Seq::<Seq<char>>::empty());
    while i < w.len()
        invariant
            i <= w.len(),
            all == texts(w@),
            texts(term@) == included(all.take(i as int)),
            texts(excludes@) == excluded(all.take(i as int)),
            texts(globs@) == globbed(all.take(i as int)),
        decreases w.len() - i,
    {
        let tok = w[i].clone();
        let v = chars_of(tok.as_str());
        proof {
            let t = all.take(i + 1);
            assert(t.drop_last() =~= all.take(i as int));
            assert(t.last() == tok@);
        }
        if v.len() > 1 && v[0] == '-' {
            let inner = string_of(&v, 1, v.len());
            assert(inner@ =~= tok@.drop_first());
            if glob_word(inner.as_str()) {
                proof {
                    reveal_strlit("!");
                    assert("!"@ =~= seq!['!']);
                }
                let g = cat("!", inner.as_str());
                proof {
                    lemma_texts_push(globs@, g);
                }
                globs.push(g);
            } else {
                proof {
                    lemma_texts_push(excludes@, inner);
                }
                excludes.push(inner);
            }
        } else if glob_word(tok.as_str()) {
            proof {
                lemma_texts_push(globs@, tok);
            }
            globs.push(tok);
        } else {
            proof {
                lemma_texts_push(term@, tok);
            }
            term.push(tok);
        }
        i = i + 1;
    }
    assert(all.take(all.len() as int) =~= all);
    proof {
        reveal_strlit(" ");
        assert(" "@ =~= seq![' ']);
    }
    SearchQuery { term: join(&term, " "), excludes, globs }
}

/// Whether a query is searched for at all: the term takes two bytes or more, and there
/// is somewhere to look.
pub open spec fn query_runs(term: Seq<char>, scopes: nat) -> bool {
    utf8_len(term) >= 2 && scopes > 0
}

/// Whether a query is searched for at all.
pub fn search_runs(term: &str, scopes: usize) -> (r: bool)
    ensures
        r == query_runs(term@, scopes as nat),
{
    byte_len(term) >= 2 && scopes > 0
}

// ── file patterns ───────────────────────────────────────────────────────────

/// Whether the pattern `p` describes the whole of `t`: a star stands for any run of
/// characters, a question mark for one character.
pub open spec fn glob(p: Seq<char>, t: Seq<char>) -> bool
    decreases p.len(), t.len(),
{
    if p.len() == 0 {
        t.len() == 0
    } else if p[0] == '*' {
        glob(p.drop_first(), t) || (t.len() > 0 && glob(p, t.drop_first()))
    } else {
        t.len() > 0 && (p[0] == '?' || p[0] == t[0]) && glob(p.drop_first(), t.drop_first())
    }
}

proof fn lemma_segment(p: Seq<char>, t: Seq<char>, a: int, b: int, k: int)
    requires
        0 <= a <= b <= p.len(),
        0 <= k <= t.len(),
        forall|i: int| a <= i < b ==> p[i] != '*',
        glob(p.skip(a), t.skip(k)),
    ensures
        k + (b - a) <= t.len(),
        glob(p.skip(b), t.skip(k + (b - a))),
    decreases b - a,
{
    if a < b {
        assert(p.skip(a)[0] == p[a]);
        assert(p.skip(a).drop_first() =~= p.skip(a + 1));
        assert(t.skip(k).drop_first() =~= t.skip(k + 1));
        lemma_segment(p, t, a + 1, b, k + 1);
    }
}

proof fn lemma_star(p: Seq<char>, t: Seq<char>, a: int, i: int)
    requires
        0 <= a < p.len(),
        p[a] == '*',
        0 <= i <= t.len(),
    ensures
        glob(p.skip(a), t.skip(i)) <==> exists|k: int|
            i <= k <= t.len() && #[trigger] glob(p.skip(a + 1), t.skip(k)),
    decreases t.len() - i,
{
    let q = p.skip(a);
    assert(q[0] == '*');
    assert(q.drop_first() =~= p.skip(a + 1));
    if i < t.len() {
        lemma_star(p, t, a, i + 1);
        assert(t.skip(i).drop_first() =~= t.skip(i + 1));
        assert(glob(q, t.skip(i)) == (glob(p.skip(a + 1), t.skip(i)) || glob(q, t.skip(i + 1))));
        if glob(p.skip(a + 1), t.skip(i)) {
            assert(i <= i <= t.len() && glob(p.skip(a + 1), t.skip(i)));
        }
        if glob(q, t.skip(i)) && !glob(p.skip(a + 1), t.skip(i)) {
            let k = choose|k: int|
                i + 1 <= k <= t.len() && #[trigger] glob(p.skip(a + 1), t.skip(k));
            assert(i <= k <= t.len() && glob(p.skip(a + 1), t.skip(k)));
        }
        if exists|k: int| i <= k <= t.len() && #[trigger] glob(p.skip(a + 1), t.skip(k)) {
            let k = choose|k: int| i <= k <= t.len() && #[trigger] glob(p.skip(a + 1), t.skip(k));
            if k > i {
                assert(i + 1 <= k);
            }
        }
    } else {
        assert(t.skip(i).len() == 0);
        assert(glob(q, t.skip(i)) == glob(p.skip(a + 1), t.skip(i)));
        if exists|k: int| i <= k <= t.len() && #[trigger] glob(p.skip(a + 1), t.skip(k)) {
            let k = choose|k: int| i <= k <= t.len() && #[trigger] glob(p.skip(a + 1), t.skip(k));
            assert(k == i);
        }
    }
}

proof fn lemma_star_back(p: Seq<char>, t: Seq<char>, a: int, i: int, j: int)
    requires
        0 <= a < p.len(),
        p[a] == '*',
        0 <= i <= j <= t.len(),
        glob(p.skip(a), t.skip(j)),
    ensures
        glob(p.skip(a), t.skip(i)),
{
    lemma_star(p, t, a, i);
    lemma_star(p, t, a, j);
    let k = choose|k: int| j <= k <= t.len() && #[trigger] glob(p.skip(a + 1), t.skip(k));
    assert(i <= k);
}

/// Whether the pattern describes the whole text. Goes along both texts at once and, on
/// a mismatch, lets the last star take one more character.
pub fn glob_match(pattern: &str, text: &str) -> (r: bool)
    ensures
        r == glob(pattern@, text@),
{
    let p = chars_of(pattern);
    let t = chars_of(text);
    let mut pi: usize = 0;
    let mut ti: usize = 0;
    let mut star: Option<usize> = None;
    let mut mark: usize = 0;
    assert(p@.skip(0) =~= p@);
    assert(t@.skip(0) =~= t@);
    while ti < t.len()
        invariant
            p@ == pattern@,
            t@ == text@,
            pi <= p.len(),
            mark <= ti <= t.len(),
            match star {
                None => glob(p@, t@) == glob(p@.skip(pi as int), t@.skip(ti as int)),
                Some(s) => {
                    &&& s < pi
                    &&& p@[s as int] == '*'
                    &&& mark <= ti
                    &&& pi - s - 1 == ti - mark
                    &&& forall|i: int| s < i < pi ==> p@[i] != '*'
                    &&& glob(p@, t@) == glob(p@.skip(s as int), t@.skip(mark as int))
                    &&& glob(p@.skip(s + 1), t@.skip(mark as int)) == glob(
                        p@.skip(pi as int),
                        t@.skip(ti as int),
                    )
                },
            },
        decreases
                t.len() - mark,
                p.len() - pi,
                t.len() - ti,
    {
        let ghost g = glob(p@.skip(pi as int), t@.skip(ti as int));
        proof {
            if pi < p.len() {
                assert(p@.skip(pi as int)[0] == p@[pi as int]);
                assert(p@.skip(pi as int).drop_first() =~= p@.skip(pi + 1));
            }
            assert(t@.skip(ti as int)[0] == t@[ti as int]);
            assert(t@.skip(ti as int).drop_first() =~= t@.skip(ti + 1));
        }
        if pi < p.len() && p[pi] == '*' {
            proof {
                if let Some(s) = star {
                    lemma_star(p@, t@, s as int, mark as int);
                    if glob(p@, t@) {
                        let k = choose|k: int|
                            mark <= k <= t@.len() && #[trigger] glob(p@.skip(s + 1), t@.skip(k));
                        lemma_segment(p@, t@, s + 1, pi as int, k);
                        lemma_star_back(p@, t@, pi as int, ti as int, k + (pi - s - 1));
                    }
                    if g {
                        assert(glob(p@.skip(s + 1), t@.skip(mark as int)));
                    }
                }
                assert(glob(p@, t@) == glob(p@.skip(pi as int), t@.skip(ti as int)));
            }
            star = Some(pi);
            mark = ti;
            pi = pi + 1;
        } else if pi < p.len() && (p[pi] == '?' || p[pi] == t[ti]) {
            pi = pi + 1;
            ti = ti + 1;
        } else if let Some(s) = star {
            proof {
                lemma_star(p@, t@, s as int, mark as int);
                lemma_star(p@, t@, s as int, mark + 1);
                assert(!g);
                if glob(p@.skip(s as int), t@.skip(mark as int)) {
                    let k = choose|k: int|
                        mark <= k <= t@.len() && #[trigger] glob(p@.skip(s + 1), t@.skip(k));
                    assert(k != mark);
                    assert(mark + 1 <= k);
                }
                assert(glob(p@.skip(s as int), t@.skip(mark as int)) == glob(
                    p@.skip(s as int),
                    t@.skip(mark + 1),
                ));
            }
            pi = s + 1;
            mark = mark + 1;
            ti = mark;
        } else {
            return false;
        }
    }
    let ghost stop = pi as int;
    proof {
        if let Some(s) = star {
            lemma_star(p@, t@, s as int, mark as int);
            if glob(p@, t@) {
                let k = choose|k: int|
                    mark <= k <= t@.len() && #[trigger] glob(p@.skip(s + 1), t@.skip(k));
                lemma_segment(p@, t@, s + 1, pi as int, k);
                assert(k == mark);
            }
        }
        assert(glob(p@, t@) == glob(p@.skip(stop), t@.skip(t@.len() as int)));
    }
    while pi < p.len() && p[pi] == '*'
        invariant
            p@ == pattern@,
            t@ == text@,
            pi <= p.len(),
            glob(p@, t@) == glob(p@.skip(pi as int), t@.skip(t@.len() as int)),
        decreases p.len() - pi,
    {
        proof {
            lemma_star(p@, t@, pi as int, t@.len() as int);
            if glob(p@.skip(pi + 1), t@.skip(t@.len() as int)) {
                assert(t@.len() <= t@.len() && glob(p@.skip(pi + 1), t@.skip(t@.len() as int)));
            }
        }
        pi = pi + 1;
    }
    proof {
        if pi < p.len() {
            assert(p@.skip(pi as int)[0] == p@[pi as int]);
        }
    }
    pi == p.len()
}

/// A star alone matches every text.
pub proof fn star_matches_everything(t: Seq<char>)
    ensures
        glob(seq!['*'], t),
    decreases t.len(),
{
    let p = seq!['*'];
    if t.len() > 0 {
        star_matches_everything(t.drop_first());
    } else {
        assert(p.drop_first().len() == 0);
        assert(glob(p.drop_first(), t));
    }
}

/// A pattern without a star or a question mark matches itself alone.
pub proof fn plain_pattern_matches_itself_only(p: Seq<char>, t: Seq<char>)
    requires
        !is_glob(p),
    ensures
        glob(p, t) <==> p == t,
    decreases p.len(),
{
    if p.len() == 0 {
        assert(p == t <==> t.len() == 0) by {
            if t.len() == 0 {
                assert(p =~= t);
            }
        }
    } else {
        let q = p.drop_first();
        assert(p.contains(p[0]));
        assert forall|i: int| 0 <= i < q.len() implies q[i] != '*' && q[i] != '?' by {
            assert(p.contains(p[i + 1]));
        }
        assert(!is_glob(q));
        if t.len() > 0 {
            plain_pattern_matches_itself_only(q, t.drop_first());
            if p[0] == t[0] && q == t.drop_first() {
                assert(p =~= seq![p[0]] + q);
                assert(t =~= seq![t[0]] + t.drop_first());
            }
        }
    }
}

/// Whether a tail of a path begins at `i`: at its beginning, or behind a slash.
pub open spec fn tail_at(t: Seq<char>, i: int) -> bool {
    0 <= i <= t.len() && (i == 0 || t[i - 1] == '/')
}

/// Whether a pattern describes some tail of a path.
pub open spec fn glob_tail(g: Seq<char>, t: Seq<char>) -> bool {
    exists|i: int| #[trigger] tail_at(t, i) && glob(g, t.skip(i))
}

/// Whether a pattern describes a file: a tail of its path where the pattern has a slash, else its
/// name.
pub open spec fn glob_file(g: Seq<char>, p: PathView) -> bool {
    if g.contains('/') {
        glob_tail(g, path_text(p))
    } else {
        glob(g, name_or_empty(p))
    }
}

/// Whether a negated pattern matches the path.
pub open spec fn glob_forbids(g: Seq<char>, p: PathView) -> bool {
    g.len() > 0 && g[0] == '!' && glob_file(g.drop_first(), p)
}

/// Whether a plain pattern matches the path.
pub open spec fn glob_admits(g: Seq<char>, p: PathView) -> bool {
    !(g.len() > 0 && g[0] == '!') && glob_file(g, p)
}

/// A path passes where no negated pattern matches it and, if there are plain ones,
/// one of them does.
pub open spec fn globs_pass(globs: Seq<Seq<char>>, p: PathView) -> bool {
    &&& forall|i: int| 0 <= i < globs.len() ==> !glob_forbids(#[trigger] globs[i], p)
    &&& (forall|i: int| 0 <= i < globs.len() ==> (#[trigger] globs[i]).len() > 0 && globs[i][0] == '!')
        || (exists|i: int| 0 <= i < globs.len() && glob_admits(#[trigger] globs[i], p))
}

fn matches_tail(g: &str, t: &str) -> (r: bool)
    ensures
        r == glob_tail(g@, t@),
{
    let v = chars_of(t);
    let mut i: usize = 0;
    while i <= v.len()
        invariant
            v@ == t@,
            i <= v.len(),
            forall|j: int| #[trigger] tail_at(t@, j) && j < i ==> !glob(g@, t@.skip(j)),
        decreases v.len() - i,
    {
        if i == 0 || v[i - 1] == '/' {
            let tail = string_of(&v, i, v.len());
            proof {
                assert(tail@ =~= t@.skip(i as int));
                assert(tail_at(t@, i as int));
            }
            if glob_match(g, tail.as_str()) {
                return true;
            }
        }
        if i == v.len() {
            return false;
        }
        i = i + 1;
    }
    false
}

fn matches_file(g: &str, name: &str, full: &str) -> (r: bool)
    ensures
        r == if g@.contains('/') {
            glob_tail(g@, full@)
        } else {
            glob(g@, name@)
        },
{
    if has_char(g, '/') {
        matches_tail(g, full)
    } else {
        glob_match(g, name)
    }
}

/// Whether a path passes the file patterns.
pub fn file_matches_globs(path: &FilePath, globs: &Vec<String>) -> (r: bool)
    ensures
        r == globs_pass(texts(globs@), path@),
{
    let name = path.file_name_text();
    let full = path.to_text();
    let mut positives = false;
    let mut matched_positive = false;
    let ghost gs = texts(globs@);
    let mut i: usize = 0;
    while i < globs.len()
        invariant
            i <= globs.len(),
            gs == texts(globs@),
            name@ == name_or_empty(path@),
            full@ == path_text(path@),
            forall|j: int| 0 <= j < i ==> !glob_forbids(#[trigger] gs[j], path@),
            positives <==> exists|j: int|
                0 <= j < i && !((#[trigger] gs[j]).len() > 0 && gs[j][0] == '!'),
            matched_positive <==> exists|j: int| 0 <= j < i && glob_admits(#[trigger] gs[j], path@),
        decreases globs.len() - i,
    {
        let g = globs[i].clone();
        assert(gs[i as int] == g@);
        proof {
            reveal_strlit("!");
            assert("!"@ =~= seq!['!']);
            if begins(g@, "!"@) {
                assert(g@.take(1)[0] == g@[0]);
            }
            if g@.len() > 0 && g@[0] == '!' {
                assert(g@.take(1) =~= "!"@);
            }
        }
        match strip_prefix(g.as_str(), "!") {
            Some(neg) => {
                assert(neg@ =~= g@.drop_first());
                if matches_file(neg.as_str(), name.as_str(), full.as_str()) {
                    assert(glob_forbids(gs[i as int], path@));
                    return false;
                }
            },
            None => {
                positives = true;
                assert(!(gs[i as int].len() > 0 && gs[i as int][0] == '!'));
                if matches_file(g.as_str(), name.as_str(), full.as_str()) {
                    matched_positive = true;
                    assert(glob_admits(gs[i as int], path@));
                }
            },
        }
        i = i + 1;
    }
    !positives || matched_positive
}

// ── excluded continuations ──────────────────────────────────────────────────

/// The first position at or after `from` at which `p` stands in `t`.
pub open spec fn next_at(t: Seq<char>, p: Seq<char>, from: int) -> Option<int>
    decreases t.len() - from + 1,
{
    if from < 0 || from + p.len() > t.len() {
        None
    } else if occurs_at(t, p, from) {
        Some(from)
    } else {
        next_at(t, p, from + 1)
    }
}

/// The next place of a pattern.
pub proof fn lemma_next_at(t: Seq<char>, p: Seq<char>, from: int, r: Option<int>)
    requires
        0 <= from,
        match r {
            Some(i) => i >= from && occurs_at(t, p, i) && forall|j: int|
                from <= j < i ==> !occurs_at(t, p, j),
            None => forall|j: int| from <= j ==> !occurs_at(t, p, j),
        },
    ensures
        next_at(t, p, from) == r,
    decreases t.len() - from + 1,
{
    if from + p.len() <= t.len() && !occurs_at(t, p, from) {
        lemma_next_at(t, p, from + 1, r);
    }
}

/// Whether some word of `exs` stands in `t` at `i`.
pub open spec fn excluded_at(t: Seq<char>, exs: Seq<Seq<char>>, i: int) -> bool {
    exists|k: int| 0 <= k < exs.len() && occurs_at(t, #[trigger] exs[k], i)
}

/// Whether an occurrence of `inc` begins none of the excluded words.
pub open spec fn free_occurrence(t: Seq<char>, inc: Seq<char>, exs: Seq<Seq<char>>) -> bool {
    exists|i: int| #[trigger] occurs_at(t, inc, i) && !excluded_at(t, exs, i)
}

/// `s` as it is compared: lower case unless case matters.
pub open spec fn folded(s: Seq<char>, case_sensitive: bool) -> Seq<char> {
    if case_sensitive {
        s
    } else {
        lower(s)
    }
}

/// Folds every text.
pub open spec fn folded_all(v: Seq<Seq<char>>, case_sensitive: bool) -> Seq<Seq<char>> {
    Seq::new(v.len(), |i: int| folded(v[i], case_sensitive))
}

/// A line is kept unless every occurrence of the term begins an excluded word. A line
/// in which the term cannot be seen is kept.
pub open spec fn passes_excludes(
    text: Seq<char>,
    term: Seq<char>,
    excludes: Seq<Seq<char>>,
    case_sensitive: bool,
) -> bool {
    let t = folded(text, case_sensitive);
    let inc = folded(term, case_sensitive);
    let exs = folded_all(excludes, case_sensitive);
    excludes.len() == 0 || !occurs(t, inc) || free_occurrence(t, inc, exs)
}

/// Folds a text.
pub fn fold(s: &str, case_sensitive: bool) -> (r: String)
    ensures
        r@ == folded(s@, case_sensitive),
{
    if case_sensitive {
        s.to_owned()
    } else {
        s.to_lowercase()
    }
}

fn any_at(t: &Vec<char>, exs: &Vec<String>, i: usize) -> (r: bool)
    ensures
        r == excluded_at(t@, texts(exs@), i as int),
{
    let mut k: usize = 0;
    while k < exs.len()
        invariant
            k <= exs.len(),
            forall|j: int| 0 <= j < k ==> !occurs_at(t@, #[trigger] texts(exs@)[j], i as int),
        decreases exs.len() - k,
    {
        let e = chars_of(exs[k].as_str());
        if matches_at(t, &e, i) {
            assert(occurs_at(t@, texts(exs@)[k as int], i as int));
            return true;
        }
        k = k + 1;
    }
    false
}

/// Whether a result line is kept, given the words it must not go on with.
pub fn line_passes_excludes(
    text: &str,
    term: &str,
    excludes: &Vec<String>,
    case_sensitive: bool,
) -> (r: bool)
    ensures
        r == passes_excludes(text@, term@, texts(excludes@), case_sensitive),
{
    if excludes.len() == 0 {
        return true;
    }
    let ts = fold(text, case_sensitive);
    let is = fold(term, case_sensitive);
    let t = chars_of(ts.as_str());
    let inc = chars_of(is.as_str());
    let ghost want = folded_all(texts(excludes@), case_sensitive);
    let mut exs: Vec<String> = Vec::new();
    let mut k: usize = 0;
    while k < excludes.len()
        invariant
            k <= excludes.len(),
            want == folded_all(texts(excludes@), case_sensitive),
            exs.len() == k,
            forall|j: int| 0 <= j < k ==> exs@[j]@ == want[j],
        decreases excludes.len() - k,
    {
        exs.push(fold(excludes[k].as_str(), case_sensitive));
        k = k + 1;
    }
    assert(texts(exs@) =~= want);
    let mut found = false;
    let mut i: usize = 0;
    while i <= t.len()
        invariant
            excludes.len() > 0,
            texts(exs@) == want,
            i <= t.len(),
            t@ == folded(text@, case_sensitive),
            inc@ == folded(term@, case_sensitive),
            want == folded_all(texts(excludes@), case_sensitive),
            found ==> occurs(t@, inc@),
            forall|j: int| 0 <= j < i && #[trigger] occurs_at(t@, inc@, j) ==> found && excluded_at(t@, want, j),
        decreases t.len() - i,
    {
        if matches_at(&t, &inc, i) {
            assert(occurs_at(t@, inc@, i as int));
            found = true;
            if !any_at(&t, &exs, i) {
                return true;
            }
        }
        if i == t.len() {
            return !found;
        }
        i = i + 1;
    }
    true
}

/// With nothing excluded every line is kept.
pub proof fn nothing_excluded_keeps_every_line(text: Seq<char>, term: Seq<char>, case_sensitive: bool)
    ensures
        passes_excludes(text, term, Seq::empty(), case_sensitive),
{
}

// ── results ─────────────────────────────────────────────────────────────────

/// One line that was found.
#[derive(Debug)]
pub struct FindResult {
    pub path: FilePath,
    pub line: usize,
    pub text: String,
}

/// What a result says.
pub ghost struct FoundView {
    pub path: PathView,
    pub line: nat,
    pub text: Seq<char>,
}

impl View for FindResult {
    type V = FoundView;

    open spec fn view(&self) -> FoundView {
        FoundView { path: self.path@, line: self.line as nat, text: self.text@ }
    }
}

/// What a list of results says.
pub open spec fn found(v: Seq<FindResult>) -> Seq<FoundView> {
    Seq::new(v.len(), |i: int| v[i]@)
}

proof fn lemma_found_push(v: Seq<FindResult>, r: FindResult)
    ensures
        found(v.push(r)) == found(v).push(r@),
{
    assert(found(v.push(r)) =~= found(v).push(r@));
}

/// The first `n` items, or all where there are fewer.
pub open spec fn clip<T>(s: Seq<T>, n: int) -> Seq<T> {
    if s.len() <= n {
        s
    } else {
        s.take(n)
    }
}

/// A line as it is listed: without its indentation and not too long.
pub open spec fn listed_text(s: Seq<char>) -> Seq<char> {
    clip(trimmed_start(s), FIND_TEXT as int)
}

/// The first `n` characters.
pub fn take_chars(s: &str, n: usize) -> (r: String)
    ensures
        r@ == clip(s@, n as int),
{
    let v = chars_of(s);
    if v.len() <= n {
        s.to_owned()
    } else {
        assert(v@.subrange(0, n as int) =~= s@.take(n as int));
        string_of(&v, 0, n)
    }
}

fn list_text(s: &str) -> (r: String)
    ensures
        r@ == listed_text(s@),
{
    let t = trim_start(s);
    take_chars(t.as_str(), FIND_TEXT)
}

// ── ripgrep ─────────────────────────────────────────────────────────────────

/// The arguments that say how to search, before the patterns.
pub open spec fn rg_options(case_sensitive: bool) -> Seq<Seq<char>> {
    seq![
        "--line-number"@,
        "--no-heading"@,
        "--color=never"@,
        if case_sensitive { "--case-sensitive"@ } else { "--ignore-case"@ },
        "--max-count=50"@,
        "--max-filesize=1M"@,
        "--fixed-strings"@,
    ]
}

/// Every pattern behind its own option.
pub open spec fn rg_globs(globs: Seq<Seq<char>>) -> Seq<Seq<char>>
    decreases globs.len(),
{
    if globs.len() == 0 {
        Seq::empty()
    } else {
        rg_globs(globs.drop_last()).push("--glob"@).push(globs.last())
    }
}

/// The texts of a list of paths.
pub open spec fn scope_texts(scopes: Seq<PathView>) -> Seq<Seq<char>> {
    Seq::new(scopes.len(), |i: int| path_text(scopes[i]))
}

/// The arguments of the ripgrep command: the options, the patterns, and, behind two
/// dashes, the term and the places to look.
pub open spec fn rg_command(
    query: Seq<char>,
    scopes: Seq<PathView>,
    case_sensitive: bool,
    globs: Seq<Seq<char>>,
) -> Seq<Seq<char>> {
    rg_options(case_sensitive) + rg_globs(globs) + seq!["--"@, query] + scope_texts(scopes)
}

fn push_text(v: &mut Vec<String>, s: &str)
    ensures
        texts(final(v)@) == texts(old(v)@).push(s@),
{
    let t = s.to_owned();
    proof {
        lemma_texts_push(v@, t);
    }
    v.push(t);
}

/// The arguments with which ripgrep is run.
pub fn rg_args(
    query: &str,
    scopes: &Vec<FilePath>,
    case_sensitive: bool,
    globs: &Vec<String>,
) -> (r: Vec<String>)
    ensures
        texts(r@) == rg_command(query@, path_views(scopes@), case_sensitive, texts(globs@)),
{
    let mut a: Vec<String> = Vec::new();
    push_text(&mut a, "--line-number");
    push_text(&mut a, "--no-heading");
    push_text(&mut a, "--color=never");
    if case_sensitive {
        push_text(&mut a, "--case-sensitive");
    } else {
        push_text(&mut a, "--ignore-case");
    }
    push_text(&mut a, "--max-count=50");
    push_text(&mut a, "--max-filesize=1M");
    push_text(&mut a, "--fixed-strings");
    assert(texts(a@) =~= rg_options(case_sensitive));
    let ghost gs = texts(globs@);
    let mut i: usize = 0;
    assert(rg_globs(gs.take(0)) =~= Seq::<Seq<char>>::empty());
    assert(texts(a@) =~= rg_options(case_sensitive) + rg_globs(gs.take(0)));
    while i < globs.len()
        invariant
            i <= globs.len(),
            gs == texts(globs@),
            texts(a@) == rg_options(case_sensitive) + rg_globs(gs.take(i as int)),
        decreases globs.len() - i,
    {
        push_text(&mut a, "--glob");
        push_text(&mut a, globs[i].as_str());
        i = i + 1;
        proof {
            assert(gs.take(i as int).drop_last() =~= gs.take(i - 1));
            assert(gs.take(i as int).last() == gs[i - 1]);
            assert(texts(a@) =~= rg_options(case_sensitive) + rg_globs(gs.take(i as int)));
        }
    }
    assert(gs.take(gs.len() as int) =~= gs);
    push_text(&mut a, "--");
    push_text(&mut a, query);
    let ghost head = rg_options(case_sensitive) + rg_globs(gs) + seq!["--"@, query@];
    let ghost tail = scope_texts(path_views(scopes@));
    assert(texts(a@) =~= head + tail.take(0));
    let mut k: usize = 0;
    while k < scopes.len()
        invariant
            k <= scopes.len(),
            tail == scope_texts(path_views(scopes@)),
            texts(a@) == head + tail.take(k as int),
        decreases scopes.len() - k,
    {
        let t = scopes[k].to_text();
        push_text(&mut a, t.as_str());
        k = k + 1;
        assert(texts(a@) =~= head + tail.take(k as int));
    }
    assert(tail.take(tail.len() as int) =~= tail);
    a
}

/// One line of ripgrep's output: a path, a line number and the line, between colons.
pub open spec fn rg_line(l: Seq<char>) -> Option<FoundView> {
    match cut(l, ':') {
        None => None,
        Some((path, rest)) => match cut(rest, ':') {
            None => None,
            Some((no, content)) => match number_to(no, usize::MAX as nat) {
                None => None,
                Some(n) => Some(
                    FoundView { path: path_of(path), line: n, text: listed_text(content) },
                ),
            },
        },
    }
}

/// The results in ripgrep's output lines; a line of another shape is passed over.
pub open spec fn rg_lines(ls: Seq<Seq<char>>) -> Seq<FoundView>
    decreases ls.len(),
{
    if ls.len() == 0 {
        Seq::empty()
    } else {
        match rg_line(ls.last()) {
            Some(f) => rg_lines(ls.drop_last()).push(f),
            None => rg_lines(ls.drop_last()),
        }
    }
}

proof fn lemma_rg_prefix(ls: Seq<Seq<char>>, k: int)
    requires
        0 <= k <= ls.len(),
    ensures
        rg_lines(ls.take(k)).len() <= rg_lines(ls).len(),
        rg_lines(ls.take(k)) == rg_lines(ls).take(rg_lines(ls.take(k)).len() as int),
    decreases ls.len() - k,
{
    if k == ls.len() {
        assert(ls.take(k) =~= ls);
        assert(rg_lines(ls) =~= rg_lines(ls).take(rg_lines(ls).len() as int));
    } else {
        lemma_rg_prefix(ls, k + 1);
        assert(ls.take(k + 1).drop_last() =~= ls.take(k));
        let a = rg_lines(ls.take(k));
        let b = rg_lines(ls.take(k + 1));
        assert(a =~= b.take(a.len() as int));
        assert(b.take(a.len() as int) =~= rg_lines(ls).take(a.len() as int));
    }
}

fn parse_rg_line(l: &str) -> (r: Option<FindResult>)
    ensures
        match r {
            Some(f) => rg_line(l@) == Some(f@),
            None => rg_line(l@) is None,
        },
{
    match split_once(l, ':') {
        None => None,
        Some(a) => match split_once(a.1.as_str(), ':') {
            None => None,
            Some(b) => match parse_usize(b.0.as_str()) {
                None => None,
                Some(n) => Some(
                    FindResult {
                        path: FilePath::parse(a.0.as_str()),
                        line: n,
                        text: list_text(b.1.as_str()),
                    },
                ),
            },
        },
    }
}

/// Reads ripgrep's output.
pub fn parse_rg(stdout: &str) -> (r: Vec<FindResult>)
    ensures
        found(r@) == clip(rg_lines(line_seq(stdout@)), FIND_CAP as int),
{
    let ls = lines(stdout);
    let ghost all = texts(ls@);
    let mut out: Vec<FindResult> = Vec::new();
    let mut i: usize = 0;
    assert(all.take(0) =~= Seq::<Seq<char>>::empty());
    assert(found(out@) =~= Seq::<FoundView>::empty());
    while i < ls.len() && out.len() < FIND_CAP
        invariant
            i <= ls.len(),
            all == texts(ls@),
            out.len() <= FIND_CAP,
            found(out@) == rg_lines(all.take(i as int)),
        decreases ls.len() - i,
    {
        proof {
            assert(all.take(i + 1).drop_last() =~= all.take(i as int));
            assert(all.take(i + 1).last() == all[i as int]);
        }
        match parse_rg_line(ls[i].as_str()) {
            Some(f) => {
                proof {
                    lemma_found_push(out@, f);
                }
                out.push(f);
            },
            None => {},
        }
        i = i + 1;
    }
    proof {
        lemma_rg_prefix(all, i as int);
        assert(all.take(all.len() as int) =~= all);
        assert(found(out@).len() == out@.len());
        let whole = rg_lines(all);
        if whole.len() <= FIND_CAP && i < ls.len() {
            assert(whole.take(whole.len() as int) =~= whole);
        }
    }
    out
}

// ── searching without ripgrep ───────────────────────────────────────────────

/// The results in the lines `ls[..n]` of the file `p`.
pub open spec fn hits(p: PathView, ls: Seq<Seq<char>>, term: Seq<char>, case_sensitive: bool, n: int) -> Seq<FoundView>
    decreases n,
{
    if n <= 0 {
        Seq::empty()
    } else {
        let h = hits(p, ls, term, case_sensitive, n - 1);
        if occurs(folded(ls[n - 1], case_sensitive), folded(term, case_sensitive)) {
            h.push(FoundView { path: p, line: n as nat, text: listed_text(ls[n - 1]) })
        } else {
            h
        }
    }
}

/// The results in the whole file.
pub open spec fn file_hits(p: PathView, content: Seq<char>, term: Seq<char>, case_sensitive: bool) -> Seq<FoundView> {
    hits(p, line_seq(content), term, case_sensitive, line_seq(content).len() as int)
}

proof fn lemma_hits_prefix(p: PathView, ls: Seq<Seq<char>>, term: Seq<char>, cs: bool, k: int, n: int)
    requires
        0 <= k <= n <= ls.len(),
    ensures
        hits(p, ls, term, cs, k).len() <= hits(p, ls, term, cs, n).len(),
        hits(p, ls, term, cs, k) == hits(p, ls, term, cs, n).take(
            hits(p, ls, term, cs, k).len() as int,
        ),
    decreases n - k,
{
    let a = hits(p, ls, term, cs, k);
    if k == n {
        assert(a =~= a.take(a.len() as int));
    } else {
        lemma_hits_prefix(p, ls, term, cs, k, n - 1);
        let b = hits(p, ls, term, cs, n - 1);
        let c = hits(p, ls, term, cs, n);
        assert(c.take(a.len() as int) =~= b.take(a.len() as int));
    }
}

/// Whether a file takes part in the search: not too large, and admitted by the patterns.
pub fn file_searched(path: &FilePath, size: u64, globs: &Vec<String>) -> (r: bool)
    ensures
        r == (size <= FIND_FILE_MAX && globs_pass(texts(globs@), path@)),
{
    if size > FIND_FILE_MAX {
        return false;
    }
    file_matches_globs(path, globs)
}

/// Adds the lines of a file that hold the term to the results, up to the cap.
pub fn search_file(
    path: &FilePath,
    content: &str,
    term: &str,
    case_sensitive: bool,
    out: &mut Vec<FindResult>,
)
    ensures
        found(final(out)@) == if old(out).len() >= FIND_CAP {
            found(old(out)@)
        } else {
            clip(
                found(old(out)@) + file_hits(path@, content@, term@, case_sensitive),
                FIND_CAP as int,
            )
        },
{
    if out.len() >= FIND_CAP {
        return;
    }
    let ghost before = found(out@);
    let q = fold(term, case_sensitive);
    let ls = lines(content);
    let ghost all = texts(ls@);
    let mut i: usize = 0;
    assert(found(out@) =~= before + hits(path@, all, term@, case_sensitive, 0));
    while i < ls.len() && out.len() < FIND_CAP
        invariant
            i <= ls.len(),
            all == texts(ls@),
            q@ == folded(term@, case_sensitive),
            out.len() <= FIND_CAP,
            found(out@) == before + hits(path@, all, term@, case_sensitive, i as int),
        decreases ls.len() - i,
    {
        let hay = fold(ls[i].as_str(), case_sensitive);
        if contains(hay.as_str(), q.as_str()) {
            let f = FindResult {
                path: path.copy(),
                line: i + 1,
                text: list_text(ls[i].as_str()),
            };
            proof {
                lemma_found_push(out@, f);
                assert(f@ == FoundView { path: path@, line: (i + 1) as nat, text: listed_text(all[i as int]) });
            }
            out.push(f);
        }
        i = i + 1;
        assert(found(out@) =~= before + hits(path@, all, term@, case_sensitive, i as int));
    }
    proof {
        let h = hits(path@, all, term@, case_sensitive, i as int);
        let w = file_hits(path@, content@, term@, case_sensitive);
        lemma_hits_prefix(path@, all, term@, case_sensitive, i as int, all.len() as int);
        assert(found(out@).len() == out@.len());
        if i < ls.len() {
            assert(h =~= w.take(h.len() as int));
            if (before + w).len() <= FIND_CAP {
                assert(before + w =~= before + h);
            } else {
                assert((before + w).take(FIND_CAP as int) =~= before + h);
            }
        }
    }
}

/// Never more results than the cap.
pub proof fn results_stay_within_the_cap(p: PathView, content: Seq<char>, term: Seq<char>, case_sensitive: bool, before: Seq<FoundView>)
    requires
        before.len() <= FIND_CAP,
    ensures
        clip(before + file_hits(p, content, term, case_sensitive), FIND_CAP as int).len() <= FIND_CAP,
        clip(rg_lines(line_seq(content)), FIND_CAP as int).len() <= FIND_CAP,
{
}

/// The results whose line passes the excluded words.
pub open spec fn refined(
    v: Seq<FoundView>,
    term: Seq<char>,
    excludes: Seq<Seq<char>>,
    case_sensitive: bool,
) -> Seq<FoundView> {
    v.filter(|f: FoundView| passes_excludes(f.text, term, excludes, case_sensitive))
}

/// Drops the results whose line does not pass the excluded words.
pub fn refine_results(
    v: Vec<FindResult>,
    term: &str,
    excludes: &Vec<String>,
    case_sensitive: bool,
) -> (r: Vec<FindResult>)
    ensures
        found(r@) == refined(found(v@), term@, texts(excludes@), case_sensitive),
{
    let ghost keep = |f: FoundView| passes_excludes(f.text, term@, texts(excludes@), case_sensitive);
    let ghost all = found(v@);
    let mut out: Vec<FindResult> = Vec::new();
    let mut i: usize = 0;
    proof {
        reveal(Seq::filter);
        assert(all.take(0) =~= Seq::<FoundView>::empty());
        assert(found(out@) =~= all.take(0).filter(keep));
    }
    while i < v.len()
        invariant
            i <= v.len(),
            all == found(v@),
            keep == (|f: FoundView| passes_excludes(f.text, term@, texts(excludes@), case_sensitive)),
            found(out@) == all.take(i as int).filter(keep),
        decreases v.len() - i,
    {
        proof {
            reveal(Seq::filter);
            assert(all.take(i + 1).drop_last() =~= all.take(i as int));
            assert(all.take(i + 1).last() == all[i as int]);
        }
        if line_passes_excludes(v[i].text.as_str(), term, excludes, case_sensitive) {
            let f = FindResult { path: v[i].path.copy(), line: v[i].line, text: v[i].text.clone() };
            proof {
                lemma_found_push(out@, f);
                assert(f@ == all[i as int]);
            }
            out.push(f);
        }
        i = i + 1;
    }
    assert(all.take(all.len() as int) =~= all);
    out
}

// ── what a search finds ─────────────────────────────────────────────────────

/// Whether a line holds a term: as it is where case matters, else with both in lower case.
pub open spec fn line_holds(l: Seq<char>, term: Seq<char>, case_sensitive: bool) -> bool {
    (case_sensitive && occurs(l, term)) || (!case_sensitive && occurs(lower(l), lower(term)))
}

/// Whether a result is that of line `n` of a file, counted from 0.
pub open spec fn is_hit(f: FoundView, p: PathView, l: Seq<char>, n: int) -> bool {
    f.path == p && f.line == n + 1 && f.text == listed_text(l)
}

proof fn lemma_hits(p: PathView, ls: Seq<Seq<char>>, term: Seq<char>, cs: bool, n: int)
    requires
        0 <= n <= ls.len(),
    ensures
        forall|k: int|
            0 <= k < hits(p, ls, term, cs, n).len() ==> {
                let f = #[trigger] hits(p, ls, term, cs, n)[k];
                &&& 1 <= f.line <= n
                &&& line_holds(ls[f.line - 1], term, cs)
                &&& is_hit(f, p, ls[f.line - 1], f.line - 1)
            },
        forall|j: int, k: int|
            #![trigger hits(p, ls, term, cs, n)[j], hits(p, ls, term, cs, n)[k]]
            0 <= j < k < hits(p, ls, term, cs, n).len() ==> hits(p, ls, term, cs, n)[j].line < hits(p, ls, term, cs, n)[k].line,
        forall|m: int|
            0 <= m < n && line_holds(#[trigger] ls[m], term, cs) ==> exists|k: int|
                0 <= k < hits(p, ls, term, cs, n).len() && is_hit(#[trigger] hits(p, ls, term, cs, n)[k], p, ls[m], m),
    decreases n,
{
    if n > 0 {
        lemma_hits(p, ls, term, cs, n - 1);
        let a = hits(p, ls, term, cs, n - 1);
        let h = hits(p, ls, term, cs, n);
        assert forall|m: int| 0 <= m < n && line_holds(#[trigger] ls[m], term, cs) implies exists|k: int|
            0 <= k < h.len() && is_hit(#[trigger] h[k], p, ls[m], m) by {
            if m < n - 1 {
                let k = choose|k: int| 0 <= k < a.len() && is_hit(#[trigger] a[k], p, ls[m], m);
                assert(h[k] == a[k]);
            } else {
                assert(is_hit(h[h.len() - 1], p, ls[m], m));
            }
        }
        assert forall|k: int| 0 <= k < h.len() implies {
            let f = #[trigger] h[k];
            &&& 1 <= f.line <= n
            &&& line_holds(ls[f.line - 1], term, cs)
            &&& is_hit(f, p, ls[f.line - 1], f.line - 1)
        } by {
            if k < a.len() {
                assert(h[k] == a[k]);
            }
        }
        assert forall|j: int, k: int| #![trigger h[j], h[k]] 0 <= j < k < h.len() implies h[j].line < h[k].line by {
            assert(h[j] == a[j]);
            if k < a.len() {
                assert(h[k] == a[k]);
            }
        }
    }
}

/// A line of a file is among the results exactly where it holds the term, each line once and in
/// their order, under its number counted from 1.
pub proof fn every_line_with_the_term_is_found(p: PathView, content: Seq<char>, term: Seq<char>, case_sensitive: bool)
    ensures
        forall|n: int|
            0 <= n < line_seq(content).len() ==> ((exists|k: int|
                0 <= k < file_hits(p, content, term, case_sensitive).len() && is_hit(
                    #[trigger] file_hits(p, content, term, case_sensitive)[k],
                    p,
                    line_seq(content)[n],
                    n,
                )) <==> line_holds(#[trigger] line_seq(content)[n], term, case_sensitive)),
        forall|k: int|
            0 <= k < file_hits(p, content, term, case_sensitive).len() ==> {
                let f = #[trigger] file_hits(p, content, term, case_sensitive)[k];
                1 <= f.line <= line_seq(content).len() && is_hit(f, p, line_seq(content)[f.line - 1], f.line - 1)
            },
        forall|j: int, k: int|
            #![trigger file_hits(p, content, term, case_sensitive)[j], file_hits(p, content, term, case_sensitive)[k]]
            0 <= j < k < file_hits(p, content, term, case_sensitive).len() ==> file_hits(p, content, term, case_sensitive)[j].line
                < file_hits(p, content, term, case_sensitive)[k].line,
{
    let ls = line_seq(content);
    lemma_hits(p, ls, term, case_sensitive, ls.len() as int);
    let h = file_hits(p, content, term, case_sensitive);
    assert(h == hits(p, ls, term, case_sensitive, ls.len() as int));
    assert forall|n: int| 0 <= n < ls.len() implies ((exists|k: int|
        0 <= k < h.len() && is_hit(#[trigger] h[k], p, ls[n], n)) <==> line_holds(#[trigger] ls[n], term, case_sensitive)) by {
        if exists|k: int| 0 <= k < h.len() && is_hit(#[trigger] h[k], p, ls[n], n) {
            let k = choose|k: int| 0 <= k < h.len() && is_hit(#[trigger] h[k], p, ls[n], n);
            assert(h[k].line - 1 == n);
        }
    }
}

/// A result shows its line without its indentation: the whole of it, or the first two hundred
/// characters.
pub proof fn results_show_their_line(l: Seq<char>)
    ensures
        listed_text(l).len() <= 200,
        trimmed_start(l).len() <= 200 ==> listed_text(l) == trimmed_start(l),
        trimmed_start(l).len() > 200 ==> listed_text(l) == trimmed_start(l).subrange(0, 200),
        occurs(l, listed_text(l)),
        listed_text(l).len() > 0 ==> !is_space(listed_text(l)[0]),
{
    let t = trimmed_start(l);
    lemma_trimmed_start(l);
    let r = listed_text(l);
    let i = l.len() - t.len();
    assert(r =~= l.subrange(i, i + r.len()));
    assert(occurs_at(l, r, i));
    if t.len() > 200 {
        assert(t.take(200) =~= t.subrange(0, 200));
    }
}

/// Up to five hundred results are all kept; of more, the first five hundred.
pub proof fn five_hundred_results_are_kept(v: Seq<FoundView>)
    ensures
        v.len() <= 500 ==> clip(v, FIND_CAP as int) == v,
        v.len() > 500 ==> clip(v, FIND_CAP as int) == v.subrange(0, 500),
{
    if v.len() > 500 {
        assert(v.take(500) =~= v.subrange(0, 500));
    }
}

/// Whether one of some words stands in a text at a place.
pub open spec fn word_stands(t: Seq<char>, words: Seq<Seq<char>>, i: int) -> bool {
    exists|k: int| 0 <= k < words.len() && occurs_at(t, #[trigger] words[k], i)
}

/// With words to exclude, a line that holds the term is kept exactly where the term stands at a
/// place at which no excluded word does; here with case as it is.
pub proof fn excluded_continuations_drop_a_line(text: Seq<char>, term: Seq<char>, excludes: Seq<Seq<char>>)
    requires
        occurs(text, term),
        excludes.len() > 0,
    ensures
        passes_excludes(text, term, excludes, true) <==> exists|i: int|
            #[trigger] occurs_at(text, term, i) && !word_stands(text, excludes, i),
{
    let exs = folded_all(excludes, true);
    assert(exs =~= excludes);
    assert forall|i: int| excluded_at(text, exs, i) == word_stands(text, excludes, i) by {}
}

/// Without regard to case the same holds of the line, the term and the words in lower case.
pub proof fn excludes_disregard_case(text: Seq<char>, term: Seq<char>, excludes: Seq<Seq<char>>)
    ensures
        passes_excludes(text, term, excludes, false) == passes_excludes(
            lower(text),
            lower(term),
            excludes.map_values(|e: Seq<char>| lower(e)),
            true,
        ),
{
    let low = excludes.map_values(|e: Seq<char>| lower(e));
    assert(folded_all(excludes, false) =~= folded_all(low, true));
}

/// Results that are dropped for an excluded word are all that is dropped: each of those that stay
/// was there, in the same order, and each that passes stays.
pub proof fn refining_keeps_what_passes(v: Seq<FoundView>, term: Seq<char>, excludes: Seq<Seq<char>>, case_sensitive: bool, f: FoundView)
    ensures
        refined(v, term, excludes, case_sensitive).contains(f) <==> v.contains(f) && passes_excludes(f.text, term, excludes, case_sensitive),
        excludes.len() == 0 ==> refined(v, term, excludes, case_sensitive) == v,
    decreases v.len(),
{
    let keep = |f: FoundView| passes_excludes(f.text, term, excludes, case_sensitive);
    reveal(Seq::filter);
    let r = refined(v, term, excludes, case_sensitive);
    if v.len() > 0 {
        let w = v.drop_last();
        refining_keeps_what_passes(w, term, excludes, case_sensitive, f);
        let q = refined(w, term, excludes, case_sensitive);
        let x = v.last();
        assert(r == if keep(x) { q.push(x) } else { q });
        assert(v.contains(f) <==> w.contains(f) || f == x) by {
            if w.contains(f) {
                let k = choose|k: int| 0 <= k < w.len() && w[k] == f;
                assert(v[k] == f);
            }
            assert(v[v.len() - 1] == x);
            if v.contains(f) && f != x {
                let k = choose|k: int| 0 <= k < v.len() && v[k] == f;
                assert(w[k] == f);
            }
        }
        if keep(x) {
            assert(r.contains(f) <==> q.contains(f) || f == x) by {
                if q.contains(f) {
                    let k = choose|k: int| 0 <= k < q.len() && q[k] == f;
                    assert(r[k] == f);
                }
                assert(r[r.len() - 1] == x);
                if r.contains(f) && f != x {
                    let k = choose|k: int| 0 <= k < r.len() && r[k] == f;
                    assert(q[k] == f);
                }
            }
        }
        if excludes.len() == 0 {
            assert(w.push(x) =~= v);
        }
    } else if excludes.len() == 0 {
        assert(r =~= v);
    }
}

// ── what a query box says ───────────────────────────────────────────────────

/// Whether a word has a star or a question mark in it.
pub open spec fn has_wildcard(s: Seq<char>) -> bool {
    exists|i: int| 0 <= i < s.len() && (#[trigger] s[i] == '*' || s[i] == '?')
}

/// Whether a word has a dash in front and something behind it.
pub open spec fn has_dash(s: Seq<char>) -> bool {
    s.len() >= 2 && s[0] == '-'
}

proof fn lemma_wildcard(s: Seq<char>)
    ensures
        is_glob(s) == has_wildcard(s),
{
    if s.contains('*') {
        let i = choose|i: int| 0 <= i < s.len() && s[i] == '*';
        assert(s[i] == '*');
    }
    if s.contains('?') {
        let i = choose|i: int| 0 <= i < s.len() && s[i] == '?';
        assert(s[i] == '?');
    }
}

/// Each further word goes to one place: one with a dash and no wildcard is excluded, one with a
/// wildcard and no dash is a file pattern, one with both is a negated pattern, and any other word
/// is searched for.
pub proof fn a_word_goes_to_one_place(w: Seq<Seq<char>>, x: Seq<char>)
    ensures
        has_dash(x) && !has_wildcard(x.skip(1)) ==> excluded(w.push(x)) == excluded(w).push(x.skip(1)) && included(w.push(x)) == included(w)
            && globbed(w.push(x)) == globbed(w),
        !has_dash(x) && has_wildcard(x) ==> globbed(w.push(x)) == globbed(w).push(x) && included(w.push(x)) == included(w)
            && excluded(w.push(x)) == excluded(w),
        has_dash(x) && has_wildcard(x.skip(1)) ==> globbed(w.push(x)) == globbed(w).push(seq!['!'] + x.skip(1)) && included(w.push(x))
            == included(w) && excluded(w.push(x)) == excluded(w),
        !has_dash(x) && !has_wildcard(x) ==> included(w.push(x)) == included(w).push(x) && excluded(w.push(x)) == excluded(w)
            && globbed(w.push(x)) == globbed(w),
        included(Seq::empty()).len() == 0 && excluded(Seq::empty()).len() == 0 && globbed(Seq::empty()).len() == 0,
{
    lemma_wildcard(x);
    lemma_wildcard(x.drop_first());
    assert(x.drop_first() =~= x.skip(1));
    assert(w.push(x).drop_last() =~= w);
}

/// Plain words, typed with a blank between any two, are searched for as they were typed.
pub proof fn plain_words_are_the_term(v: Seq<Seq<char>>)
    requires
        forall|i: int|
            0 <= i < v.len() ==> (#[trigger] v[i]).len() > 0 && !has_dash(v[i]) && !has_wildcard(v[i]) && forall|k: int|
                0 <= k < v[i].len() ==> !is_space(#[trigger] v[i][k]),
    ensures
        query_of(joined(v, seq![' '])) == (QueryView {
            term: joined(v, seq![' ']),
            excludes: Seq::empty(),
            globs: Seq::empty(),
        }),
{
    words_undo_joining(v);
    lemma_plain_included(v);
}

proof fn lemma_plain_included(v: Seq<Seq<char>>)
    requires
        forall|i: int| 0 <= i < v.len() ==> !has_dash(#[trigger] v[i]) && !has_wildcard(v[i]),
    ensures
        included(v) == v,
        excluded(v) == Seq::<Seq<char>>::empty(),
        globbed(v) == Seq::<Seq<char>>::empty(),
    decreases v.len(),
{
    if v.len() > 0 {
        let t = v.drop_last();
        assert forall|i: int| 0 <= i < t.len() implies !has_dash(#[trigger] t[i]) && !has_wildcard(t[i]) by {
            assert(t[i] == v[i]);
        }
        lemma_plain_included(t);
        lemma_wildcard(v.last());
        assert(v[v.len() - 1] == v.last());
        assert(t.push(v.last()) =~= v);
    } else {
        assert(included(v) =~= v);
    }
}

// ── what patterns match ─────────────────────────────────────────────────────

proof fn lemma_literal_front(a: Seq<char>, p: Seq<char>, t: Seq<char>)
    requires
        forall|i: int| 0 <= i < a.len() ==> #[trigger] a[i] != '*' && a[i] != '?',
    ensures
        glob(a + p, t) <==> begins(t, a) && glob(p, t.skip(a.len() as int)),
    decreases a.len(),
{
    if a.len() == 0 {
        assert(a + p =~= p);
        assert(t.skip(0) =~= t);
        assert(t.take(0) =~= a);
    } else {
        let b = a.drop_first();
        assert forall|i: int| 0 <= i < b.len() implies #[trigger] b[i] != '*' && b[i] != '?' by {
            assert(b[i] == a[i + 1]);
        }
        let q = a + p;
        assert(q[0] == a[0]);
        assert(a[0] != '*' && a[0] != '?');
        assert(q.drop_first() =~= b + p);
        if t.len() > 0 {
            lemma_literal_front(b, p, t.drop_first());
            if a.len() <= t.len() {
                assert(t.drop_first().skip(b.len() as int) =~= t.skip(a.len() as int));
            }
            if begins(t, a) {
                assert(t[0] == t.take(a.len() as int)[0]);
                assert(t.drop_first().take(b.len() as int) =~= b) by {
                    assert(t.take(a.len() as int).drop_first() =~= t.drop_first().take(b.len() as int));
                }
            }
            if t[0] == a[0] && begins(t.drop_first(), b) {
                assert(t.take(a.len() as int) =~= seq![t[0]] + t.drop_first().take(b.len() as int));
                assert(a =~= seq![a[0]] + b);
            }
        }
    }
}

/// A star between two plain parts matches the texts that begin with the one and end with the other,
/// the two not overlapping.
pub proof fn star_stands_for_any_run(a: Seq<char>, b: Seq<char>, t: Seq<char>)
    requires
        forall|i: int| 0 <= i < a.len() ==> #[trigger] a[i] != '*' && a[i] != '?',
        forall|i: int| 0 <= i < b.len() ==> #[trigger] b[i] != '*' && b[i] != '?',
    ensures
        glob(a + (seq!['*'] + b), t) <==> a.len() + b.len() <= t.len() && begins(t, a) && finishes(t, b),
{
    let p = seq!['*'] + b;
    lemma_literal_front(a, p, t);
    if begins(t, a) {
        let u = t.skip(a.len() as int);
        lemma_star(p, u, 0, 0);
        assert(p.skip(0) =~= p);
        assert(p.skip(1) =~= b);
        assert(u.skip(0) =~= u);
        let e = Seq::<char>::empty();
        assert(b + e =~= b);
        if glob(p, u) {
            let k = choose|k: int| 0 <= k <= u.len() && #[trigger] glob(p.skip(1), u.skip(k));
            lemma_literal_front(b, e, u.skip(k));
            assert(glob(e, u.skip(k).skip(b.len() as int)));
            assert(u.skip(k).len() == b.len());
            assert(u.skip(k).take(b.len() as int) =~= u.skip(k));
            assert(t.skip(t.len() - b.len()) =~= u.skip(k));
        }
        if a.len() + b.len() <= t.len() && finishes(t, b) {
            let k = u.len() - b.len();
            assert(u.skip(k) =~= t.skip(t.len() - b.len()));
            lemma_literal_front(b, e, u.skip(k));
            assert(u.skip(k).take(b.len() as int) =~= u.skip(k));
            assert(u.skip(k).skip(b.len() as int) =~= e);
            assert(glob(p.skip(1), u.skip(k)));
        }
    }
}

/// A question mark stands for one character, whatever it is.
pub proof fn question_mark_stands_for_one(a: Seq<char>, b: Seq<char>, t: Seq<char>)
    requires
        forall|i: int| 0 <= i < a.len() ==> #[trigger] a[i] != '*' && a[i] != '?',
        forall|i: int| 0 <= i < b.len() ==> #[trigger] b[i] != '*' && b[i] != '?',
    ensures
        glob(a + (seq!['?'] + b), t) <==> a.len() + 1 + b.len() == t.len() && begins(t, a) && finishes(t, b),
{
    let p = seq!['?'] + b;
    lemma_literal_front(a, p, t);
    if begins(t, a) {
        let u = t.skip(a.len() as int);
        assert(p[0] == '?');
        assert(p.drop_first() =~= b);
        let e = Seq::<char>::empty();
        assert(b + e =~= b);
        if u.len() > 0 {
            let w = u.drop_first();
            lemma_literal_front(b, e, w);
            assert(w =~= t.skip(a.len() as int + 1));
            if glob(b, w) {
                assert(w.skip(b.len() as int).len() == 0);
                assert(w.take(b.len() as int) =~= w);
            }
            if w.len() == b.len() {
                assert(w.take(b.len() as int) =~= w);
                assert(t.skip(t.len() - b.len()) =~= w);
                assert(w.skip(b.len() as int) =~= e);
            }
        }
    }
}

/// A pattern with an exclamation mark keeps out the files that the rest of it matches, and admits
/// none; among plain patterns one that matches is enough.
pub proof fn patterns_admit_and_keep_out(globs: Seq<Seq<char>>, g: Seq<char>, p: PathView)
    ensures
        globs_pass(globs.push(seq!['!'] + g), p) <==> globs_pass(globs, p) && !glob_file(g, p),
        globs_pass(Seq::empty(), p),
        g.len() == 0 || g[0] != '!' ==> (globs_pass(seq![g], p) <==> glob_file(g, p)),
        (g.len() == 0 || g[0] != '!') && globs_pass(globs, p) && glob_file(g, p) ==> globs_pass(globs.push(g), p),
{
    let n = seq!['!'] + g;
    assert(n.drop_first() =~= g);
    assert(n[0] == '!');
    let v = globs.push(n);
    assert(v[v.len() - 1] == n);
    assert forall|i: int| 0 <= i < globs.len() implies v[i] == #[trigger] globs[i] by {}
    if globs_pass(v, p) {
        assert forall|i: int| 0 <= i < globs.len() implies !glob_forbids(#[trigger] globs[i], p) by {
            assert(v[i] == globs[i]);
        }
        if forall|i: int| 0 <= i < v.len() ==> (#[trigger] v[i]).len() > 0 && v[i][0] == '!' {
            assert forall|i: int| 0 <= i < globs.len() implies (#[trigger] globs[i]).len() > 0 && globs[i][0] == '!' by {
                assert(v[i] == globs[i]);
            }
        } else {
            let i = choose|i: int| 0 <= i < v.len() && glob_admits(#[trigger] v[i], p);
            assert(i < globs.len());
            assert(glob_admits(globs[i], p));
        }
        assert(!glob_forbids(v[v.len() - 1], p));
    }
    if globs_pass(globs, p) && !glob_file(g, p) {
        assert forall|i: int| 0 <= i < v.len() implies !glob_forbids(#[trigger] v[i], p) by {
            if i < globs.len() {
                assert(v[i] == globs[i]);
            }
        }
        if forall|i: int| 0 <= i < globs.len() ==> (#[trigger] globs[i]).len() > 0 && globs[i][0] == '!' {
            assert forall|i: int| 0 <= i < v.len() implies (#[trigger] v[i]).len() > 0 && v[i][0] == '!' by {
                if i < globs.len() {
                    assert(v[i] == globs[i]);
                }
            }
        } else {
            let i = choose|i: int| 0 <= i < globs.len() && glob_admits(#[trigger] globs[i], p);
            assert(glob_admits(v[i], p));
        }
    }
    if g.len() == 0 || g[0] != '!' {
        let one = seq![g];
        assert(one[0] == g);
        let w = globs.push(g);
        assert(w[w.len() - 1] == g);
        if glob_file(g, p) {
            assert(glob_admits(one[0], p));
            assert(glob_admits(w[w.len() - 1], p));
        }
        if globs_pass(one, p) {
            assert(!(one[0].len() > 0 && one[0][0] == '!'));
        }
        if globs_pass(globs, p) && glob_file(g, p) {
            assert forall|i: int| 0 <= i < w.len() implies !glob_forbids(#[trigger] w[i], p) by {
                if i < globs.len() {
                    assert(w[i] == globs[i]);
                }
            }
        }
    }
}

/// A pattern without a slash is about the name of a file, one with a slash about the end of its
/// path.
pub proof fn patterns_are_about_names_or_tails(g: Seq<char>, p: PathView, i: int)
    ensures
        !g.contains('/') ==> glob_file(g, p) == glob(g, name_or_empty(p)),
        g.contains('/') && glob(g, path_text(p)) ==> glob_file(g, p),
        g.contains('/') && 0 < i <= path_text(p).len() && path_text(p)[i - 1] == '/' && glob(g, path_text(p).skip(i)) ==> glob_file(g, p),
{
    let t = path_text(p);
    assert(t.skip(0) =~= t);
    assert(tail_at(t, 0));
    if 0 < i <= t.len() && t[i - 1] == '/' {
        assert(tail_at(t, i));
    }
}

/// Files of up to a megabyte are searched, and terms of two bytes or more.
pub proof fn limits_of_a_search(term: Seq<char>)
    ensures
        FIND_FILE_MAX == 1024 * 1024,
        query_runs(term, 1) <==> utf8_len(term) >= 2,
        !query_runs(term, 0),
{
}

// ── what ripgrep is told and what it says ───────────────────────────────────

proof fn lemma_rg_count(globs: Seq<Seq<char>>)
    ensures
        rg_globs(globs).len() == 2 * globs.len(),
    decreases globs.len(),
{
    if globs.len() > 0 {
        lemma_rg_count(globs.drop_last());
    }
}

proof fn lemma_rg_globs(globs: Seq<Seq<char>>, i: int)
    requires
        0 <= i < globs.len(),
    ensures
        rg_globs(globs)[2 * i] == "--glob"@,
        rg_globs(globs)[2 * i + 1] == globs[i],
    decreases globs.len(),
{
    let t = globs.drop_last();
    let q = rg_globs(t);
    let r = rg_globs(globs);
    lemma_rg_count(t);
    assert(r == q.push("--glob"@).push(globs.last()));
    if i < t.len() {
        lemma_rg_globs(t, i);
        assert(globs[i] == t[i]);
        assert(r[2 * i] == q[2 * i]);
        assert(r[2 * i + 1] == q[2 * i + 1]);
    }
}

/// Whether a pattern stands behind its option, which stands at `i`.
pub open spec fn glob_option(c: Seq<Seq<char>>, i: int, g: Seq<char>) -> bool {
    c[i] == "--glob"@ && c[i + 1] == g
}

/// Ripgrep is told to print line numbers without headings or colours, to take the term as it is, to
/// mind case or not, each pattern behind its own option, and, behind two dashes, the term and
/// the places to look.
pub proof fn ripgrep_is_told_what_to_look_for(query: Seq<char>, scopes: Seq<PathView>, case_sensitive: bool, globs: Seq<Seq<char>>)
    ensures
        ({
            let c = rg_command(query, scopes, case_sensitive, globs);
            let n = globs.len() as int;
            &&& c.len() == 9 + 2 * n + scopes.len()
            &&& c[0] == "--line-number"@ && c[1] == "--no-heading"@ && c[2] == "--color=never"@
            &&& case_sensitive ==> c[3] == "--case-sensitive"@
            &&& !case_sensitive ==> c[3] == "--ignore-case"@
            &&& c[4] == "--max-count=50"@ && c[5] == "--max-filesize=1M"@ && c[6] == "--fixed-strings"@
            &&& forall|i: int| 0 <= i < n ==> glob_option(c, 7 + 2 * i, #[trigger] globs[i])
            &&& c[7 + 2 * n] == "--"@ && c[8 + 2 * n] == query
            &&& forall|i: int| 0 <= i < scopes.len() ==> c[9 + 2 * n + i] == path_text(#[trigger] scopes[i])
        }),
{
    let c = rg_command(query, scopes, case_sensitive, globs);
    let n = globs.len() as int;
    lemma_rg_count(globs);
    assert forall|i: int| 0 <= i < n implies glob_option(c, 7 + 2 * i, #[trigger] globs[i]) by {
        let g = rg_globs(globs);
        lemma_rg_globs(globs, i);
        let o = rg_options(case_sensitive);
        assert(o.len() == 7);
        assert((o + g)[7 + 2 * i] == g[2 * i]);
        assert((o + g)[8 + 2 * i] == g[2 * i + 1]);
        assert(c[7 + 2 * i] == (o + g)[7 + 2 * i]);
        assert(c[8 + 2 * i] == (o + g)[8 + 2 * i]);
    }
}

/// A line that ripgrep prints, a path, a number and the text between colons, is read as a result in
/// that file and line.
pub proof fn ripgrep_lines_are_read(path: Seq<char>, n: nat, text: Seq<char>)
    requires
        !path.contains(':'),
        n <= usize::MAX,
    ensures
        rg_line(path + seq![':'] + (dec(n) + seq![':'] + text)) == Some(
            FoundView { path: path_of(path), line: n, text: listed_text(text) },
        ),
{
    let rest = dec(n) + seq![':'] + text;
    cutting_undoes_joining(path, rest, ':');
    lemma_dec_has_no(n, ':');
    cutting_undoes_joining(dec(n), text, ':');
    reading_undoes_writing(n);
}

/// Each line of the output adds its result, in the order of the lines.
pub proof fn ripgrep_results_keep_their_order(a: Seq<Seq<char>>, l: Seq<char>)
    ensures
        rg_lines(a.push(l)) == match rg_line(l) {
            Some(f) => rg_lines(a).push(f),
            None => rg_lines(a),
        },
        rg_lines(Seq::empty()).len() == 0,
        !l.contains(':') ==> rg_line(l) is None,
{
    assert(a.push(l).drop_last() =~= a);
    cutting_parts_the_text(l, ':');
    if let Some((x, y)) = cut(l, ':') {
        assert(l[x.len() as int] == ':');
    }
}

proof fn lemma_dec_has_no(n: nat, c: char)
    requires
        !('0' <= c && c <= '9'),
    ensures
        !dec(n).contains(c),
    decreases n,
{
    digits_count_in_tens(n / 10, n % 10);
    let d = dec(n);
    if n >= 10 {
        lemma_dec_has_no(n / 10, c);
        if d.contains(c) {
            let k = choose|k: int| 0 <= k < d.len() && d[k] == c;
            if k < d.len() - 1 {
                assert(dec(n / 10)[k] == c);
                assert(dec(n / 10).contains(c));
            }
        }
    }
}

} // verus!
