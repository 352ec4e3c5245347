//! Text primitives. A text is a sequence of characters; every function here is
//! stated over that sequence.
use vstd::prelude::*;
use vstd::string::*;

verus! {

/// `String::push` appends one character.
pub assume_specification[ String::push ](s: &mut String, c: char)
    ensures
        final(s)@ == old(s)@.push(c),
;

/// What `char::is_alphanumeric` answers for `c`.
pub uninterp spec fn alphanumeric(c: char) -> bool;

/// `char::is_alphanumeric` is a fixed property of the character: membership of
/// Unicode's alphabetic or numeric characters, whose tables are not written out.
pub assume_specification[ char::is_alphanumeric ](c: char) -> (r: bool)
    ensures
        r == alphanumeric(c),
;

/// What `str::to_lowercase` makes of `s`.
pub uninterp spec fn lower(s: Seq<char>) -> Seq<char>;

/// `str::to_lowercase` depends on the text alone; Unicode's case tables are not
/// written out.
pub assume_specification[ str::to_lowercase ](s: &str) -> (r: String)
    ensures
        r@ == lower(s@),
;

/// The contents of a list of strings.
pub open spec fn texts(v: Seq<String>) -> Seq<Seq<char>> {
    Seq::new(v.len(), |i: int| v[i]@)
}

/// Adding a string adds its characters.
pub proof fn lemma_texts_push(v: Seq<String>, s: String)
    ensures
        texts(v.push(s)) == texts(v).push(s@),
{
    assert(texts(v.push(s)) =~= texts(v).push(s@));
}

/// What `f` makes of the items, those left out for which it makes nothing.
pub open spec fn filter_map<A, B>(s: Seq<A>, f: spec_fn(A) -> Option<B>) -> Seq<B>
    decreases s.len(),
{
    if s.len() == 0 {
        Seq::empty()
    } else {
        match f(s.last()) {
            Some(b) => filter_map(s.drop_last(), f).push(b),
            None => filter_map(s.drop_last(), f),
        }
    }
}

/// One more item adds what it is mapped to, if anything.
pub proof fn lemma_filter_map_step<A, B>(s: Seq<A>, f: spec_fn(A) -> Option<B>, i: int)
    requires
        0 <= i < s.len(),
    ensures
        filter_map(s.take(i + 1), f) == match f(s[i]) {
            Some(b) => filter_map(s.take(i), f).push(b),
            None => filter_map(s.take(i), f),
        },
{
    assert(s.take(i + 1).drop_last() =~= s.take(i));
    assert(s.take(i + 1).last() == s[i]);
}

/// Nothing is mapped of no items, and all of all.
pub proof fn lemma_filter_map_ends<A, B>(s: Seq<A>, f: spec_fn(A) -> Option<B>)
    ensures
        filter_map(s.take(0), f) == Seq::<B>::empty(),
        filter_map(s.take(s.len() as int), f) == filter_map(s, f),
{
    assert(s.take(0).len() == 0);
    assert(s.take(s.len() as int) =~= s);
}

/// How many bytes `s` takes in UTF-8.
pub open spec fn utf8_len(s: Seq<char>) -> nat {
    vstd::utf8::encode_utf8(s).len()
}

/// How many bytes `s` takes.
pub fn byte_len(s: &str) -> (r: usize)
    ensures
        r as nat == utf8_len(s@),
{
    s.as_bytes().len()
}

/// The lengths of two texts add up.
pub proof fn lemma_utf8_concat(a: Seq<char>, b: Seq<char>)
    ensures
        utf8_len(a + b) == utf8_len(a) + utf8_len(b),
    decreases a.len(),
{
    if a.len() == 0 {
        assert(a + b =~= b);
    } else {
        assert((a + b).drop_first() =~= a.drop_first() + b);
        lemma_utf8_concat(a.drop_first(), b);
    }
}

/// A text takes at least one byte for each character.
pub proof fn lemma_utf8_at_least(s: Seq<char>)
    ensures
        s.len() <= utf8_len(s),
    decreases s.len(),
{
    if s.len() > 0 {
        lemma_utf8_at_least(s.drop_first());
        lemma_utf8_concat(seq![s[0]], s.drop_first());
        assert(seq![s[0]] + s.drop_first() =~= s);
        assert(seq![s[0]].drop_first() =~= Seq::<char>::empty());
    }
}

/// A text takes as many bytes as its two parts together.
pub proof fn lemma_utf8_split(s: Seq<char>, k: int)
    requires
        0 <= k <= s.len(),
    ensures
        utf8_len(s.take(k)) + utf8_len(s.skip(k)) == utf8_len(s),
{
    lemma_utf8_concat(s.take(k), s.skip(k));
    assert(s.take(k) + s.skip(k) =~= s);
}

/// The characters of a string, as a vector.
pub fn chars_of(s: &str) -> (r: Vec<char>)
    ensures
        r@ == s@,
{
    let mut v: Vec<char> = Vec::new();
    for c in it: s.chars()
        invariant
            it.seq() == s@,
            v@ == s@.take(it.index() as int),
    {
        v.push(c);
        assert(v@ =~= s@.take(it.index() as int + 1));
    }
    assert(s@.take(s@.len() as int) =~= s@);
    v
}

/// The string made of the characters `v[a..b]`.
pub fn string_of(v: &Vec<char>, a: usize, b: usize) -> (r: String)
    requires
        a <= b <= v.len(),
    ensures
        r@ == v@.subrange(a as int, b as int),
{
    let mut s = String::new();
    let mut i: usize = a;
    while i < b
        invariant
            a <= i <= b <= v.len(),
            s@ == v@.subrange(a as int, i as int),
        decreases b - i,
    {
        s.push(v[i]);
        i = i + 1;
        assert(s@ =~= v@.subrange(a as int, i as int));
    }
    s
}

/// Whether two texts are the same.
pub fn same(a: &str, b: &str) -> (r: bool)
    ensures
        r == (a@ == b@),
{
    let x: String = a.to_owned();
    let y: String = b.to_owned();
    x == y
}

/// `a` followed by `b`.
pub fn cat(a: &str, b: &str) -> (r: String)
    ensures
        r@ == a@ + b@,
{
    let mut s = a.to_owned();
    s.append(b);
    s
}

/// `a`, `b` and `c` in a row.
pub fn cat3(a: &str, b: &str, c: &str) -> (r: String)
    ensures
        r@ == a@ + b@ + c@,
{
    let mut s = a.to_owned();
    s.append(b);
    s.append(c);
    s
}

// ── white space and trimming ────────────────────────────────────────────────

/// Whether `c` has Unicode's `White_Space` property.
pub open spec fn is_space(c: char) -> bool {
    let n = c as u32;
    9 <= n <= 13 || n == 0x20 || n == 0x85 || n == 0xa0 || n == 0x1680 || 0x2000 <= n <= 0x200a
        || n == 0x2028 || n == 0x2029 || n == 0x202f || n == 0x205f || n == 0x3000
}

/// Whether `c` is white space.
pub fn space(c: char) -> (r: bool)
    ensures
        r == is_space(c),
{
    let n: u32 = c as u32;
    (9 <= n && n <= 13) || n == 0x20 || n == 0x85 || n == 0xa0 || n == 0x1680 || (0x2000 <= n && n
        <= 0x200a) || n == 0x2028 || n == 0x2029 || n == 0x202f || n == 0x205f || n == 0x3000
}

/// `s` without its leading white space.
pub open spec fn trimmed_start(s: Seq<char>) -> Seq<char>
    decreases s.len(),
{
    if s.len() > 0 && is_space(s[0]) {
        trimmed_start(s.drop_first())
    } else {
        s
    }
}

/// `s` without its trailing white space.
pub open spec fn trimmed_end(s: Seq<char>) -> Seq<char>
    decreases s.len(),
{
    if s.len() > 0 && is_space(s.last()) {
        trimmed_end(s.drop_last())
    } else {
        s
    }
}

/// `s` without white space at either end.
pub open spec fn trimmed(s: Seq<char>) -> Seq<char> {
    trimmed_end(trimmed_start(s))
}

/// Removes leading white space.
pub fn trim_start(s: &str) -> (r: String)
    ensures
        r@ == trimmed_start(s@),
{
    let v = chars_of(s);
    let mut i: usize = 0;
    assert(s@.skip(0) =~= s@);
    while i < v.len() && space(v[i])
        invariant
            i <= v.len(),
            v@ == s@,
            trimmed_start(s@.skip(i as int)) == trimmed_start(s@),
        decreases v.len() - i,
    {
        assert(s@.skip(i as int).drop_first() =~= s@.skip(i + 1));
        i = i + 1;
    }
    assert(v@.subrange(i as int, v@.len() as int) =~= s@.skip(i as int));
    string_of(&v, i, v.len())
}

/// Removes trailing white space.
pub fn trim_end(s: &str) -> (r: String)
    ensures
        r@ == trimmed_end(s@),
{
    let v = chars_of(s);
    let mut n: usize = v.len();
    assert(s@.take(s@.len() as int) =~= s@);
    while n > 0 && space(v[n - 1])
        invariant
            n <= v.len(),
            v@ == s@,
            trimmed_end(s@.take(n as int)) == trimmed_end(s@),
        decreases n,
    {
        assert(s@.take(n as int).drop_last() =~= s@.take(n - 1));
        n = n - 1;
    }
    assert(v@.subrange(0, n as int) =~= s@.take(n as int));
    string_of(&v, 0, n)
}

/// Removes white space at both ends.
pub fn trim(s: &str) -> (r: String)
    ensures
        r@ == trimmed(s@),
{
    let a = trim_start(s);
    trim_end(&a)
}

/// `s` without the characters `c` at its end.
pub open spec fn without_trailing(s: Seq<char>, c: char) -> Seq<char>
    decreases s.len(),
{
    if s.len() > 0 && s.last() == c {
        without_trailing(s.drop_last(), c)
    } else {
        s
    }
}

/// Removes every `c` at the end.
pub fn trim_end_char(s: &str, c: char) -> (r: String)
    ensures
        r@ == without_trailing(s@, c),
{
    let v = chars_of(s);
    let mut n: usize = v.len();
    assert(s@.take(s@.len() as int) =~= s@);
    while n > 0 && v[n - 1] == c
        invariant
            n <= v.len(),
            v@ == s@,
            without_trailing(s@.take(n as int), c) == without_trailing(s@, c),
        decreases n,
    {
        assert(s@.take(n as int).drop_last() =~= s@.take(n - 1));
        n = n - 1;
    }
    assert(v@.subrange(0, n as int) =~= s@.take(n as int));
    string_of(&v, 0, n)
}

/// Trimming the start leaves no white space in front and is a suffix.
pub proof fn lemma_trimmed_start(s: Seq<char>)
    ensures
        trimmed_start(s).len() <= s.len(),
        trimmed_start(s) == s.skip(s.len() - trimmed_start(s).len()),
        trimmed_start(s).len() > 0 ==> !is_space(trimmed_start(s)[0]),
    decreases s.len(),
{
    if s.len() > 0 && is_space(s[0]) {
        lemma_trimmed_start(s.drop_first());
        let t = trimmed_start(s);
        assert(s.drop_first().skip(s.len() - 1 - t.len()) =~= s.skip(s.len() - t.len()));
    } else {
        assert(s.skip(0) =~= s);
    }
}

/// Trimming the end leaves no white space behind and is a prefix.
pub proof fn lemma_trimmed_end(s: Seq<char>)
    ensures
        trimmed_end(s).len() <= s.len(),
        trimmed_end(s) == s.take(trimmed_end(s).len() as int),
        trimmed_end(s).len() > 0 ==> !is_space(trimmed_end(s).last()),
    decreases s.len(),
{
    if s.len() > 0 && is_space(s.last()) {
        lemma_trimmed_end(s.drop_last());
        let t = trimmed_end(s);
        assert(s.drop_last().take(t.len() as int) =~= s.take(t.len() as int));
    } else {
        assert(s.take(s.len() as int) =~= s);
    }
}

/// Trimming twice is trimming once.
pub proof fn trimming_is_idempotent(s: Seq<char>)
    ensures
        trimmed(trimmed(s)) == trimmed(s),
{
    let a = trimmed_start(s);
    let b = trimmed_end(a);
    lemma_trimmed_start(s);
    lemma_trimmed_end(a);
    if b.len() > 0 {
        assert(b[0] == a[0]);
    }
}

// ── prefixes, suffixes and occurrences ──────────────────────────────────────

/// Whether `s` begins with `p`.
pub open spec fn begins(s: Seq<char>, p: Seq<char>) -> bool {
    p.len() <= s.len() && s.take(p.len() as int) == p
}

/// Whether `s` finishes with `p`.
pub open spec fn finishes(s: Seq<char>, p: Seq<char>) -> bool {
    p.len() <= s.len() && s.skip(s.len() - p.len()) == p
}

/// Whether `p` stands in `s` at position `i`.
pub open spec fn occurs_at(s: Seq<char>, p: Seq<char>, i: int) -> bool {
    0 <= i && i + p.len() <= s.len() && s.subrange(i, i + p.len()) == p
}

/// Whether `p` stands anywhere in `s`.
pub open spec fn occurs(s: Seq<char>, p: Seq<char>) -> bool {
    exists|i: int| occurs_at(s, p, i)
}

/// Whether `p` stands in `v` at position `i`.
pub fn matches_at(v: &Vec<char>, p: &Vec<char>, i: usize) -> (r: bool)
    ensures
        r == occurs_at(v@, p@, i as int),
{
    if i > v.len() || p.len() > v.len() - i {
        return false;
    }
    let mut k: usize = 0;
    while k < p.len()
        invariant
            k <= p.len(),
            i + p.len() <= v.len(),
            v@.subrange(i as int, i + k) == p@.take(k as int),
        decreases p.len() - k,
    {
        if v[i + k] != p[k] {
            proof {
                let w = v@.subrange(i as int, i + p@.len());
                assert(w[k as int] != p@[k as int]);
            }
            return false;
        }
        k = k + 1;
        assert(v@.subrange(i as int, i + k) =~= p@.take(k as int));
    }
    assert(p@.take(p@.len() as int) =~= p@);
    true
}

/// The first position at or after `from` at which `p` stands in `v`.
pub fn find_from(v: &Vec<char>, p: &Vec<char>, from: usize) -> (r: Option<usize>)
    ensures
        match r {
            Some(i) => i >= from && occurs_at(v@, p@, i as int) && forall|j: int|
                from <= j < i ==> !occurs_at(v@, p@, j),
            None => forall|j: int| from <= j ==> !occurs_at(v@, p@, j),
        },
{
    if p.len() > v.len() {
        return None;
    }
    let last: usize = v.len() - p.len();
    let mut i: usize = from;
    while i <= last
        invariant
            from <= i,
            last == v.len() - p.len(),
            i <= v.len() + 1 || i == from,
            forall|j: int| from <= j < i ==> !occurs_at(v@, p@, j),
        decreases v.len() + 1 - i,
    {
        if matches_at(v, p, i) {
            return Some(i);
        }
        if i == last {
            return None;
        }
        i = i + 1;
    }
    None
}

/// Whether `p` stands anywhere in `s`.
pub fn contains(s: &str, p: &str) -> (r: bool)
    ensures
        r == occurs(s@, p@),
{
    let v = chars_of(s);
    let q = chars_of(p);
    match find_from(&v, &q, 0) {
        Some(i) => {
            assert(occurs_at(s@, p@, i as int));
            true
        },
        None => false,
    }
}

/// Whether `c` stands anywhere in `s`.
pub fn has_char(s: &str, c: char) -> (r: bool)
    ensures
        r == s@.contains(c),
{
    let v = chars_of(s);
    let mut i: usize = 0;
    while i < v.len()
        invariant
            i <= v.len(),
            v@ == s@,
            forall|j: int| 0 <= j < i ==> s@[j] != c,
        decreases v.len() - i,
    {
        if v[i] == c {
            return true;
        }
        i = i + 1;
    }
    false
}

/// Whether `s` begins with `p`.
pub fn starts_with(s: &str, p: &str) -> (r: bool)
    ensures
        r == begins(s@, p@),
{
    let v = chars_of(s);
    let q = chars_of(p);
    let r = matches_at(&v, &q, 0);
    assert(p@.len() <= s@.len() ==> s@.subrange(0, p@.len() as int) =~= s@.take(p@.len() as int));
    r
}

/// Whether `s` finishes with `p`.
pub fn ends_with(s: &str, p: &str) -> (r: bool)
    ensures
        r == finishes(s@, p@),
{
    let v = chars_of(s);
    let q = chars_of(p);
    if q.len() > v.len() {
        return false;
    }
    let r = matches_at(&v, &q, v.len() - q.len());
    assert(s@.subrange(s@.len() - p@.len(), s@.len() as int) =~= s@.skip(s@.len() - p@.len()));
    r
}

/// `s` without the prefix `p`, where it begins with it.
pub open spec fn after_prefix(s: Seq<char>, p: Seq<char>) -> Option<Seq<char>> {
    if begins(s, p) {
        Some(s.skip(p.len() as int))
    } else {
        None
    }
}

/// The contents of an optional string.
pub open spec fn opt_text(o: Option<String>) -> Option<Seq<char>> {
    match o {
        Some(s) => Some(s@),
        None => None,
    }
}

/// Removes the prefix `p`, where `s` begins with it.
pub fn strip_prefix(s: &str, p: &str) -> (r: Option<String>)
    ensures
        opt_text(r) == after_prefix(s@, p@),
{
    if starts_with(s, p) {
        let v = chars_of(s);
        let q = chars_of(p);
        assert(v@.subrange(q@.len() as int, v@.len() as int) =~= s@.skip(p@.len() as int));
        Some(string_of(&v, q.len(), v.len()))
    } else {
        None
    }
}

/// `s` without the suffix `p`, where it finishes with it.
pub open spec fn before_suffix(s: Seq<char>, p: Seq<char>) -> Option<Seq<char>> {
    if finishes(s, p) {
        Some(s.take(s.len() - p.len()))
    } else {
        None
    }
}

/// Removes the suffix `p`, where `s` finishes with it.
pub fn strip_suffix(s: &str, p: &str) -> (r: Option<String>)
    ensures
        opt_text(r) == before_suffix(s@, p@),
{
    if ends_with(s, p) {
        let v = chars_of(s);
        let q = chars_of(p);
        assert(v@.subrange(0, v@.len() - q@.len()) =~= s@.take(s@.len() - p@.len()));
        Some(string_of(&v, 0, v.len() - q.len()))
    } else {
        None
    }
}

/// The position of the first `c` in `s`; the length of `s` where there is none.
pub open spec fn first_char(s: Seq<char>, c: char) -> int
    decreases s.len(),
{
    if s.len() == 0 || s[0] == c {
        0
    } else {
        1 + first_char(s.drop_first(), c)
    }
}

/// The first place of a character is in the text exactly where the character is.
pub proof fn lemma_first_char(s: Seq<char>, c: char)
    ensures
        0 <= first_char(s, c) <= s.len(),
        first_char(s, c) < s.len() ==> s[first_char(s, c)] == c,
        forall|j: int| 0 <= j < first_char(s, c) ==> s[j] != c,
        first_char(s, c) == s.len() <==> !s.contains(c),
    decreases s.len(),
{
    if s.len() > 0 && s[0] != c {
        let t = s.drop_first();
        lemma_first_char(t, c);
        assert forall|j: int| 0 <= j < first_char(s, c) implies s[j] != c by {
            if j > 0 {
                assert(s[j] == t[j - 1]);
            }
        }
        if first_char(s, c) == s.len() {
            assert(!s.contains(c));
        }
        if first_char(s, c) < s.len() {
            assert(s[first_char(s, c)] == c);
        }
    }
    if s.len() > 0 && s[0] == c {
        assert(s.contains(c));
    }
}

/// Splits at the first `c`: what stands before it and what stands after it.
pub open spec fn cut(s: Seq<char>, c: char) -> Option<(Seq<char>, Seq<char>)> {
    let i = first_char(s, c);
    if i < s.len() {
        Some((s.take(i), s.skip(i + 1)))
    } else {
        None
    }
}

/// The contents of an optional pair of strings.
pub open spec fn opt_texts(o: Option<(String, String)>) -> Option<(Seq<char>, Seq<char>)> {
    match o {
        Some(p) => Some((p.0@, p.1@)),
        None => None,
    }
}

/// Splits at the first `c`.
pub fn split_once(s: &str, c: char) -> (r: Option<(String, String)>)
    ensures
        opt_texts(r) == cut(s@, c),
{
    let v = chars_of(s);
    proof {
        lemma_first_char(s@, c);
    }
    let mut i: usize = 0;
    while i < v.len()
        invariant
            i <= v.len(),
            v@ == s@,
            i <= first_char(s@, c) <= s@.len(),
            first_char(s@, c) < s@.len() ==> s@[first_char(s@, c)] == c,
            forall|j: int| 0 <= j < first_char(s@, c) ==> s@[j] != c,
        decreases v.len() - i,
    {
        if v[i] == c {
            let a = string_of(&v, 0, i);
            let b = string_of(&v, i + 1, v.len());
            assert(v@.subrange(0, i as int) =~= s@.take(i as int));
            assert(v@.subrange(i + 1, v@.len() as int) =~= s@.skip(i + 1));
            return Some((a, b));
        }
        i = i + 1;
    }
    None
}

// ── splitting and joining ───────────────────────────────────────────────────

/// The pieces of `s` between the separators: always at least one.
pub open spec fn pieces(s: Seq<char>, sep: char) -> Seq<Seq<char>>
    decreases s.len(),
{
    if s.len() == 0 {
        seq![Seq::<char>::empty()]
    } else {
        let p = pieces(s.drop_last(), sep);
        if s.last() == sep {
            p.push(Seq::<char>::empty())
        } else {
            p.drop_last().push(p.last().push(s.last()))
        }
    }
}

/// There is always a piece, and no piece holds the separator.
pub proof fn lemma_pieces_nonempty(s: Seq<char>, sep: char)
    ensures
        pieces(s, sep).len() >= 1,
        forall|i: int| 0 <= i < pieces(s, sep).len() ==> !(#[trigger] pieces(s, sep)[i]).contains(sep),
    decreases s.len(),
{
    if s.len() > 0 {
        lemma_pieces_nonempty(s.drop_last(), sep);
        let p = pieces(s.drop_last(), sep);
        assert forall|i: int| 0 <= i < pieces(s, sep).len() implies !(#[trigger] pieces(
            s,
            sep,
        )[i]).contains(sep) by {
            let q = pieces(s, sep)[i];
            if i < p.len() - 1 {
                assert(q == p[i]);
            } else if i == p.len() - 1 {
                assert(!p.last().contains(sep));
                if s.last() != sep {
                    assert(q == p.last().push(s.last()));
                    assert forall|k: int| 0 <= k < q.len() implies q[k] != sep by {
                        if k < p.last().len() {
                            assert(q[k] == p.last()[k]);
                            assert(p.last().contains(p.last()[k]));
                        }
                    }
                }
            }
        }
    }
}

/// Splits at every `sep`.
pub fn split(s: &str, sep: char) -> (r: Vec<String>)
    ensures
        texts(r@) == pieces(s@, sep),
{
    let v = chars_of(s);
    let mut out: Vec<String> = Vec::new();
    let mut cur = String::new();
    let mut i: usize = 0;
    assert(s@.take(0) =~= Seq::<char>::empty());
    assert(texts(out@).push(cur@) =~= seq![Seq::<char>::empty()]);
    while i < v.len()
        invariant
            i <= v.len(),
            v@ == s@,
            texts(out@).push(cur@) == pieces(s@.take(i as int), sep),
        decreases v.len() - i,
    {
        let c = v[i];
        proof {
            assert(s@.take(i + 1).drop_last() =~= s@.take(i as int));
            let p = texts(out@).push(cur@);
            assert(p.drop_last() =~= texts(out@));
        }
        if c == sep {
            proof {
                lemma_texts_push(out@, cur);
            }
            out.push(cur);
            cur = String::new();
        } else {
            cur.push(c);
        }
        i = i + 1;
    }
    assert(s@.take(s@.len() as int) =~= s@);
    proof {
        lemma_texts_push(out@, cur);
    }
    out.push(cur);
    out
}

/// The pieces joined with `sep` between them.
pub open spec fn joined(v: Seq<Seq<char>>, sep: Seq<char>) -> Seq<char>
    decreases v.len(),
{
    if v.len() == 0 {
        Seq::empty()
    } else if v.len() == 1 {
        v[0]
    } else {
        joined(v.drop_last(), sep) + sep + v.last()
    }
}

/// Joins the strings with `sep` between them.
pub fn join(v: &Vec<String>, sep: &str) -> (r: String)
    ensures
        r@ == joined(texts(v@), sep@),
{
    let mut s = String::new();
    let mut i: usize = 0;
    while i < v.len()
        invariant
            i <= v.len(),
            s@ == joined(texts(v@).take(i as int), sep@),
        decreases v.len() - i,
    {
        if i > 0 {
            s.append(sep);
        }
        s.append(v[i].as_str());
        proof {
            let t = texts(v@).take(i + 1);
            assert(t.drop_last() =~= texts(v@).take(i as int));
            assert(t.last() == v@[i as int]@);
            if i == 0 {
                assert(s@ =~= v@[0]@);
                assert(t.len() == 1);
            }
        }
        i = i + 1;
    }
    assert(texts(v@).take(v@.len() as int) =~= texts(v@));
    s
}

/// Joining what was split gives the text back.
pub proof fn join_undoes_split(s: Seq<char>, sep: char)
    ensures
        joined(pieces(s, sep), seq![sep]) == s,
    decreases s.len(),
{
    lemma_pieces_nonempty(s, sep);
    if s.len() > 0 {
        let t = s.drop_last();
        join_undoes_split(t, sep);
        lemma_pieces_nonempty(t, sep);
        let p = pieces(t, sep);
        let q = pieces(s, sep);
        if s.last() == sep {
            assert(q.drop_last() =~= p);
            assert(joined(q, seq![sep]) =~= t + seq![sep]);
            assert(t + seq![sep] =~= s);
        } else {
            let x = p.last().push(s.last());
            assert(q.drop_last() =~= p.drop_last());
            assert(q.last() == x);
            if p.len() == 1 {
                assert(q.len() == 1);
                assert(q[0] =~= s);
            } else {
                assert(joined(p, seq![sep]) == joined(p.drop_last(), seq![sep]) + seq![sep] + p.last());
                assert(joined(q, seq![sep]) =~= t.push(s.last()));
            }
            assert(t.push(s.last()) =~= s);
        }
    }
}

/// `s` without one carriage return at its end.
pub open spec fn without_cr(s: Seq<char>) -> Seq<char> {
    if s.len() > 0 && s.last() == '\r' {
        s.drop_last()
    } else {
        s
    }
}

/// The lines of `s`: a newline, with or without a carriage return before it, ends a
/// line; a last line without one counts too unless it is empty.
pub open spec fn line_seq(s: Seq<char>) -> Seq<Seq<char>> {
    let p = pieces(s, '\n');
    let ended = Seq::new((p.len() - 1) as nat, |i: int| without_cr(p[i]));
    if p.last().len() == 0 {
        ended
    } else {
        ended.push(p.last())
    }
}

/// Splits into lines.
pub fn lines(s: &str) -> (r: Vec<String>)
    ensures
        texts(r@) == line_seq(s@),
{
    let p = split(s, '\n');
    proof {
        lemma_pieces_nonempty(s@, '\n');
    }
    let mut out: Vec<String> = Vec::new();
    let n: usize = p.len() - 1;
    let ghost ended = Seq::new(n as nat, |i: int| without_cr(texts(p@)[i]));
    let mut i: usize = 0;
    assert(texts(out@) =~= ended.take(0));
    while i < n
        invariant
            i <= n,
            n == p.len() - 1,
            ended == Seq::new(n as nat, |i: int| without_cr(texts(p@)[i])),
            texts(out@) == ended.take(i as int),
        decreases n - i,
    {
        let v = chars_of(p[i].as_str());
        let l = if v.len() > 0 && v[v.len() - 1] == '\r' {
            assert(v@.subrange(0, v@.len() - 1) =~= v@.drop_last());
            string_of(&v, 0, v.len() - 1)
        } else {
            p[i].clone()
        };
        proof {
            lemma_texts_push(out@, l);
            assert(l@ == ended[i as int]);
            assert(ended.take(i + 1) =~= ended.take(i as int).push(l@));
        }
        out.push(l);
        i = i + 1;
    }
    assert(ended.take(n as int) =~= ended);
    if !p[n].as_str().is_empty() {
        proof {
            lemma_texts_push(out@, p@[n as int]);
        }
        out.push(p[n].clone());
    }
    proof {
        assert(texts(p@) == pieces(s@, '\n'));
        assert(ended =~= Seq::new((pieces(s@, '\n').len() - 1) as nat, |i: int| without_cr(pieces(s@, '\n')[i])));
    }
    out
}

/// The pieces of `s` between runs of white space, none of them empty.
pub open spec fn words_of(s: Seq<char>) -> Seq<Seq<char>>
    decreases s.len(),
{
    if s.len() == 0 {
        Seq::empty()
    } else {
        let w = words_of(s.drop_last());
        if is_space(s.last()) {
            w
        } else if s.len() >= 2 && !is_space(s[s.len() - 2]) {
            w.drop_last().push(w.last().push(s.last()))
        } else {
            w.push(seq![s.last()])
        }
    }
}

proof fn lemma_words_open(s: Seq<char>)
    requires
        s.len() > 0,
        !is_space(s.last()),
    ensures
        words_of(s).len() > 0,
    decreases s.len(),
{
    if s.len() >= 2 && !is_space(s[s.len() - 2]) {
        lemma_words_open(s.drop_last());
    }
}

/// Splits at runs of white space.
pub fn words(s: &str) -> (r: Vec<String>)
    ensures
        texts(r@) == words_of(s@),
{
    let v = chars_of(s);
    let mut out: Vec<String> = Vec::new();
    let mut cur = String::new();
    let mut i: usize = 0;
    assert(s@.take(0) =~= Seq::<char>::empty());
    assert(texts(out@) =~= Seq::<Seq<char>>::empty());
    while i < v.len()
        invariant
            i <= v.len(),
            v@ == s@,
            cur@.len() > 0 <==> (i > 0 && !is_space(s@[i - 1])),
            words_of(s@.take(i as int)) == if cur@.len() > 0 {
                texts(out@).push(cur@)
            } else {
                texts(out@)
            },
        decreases v.len() - i,
    {
        let c = v[i];
        proof {
            let t = s@.take(i + 1);
            assert(t.drop_last() =~= s@.take(i as int));
            if i > 0 {
                assert(t[t.len() - 2] == s@[i - 1]);
            }
            assert(texts(out@).push(cur@).drop_last() =~= texts(out@));
        }
        if space(c) {
            if !cur.as_str().is_empty() {
                proof {
                    lemma_texts_push(out@, cur);
                }
                out.push(cur);
                cur = String::new();
            }
        } else {
            let ghost before = cur@;
            cur.push(c);
            assert(before.len() == 0 ==> cur@ =~= seq![c]);
        }
        i = i + 1;
    }
    assert(s@.take(s@.len() as int) =~= s@);
    if !cur.as_str().is_empty() {
        proof {
            lemma_texts_push(out@, cur);
        }
        out.push(cur);
    }
    out
}

// ── numbers ─────────────────────────────────────────────────────────────────

/// The character of the digit `d`.
pub open spec fn digit_char(d: nat) -> char {
    ('0' as u32 + d as u32) as char
}

/// `n` written in decimal.
pub open spec fn dec(n: nat) -> Seq<char>
    decreases n,
{
    if n < 10 {
        seq![digit_char(n)]
    } else {
        dec(n / 10).push(digit_char(n % 10))
    }
}

/// The digit that `c` stands for.
pub open spec fn digit_value(c: char) -> Option<nat> {
    if '0' <= c && c <= '9' {
        Some((c as u32 - '0' as u32) as nat)
    } else {
        None
    }
}

/// The number that a row of digits stands for.
pub open spec fn digits_value(s: Seq<char>) -> Option<nat>
    decreases s.len(),
{
    if s.len() == 0 {
        Some(0)
    } else {
        match (digits_value(s.drop_last()), digit_value(s.last())) {
            (Some(n), Some(d)) => Some(n * 10 + d),
            _ => None,
        }
    }
}

/// The number that `s` spells: digits, at least one, with an optional plus sign.
pub open spec fn number(s: Seq<char>) -> Option<nat> {
    let d = if s.len() > 0 && s[0] == '+' {
        s.drop_first()
    } else {
        s
    };
    if d.len() == 0 {
        None
    } else {
        digits_value(d)
    }
}

/// The number that `s` spells, where it is at most `max`.
pub open spec fn number_to(s: Seq<char>, max: nat) -> Option<nat> {
    match number(s) {
        Some(n) if n <= max => Some(n),
        _ => None,
    }
}

proof fn lemma_digits_grow(s: Seq<char>, k: int)
    requires
        0 <= k <= s.len(),
    ensures
        digits_value(s) is Some ==> digits_value(s.take(k)) is Some && digits_value(s.take(k))->0
            <= digits_value(s)->0,
    decreases s.len() - k,
{
    if k == s.len() {
        assert(s.take(k) =~= s);
    } else {
        lemma_digits_grow(s, k + 1);
        assert(s.take(k + 1).drop_last() =~= s.take(k));
    }
}

/// Reads a number that is at most `max`.
pub fn parse_number(s: &str, max: u64) -> (r: Option<u64>)
    ensures
        match r {
            Some(n) => number_to(s@, max as nat) == Some(n as nat),
            None => number_to(s@, max as nat) is None,
        },
{
    let v = chars_of(s);
    let start: usize = if v.len() > 0 && v[0] == '+' {
        1
    } else {
        0
    };
    if v.len() == start {
        return None;
    }
    let ghost d = s@.skip(start as int);
    assert(start == 0 ==> d =~= s@);
    assert(start == 1 ==> d =~= s@.drop_first());
    let mut n: u64 = 0;
    let mut i: usize = start;
    assert(d.take(0) =~= Seq::<char>::empty());
    while i < v.len()
        invariant
            start <= i <= v.len(),
            start <= 1,
            v@ == s@,
            v.len() > start,
            d == s@.skip(start as int),
            d.len() == s@.len() - start,
            number(s@) == digits_value(d),
            n <= max,
            digits_value(d.take(i - start)) == Some(n as nat),
        decreases v.len() - i,
    {
        let c = v[i];
        proof {
            assert(d.take(i + 1 - start).drop_last() =~= d.take(i - start));
            assert(d.take(i + 1 - start).last() == c);
            lemma_digits_grow(d, i + 1 - start);
        }
        if !('0' <= c && c <= '9') {
            return None;
        }
        let k: u64 = (c as u32 - '0' as u32) as u64;
        if n > (u64::MAX - k) / 10 {
            proof {
                assert(n * 10 + k > u64::MAX) by (nonlinear_arith)
                    requires
                        n > (u64::MAX - k) / 10,
                        k <= 9,
                ;
            }
            return None;
        }
        proof {
            assert(n * 10 + k <= u64::MAX) by (nonlinear_arith)
                requires
                    n <= (u64::MAX - k) / 10,
                    k <= 9,
            ;
        }
        n = n * 10 + k;
        i = i + 1;
        if n > max {
            return None;
        }
    }
    assert(d.take(d.len() as int) =~= d);
    Some(n)
}

/// A row with something else among its digits stands for no number.
pub proof fn lemma_nondigit(s: Seq<char>, i: int)
    requires
        0 <= i < s.len(),
        digit_value(s[i]) is None,
    ensures
        digits_value(s) is None,
    decreases s.len(),
{
    if i < s.len() - 1 {
        assert(s.drop_last()[i] == s[i]);
        lemma_nondigit(s.drop_last(), i);
    }
}

/// Whether `s` is made of digits, at least one.
pub fn all_digits(s: &str) -> (r: bool)
    ensures
        r == (s@.len() > 0 && digits_value(s@) is Some),
{
    let v = chars_of(s);
    if v.len() == 0 {
        return false;
    }
    let mut i: usize = 0;
    while i < v.len()
        invariant
            i <= v.len(),
            v@ == s@,
            i > 0 ==> digits_value(s@.take(i as int)) is Some,
        decreases v.len() - i,
    {
        let c = v[i];
        proof {
            assert(s@.take(i + 1).drop_last() =~= s@.take(i as int));
            assert(s@.take(i + 1).last() == c);
        }
        if !('0' <= c && c <= '9') {
            proof {
                lemma_nondigit(s@, i as int);
            }
            return false;
        }
        i = i + 1;
    }
    assert(s@.take(s@.len() as int) =~= s@);
    true
}

/// Whether `s` spells a number, however large.
pub fn is_number(s: &str) -> (r: bool)
    ensures
        r == (number(s@) is Some),
{
    let v = chars_of(s);
    if v.len() > 0 && v[0] == '+' {
        let n: usize = v.len();
        let d = string_of(&v, 1, n);
        assert(d@ =~= s@.drop_first());
        all_digits(d.as_str())
    } else {
        all_digits(s)
    }
}

/// Reads a machine-sized number.
pub fn parse_usize(s: &str) -> (r: Option<usize>)
    ensures
        match r {
            Some(n) => number_to(s@, usize::MAX as nat) == Some(n as nat),
            None => number_to(s@, usize::MAX as nat) is None,
        },
{
    match parse_number(s, usize::MAX as u64) {
        Some(n) => Some(n as usize),
        None => None,
    }
}

/// Writes `n` in decimal.
pub fn decimal(n: u64) -> (r: String)
    ensures
        r@ == dec(n as nat),
    decreases n,
{
    let d: u32 = (n % 10) as u32;
    let c: char = ((48 + d) as u8) as char;
    assert(c == digit_char((n % 10) as nat));
    if n < 10 {
        let mut s = String::new();
        s.push(c);
        assert(s@ =~= seq![c]);
        s
    } else {
        let mut s = decimal(n / 10);
        s.push(c);
        s
    }
}

proof fn lemma_dec_digits(n: nat)
    ensures
        dec(n).len() > 0,
        dec(n)[0] != '+',
        digits_value(dec(n)) == Some(n),
    decreases n,
{
    let d = n % 10;
    assert(digit_value(digit_char(d)) == Some(d) && digit_char(d) != '+') by {
        let c = digit_char(d);
        assert(c as u32 == 48 + d);
    }
    if n < 10 {
        let s = seq![digit_char(n)];
        assert(s.drop_last() =~= Seq::<char>::empty());
        assert(digits_value(s.drop_last()) == Some(0nat));
    } else {
        lemma_dec_digits(n / 10);
        assert(dec(n).drop_last() =~= dec(n / 10));
    }
}

/// A number read back from its decimal form is the same number.
pub proof fn reading_undoes_writing(n: nat)
    ensures
        number(dec(n)) == Some(n),
{
    lemma_dec_digits(n);
}

// ── what splitting and trimming say of a text ───────────────────────────────

/// Trimming takes blanks off both ends and nothing else: what stays is one part of the text that
/// neither begins nor ends with a blank.
pub proof fn trimming_takes_blanks_only(s: Seq<char>)
    ensures
        exists|i: int, j: int|
            #![trigger s.subrange(i, j)]
            0 <= i <= j <= s.len() && trimmed(s) == s.subrange(i, j) && (forall|k: int|
                0 <= k < s.len() && !(i <= k < j) ==> is_space(#[trigger] s[k])),
        trimmed(s).len() > 0 ==> !is_space(trimmed(s)[0]) && !is_space(trimmed(s).last()),
{
    let a = trimmed_start(s);
    let b = trimmed_end(a);
    lemma_trimmed_start(s);
    lemma_trimmed_end(a);
    lemma_start_blank(s);
    lemma_end_blank(a);
    let i = s.len() - a.len();
    let j = i + b.len();
    assert(b =~= s.subrange(i, j));
    assert forall|k: int| 0 <= k < s.len() && !(i <= k < j) implies is_space(#[trigger] s[k]) by {
        if k >= j {
            assert(a[k - i] == s[k]);
        }
    }
    if b.len() > 0 {
        assert(b[0] == a[0]);
    }
}

proof fn lemma_start_blank(s: Seq<char>)
    ensures
        forall|k: int| 0 <= k < s.len() - trimmed_start(s).len() ==> is_space(#[trigger] s[k]),
    decreases s.len(),
{
    if s.len() > 0 && is_space(s[0]) {
        lemma_start_blank(s.drop_first());
        assert forall|k: int| 0 <= k < s.len() - trimmed_start(s).len() implies is_space(#[trigger] s[k]) by {
            if k > 0 {
                assert(s[k] == s.drop_first()[k - 1]);
            }
        }
    }
}

proof fn lemma_end_blank(s: Seq<char>)
    ensures
        forall|k: int| trimmed_end(s).len() <= k < s.len() ==> is_space(#[trigger] s[k]),
    decreases s.len(),
{
    if s.len() > 0 && is_space(s.last()) {
        lemma_end_blank(s.drop_last());
        assert forall|k: int| trimmed_end(s).len() <= k < s.len() implies is_space(#[trigger] s[k]) by {
            if k < s.len() - 1 {
                assert(s[k] == s.drop_last()[k]);
            }
        }
    }
}

/// A blank, a tab and a line's end are white space; no other character of ASCII that is printed is.
pub proof fn blanks_are_white_space(c: char)
    ensures
        is_space(' ') && is_space('\t') && is_space('\n') && is_space('\r'),
        '!' <= c <= '~' ==> !is_space(c),
{
}

/// Cutting at a character gives what stands before its first place and what stands behind it.
pub proof fn cutting_parts_the_text(s: Seq<char>, c: char)
    ensures
        match cut(s, c) {
            Some((a, b)) => s == a + seq![c] + b && !a.contains(c),
            None => !s.contains(c),
        },
{
    lemma_first_place(s, c);
    if let Some((a, b)) = cut(s, c) {
        assert(s =~= a + seq![c] + b);
    }
}

proof fn lemma_first_place(s: Seq<char>, c: char)
    ensures
        0 <= first_char(s, c) <= s.len(),
        first_char(s, c) < s.len() ==> s[first_char(s, c)] == c,
        forall|k: int| 0 <= k < first_char(s, c) ==> #[trigger] s[k] != c,
    decreases s.len(),
{
    if s.len() > 0 && s[0] != c {
        lemma_first_place(s.drop_first(), c);
        assert forall|k: int| 0 <= k < first_char(s, c) implies #[trigger] s[k] != c by {
            if k > 0 {
                assert(s[k] == s.drop_first()[k - 1]);
            }
        }
    }
}

/// What two texts without a character give when they are put together with that character between
/// them: cutting takes them apart again.
pub proof fn cutting_undoes_joining(a: Seq<char>, b: Seq<char>, c: char)
    requires
        !a.contains(c),
    ensures
        cut(a + seq![c] + b, c) == Some((a, b)),
{
    let s = a + seq![c] + b;
    lemma_first_place(s, c);
    let i = first_char(s, c);
    assert(s[a.len() as int] == c);
    if i < a.len() {
        assert(a[i] == s[i]);
        assert(a.contains(c));
    }
    assert(s.take(i) =~= a);
    assert(s.skip(i + 1) =~= b);
}

/// Splitting undoes joining: texts without the separator come back one by one.
pub proof fn split_undoes_join(v: Seq<Seq<char>>, sep: char)
    requires
        v.len() > 0,
        forall|i: int| 0 <= i < v.len() ==> !(#[trigger] v[i]).contains(sep),
    ensures
        pieces(joined(v, seq![sep]), sep) == v,
    decreases v.len(),
{
    let t = v.drop_last();
    if t.len() == 0 {
        assert(joined(v, seq![sep]) =~= v[0]);
        lemma_plain_piece(Seq::empty(), v[0], sep);
        assert(Seq::<char>::empty() + v[0] =~= v[0]);
        let e = seq![Seq::<char>::empty()];
        assert(e.drop_last().push(e.last() + v[0]) =~= v) by {
            assert(e.last() + v[0] =~= v[0]);
        }
    } else {
        assert forall|i: int| 0 <= i < t.len() implies !(#[trigger] t[i]).contains(sep) by {
            assert(t[i] == v[i]);
        }
        split_undoes_join(t, sep);
        let base = joined(t, seq![sep]) + seq![sep];
        assert(base.drop_last() =~= joined(t, seq![sep]));
        assert(pieces(base, sep) == t.push(Seq::<char>::empty()));
        lemma_plain_piece(base, v.last(), sep);
        let p = t.push(Seq::<char>::empty());
        assert(Seq::<char>::empty() + v.last() =~= v.last());
        assert(p.drop_last().push(p.last() + v.last()) =~= v);
        assert(joined(v, seq![sep]) =~= base + v.last());
    }
}

proof fn lemma_plain_piece(base: Seq<char>, w: Seq<char>, sep: char)
    requires
        !w.contains(sep),
    ensures
        pieces(base + w, sep) == pieces(base, sep).drop_last().push(pieces(base, sep).last() + w),
    decreases w.len(),
{
    lemma_pieces_nonempty(base, sep);
    let p = pieces(base, sep);
    if w.len() == 0 {
        assert(base + w =~= base);
        assert(p.last() + w =~= p.last());
        assert(p =~= p.drop_last().push(p.last()));
    } else {
        let u = w.drop_last();
        assert(!u.contains(sep)) by {
            if u.contains(sep) {
                let k = choose|k: int| 0 <= k < u.len() && u[k] == sep;
                assert(w[k] == sep);
            }
        }
        lemma_plain_piece(base, u, sep);
        assert((base + w).drop_last() =~= base + u);
        assert(w[w.len() - 1] == w.last());
        assert((base + w).last() == w.last());
        let q = p.drop_last().push(p.last() + u);
        assert(q.drop_last() =~= p.drop_last());
        assert(q.last().push(w.last()) =~= p.last() + w);
    }
}

/// Reading lines undoes writing them, each with a newline behind it, or with one between any two.
pub proof fn reading_lines_undoes_writing(v: Seq<Seq<char>>)
    requires
        v.len() > 0,
        forall|i: int|
            0 <= i < v.len() ==> !(#[trigger] v[i]).contains('\n') && (v[i].len() > 0 ==> v[i].last() != '\r'),
    ensures
        line_seq(joined(v, seq!['\n']) + seq!['\n']) == v,
        v.last().len() > 0 ==> line_seq(joined(v, seq!['\n'])) == v,
        line_seq(Seq::<char>::empty()).len() == 0,
{
    let s = joined(v, seq!['\n']);
    split_undoes_join(v, '\n');
    let t = s + seq!['\n'];
    assert(t.drop_last() =~= s);
    assert(pieces(t, '\n') == v.push(Seq::<char>::empty()));
    let p = pieces(t, '\n');
    assert(line_seq(t) =~= v) by {
        assert forall|i: int| 0 <= i < v.len() implies without_cr(#[trigger] p[i]) == v[i] by {
            assert(p[i] == v[i]);
        }
    }
    if v.last().len() > 0 {
        assert forall|i: int| 0 <= i < v.len() implies without_cr(#[trigger] v[i]) == v[i] by {}
        assert(line_seq(s) =~= v);
    }
    assert(pieces(Seq::<char>::empty(), '\n') == seq![Seq::<char>::empty()]);
}

/// A carriage return before a newline is no part of the line.
#[verifier::rlimit(60)]
pub proof fn carriage_returns_are_dropped(a: Seq<char>, b: Seq<char>)
    requires
        !a.contains('\n'),
        !b.contains('\n'),
        b.len() > 0,
        a.len() > 0 ==> a.last() != '\r',
    ensures
        line_seq(a + seq!['\r', '\n'] + b) == seq![a, b],
{
    let c = a + seq!['\r'];
    let v = seq![c, b];
    assert(!c.contains('\n')) by {
        if c.contains('\n') {
            let k = choose|k: int| 0 <= k < c.len() && c[k] == '\n';
            assert(a[k] == '\n');
            assert(a.contains('\n'));
        }
    }
    split_undoes_join(v, '\n');
    assert(v.drop_last() =~= seq![c]);
    assert(seq![c].drop_last() =~= Seq::<Seq<char>>::empty());
    assert(joined(seq![c], seq!['\n']) =~= c);
    assert(joined(v, seq!['\n']) =~= a + seq!['\r', '\n'] + b);
    assert(c.drop_last() =~= a);
    assert(line_seq(joined(v, seq!['\n'])) =~= seq![a, b]);
}

/// Splitting at white space undoes joining words with blanks.
pub proof fn words_undo_joining(v: Seq<Seq<char>>)
    requires
        forall|i: int|
            0 <= i < v.len() ==> (#[trigger] v[i]).len() > 0 && forall|k: int| 0 <= k < v[i].len() ==> !is_space(#[trigger] v[i][k]),
    ensures
        words_of(joined(v, seq![' '])) == v,
    decreases v.len(),
{
    if v.len() == 0 {
        assert(joined(v, seq![' ']) =~= Seq::<char>::empty());
        assert(words_of(joined(v, seq![' '])) =~= v);
    } else {
        let t = v.drop_last();
        assert forall|i: int| 0 <= i < t.len() implies (#[trigger] t[i]).len() > 0 && forall|k: int| 0 <= k < t[i].len() ==> !is_space(#[trigger] t[i][k]) by {
            assert(t[i] == v[i]);
        }
        words_undo_joining(t);
        let w = v.last();
        assert(v[v.len() - 1] == w);
        if t.len() == 0 {
            let e = Seq::<char>::empty();
            lemma_one_word(e, w);
            assert(e + w =~= w);
            assert(joined(v, seq![' ']) =~= w);
            assert(words_of(e) =~= Seq::<Seq<char>>::empty());
            assert(v =~= Seq::<Seq<char>>::empty().push(w));
        } else {
            let base = joined(t, seq![' ']) + seq![' '];
            assert(base.drop_last() =~= joined(t, seq![' ']));
            lemma_one_word(base, w);
            assert(joined(v, seq![' ']) =~= base + w);
            assert(t.push(w) =~= v);
        }
    }
}

proof fn lemma_one_word(base: Seq<char>, w: Seq<char>)
    requires
        base.len() > 0 ==> is_space(base.last()),
        w.len() > 0,
        forall|k: int| 0 <= k < w.len() ==> !is_space(#[trigger] w[k]),
    ensures
        words_of(base + w) == words_of(base).push(w),
    decreases w.len(),
{
    let s = base + w;
    let u = w.drop_last();
    assert(s.last() == w.last());
    assert(w[w.len() - 1] == w.last());
    assert(s.drop_last() =~= base + u);
    if u.len() == 0 {
        assert(base + u =~= base);
        assert(w =~= seq![w.last()]);
        if s.len() >= 2 {
            assert(s[s.len() - 2] == base.last());
        }
    } else {
        assert forall|k: int| 0 <= k < u.len() implies !is_space(#[trigger] u[k]) by {
            assert(u[k] == w[k]);
        }
        lemma_one_word(base, u);
        assert(s[s.len() - 2] == w[w.len() - 2]);
        let q = words_of(base).push(u);
        assert(q.drop_last() =~= words_of(base));
        assert(u.push(w.last()) =~= w);
    }
}

/// What is kept of a list and mapped is what each item maps to, in the order of the items.
pub proof fn mapping_keeps_the_order<A, B>(a: Seq<A>, x: A, b: Seq<A>, f: spec_fn(A) -> Option<B>)
    ensures
        filter_map(a + seq![x] + b, f) == filter_map(a, f) + (match f(x) {
            Some(y) => seq![y],
            None => Seq::empty(),
        }) + filter_map(b, f),
    decreases b.len(),
{
    let s = a + seq![x] + b;
    let one = match f(x) {
        Some(y) => seq![y],
        None => Seq::empty(),
    };
    if b.len() == 0 {
        assert(s.last() == x);
        assert(s.drop_last() =~= a);
        assert(filter_map(s, f) =~= filter_map(a, f) + one + filter_map(b, f));
    } else {
        mapping_keeps_the_order(a, x, b.drop_last(), f);
        assert(s.last() == b.last());
        assert(s.drop_last() =~= a + seq![x] + b.drop_last());
        assert(filter_map(s, f) =~= filter_map(a, f) + one + filter_map(b, f));
    }
}

/// Numbers are written in base ten: another digit behind a number makes it ten times as large and
/// adds the digit.
pub proof fn digits_count_in_tens(n: nat, d: nat)
    requires
        d < 10,
    ensures
        dec(d) == seq![digit_char(d)],
        n > 0 ==> dec(n * 10 + d) == dec(n).push(digit_char(d)),
        digit_char(0) == '0' && digit_char(1) == '1' && digit_char(9) == '9',
        digit_char(d) as u32 == 48 + d,
{
    assert((n * 10 + d) / 10 == n);
    assert((n * 10 + d) % 10 == d);
}

/// What is kept of a list and mapped is what some item maps to, and nothing else.
pub proof fn mapping_keeps_members<A, B>(s: Seq<A>, f: spec_fn(A) -> Option<B>, y: B)
    ensures
        filter_map(s, f).contains(y) <==> exists|i: int| 0 <= i < s.len() && f(#[trigger] s[i]) == Some(y),
        filter_map(s, f).len() <= s.len(),
    decreases s.len(),
{
    let v = filter_map(s, f);
    if s.len() > 0 {
        let t = s.drop_last();
        let w = filter_map(t, f);
        mapping_keeps_members(t, f, y);
        assert(s[s.len() - 1] == s.last());
        if v.contains(y) {
            let k = choose|k: int| 0 <= k < v.len() && v[k] == y;
            if k < w.len() {
                assert(w[k] == y);
                assert(w.contains(y));
                let n = choose|n: int| 0 <= n < t.len() && f(#[trigger] t[n]) == Some(y);
                assert(s[n] == t[n]);
            }
        }
        if exists|n: int| 0 <= n < s.len() && f(#[trigger] s[n]) == Some(y) {
            let n = choose|n: int| 0 <= n < s.len() && f(#[trigger] s[n]) == Some(y);
            if n < t.len() {
                assert(t[n] == s[n]);
                let k = choose|k: int| 0 <= k < w.len() && w[k] == y;
                assert(v[k] == y);
            } else {
                assert(v[v.len() - 1] == y);
            }
        }
    }
}

} // verus!
