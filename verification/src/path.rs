//! File paths as their components, and sets of paths.
use vstd::prelude::*;
use crate::order::{less_text, text_less, text_less_irreflexive, text_less_strict, text_less_total, text_less_transitive};
use crate::text::{cat, chars_of, join, joined, lemma_pieces_nonempty, lemma_texts_push, opt_text, pieces, same, split, string_of, texts};

verus! {

/// What a path names: whether it starts at the root, and its components.
pub ghost struct PathView {
    pub abs: bool,
    pub parts: Seq<Seq<char>>,
}

/// A file path, taken apart at the slashes.
#[derive(Debug)]
pub struct FilePath {
    pub abs: bool,
    pub parts: Vec<String>,
}

impl View for FilePath {
    type V = PathView;

    open spec fn view(&self) -> PathView {
        PathView { abs: self.abs, parts: texts(self.parts@) }
    }
}

/// The names of a list of paths.
pub open spec fn path_views(v: Seq<FilePath>) -> Seq<PathView> {
    Seq::new(v.len(), |i: int| v[i]@)
}

/// Adding a path adds its components.
pub proof fn lemma_path_views_push(v: Seq<FilePath>, p: FilePath)
    ensures
        path_views(v.push(p)) == path_views(v).push(p@),
{
    assert(path_views(v.push(p)) =~= path_views(v).push(p@));
}

/// A component that a path can hold.
pub open spec fn good_part(c: Seq<char>) -> bool {
    c.len() > 0 && !c.contains('/')
}

/// Whether `p` is a path that a text can stand for: no component is empty, holds a
/// slash, or is a dot, except that a relative path may begin with one.
pub open spec fn path_ok(p: PathView) -> bool {
    &&& forall|i: int| 0 <= i < p.parts.len() ==> good_part(#[trigger] p.parts[i])
    &&& forall|i: int|
        0 <= i < p.parts.len() && (i > 0 || p.abs) ==> #[trigger] p.parts[i] != seq!['.']
}

/// The pieces between slashes that name something: not the empty ones, and a single
/// dot only in front.
pub open spec fn kept_parts(p: Seq<Seq<char>>) -> Seq<Seq<char>>
    decreases p.len(),
{
    if p.len() == 0 {
        Seq::empty()
    } else {
        let k = kept_parts(p.drop_last());
        if p.last().len() == 0 || (p.last() == seq!['.'] && p.len() > 1) {
            k
        } else {
            k.push(p.last())
        }
    }
}

/// The path that `s` writes down.
pub open spec fn path_of(s: Seq<char>) -> PathView {
    PathView { abs: s.len() > 0 && s[0] == '/', parts: kept_parts(pieces(s, '/')) }
}

/// The text of a path.
pub open spec fn path_text(p: PathView) -> Seq<char> {
    if p.abs {
        seq!['/'] + joined(p.parts, seq!['/'])
    } else {
        joined(p.parts, seq!['/'])
    }
}

/// The last component, unless it is a dot or two dots or there is none.
pub open spec fn name_of(p: PathView) -> Option<Seq<char>> {
    if p.parts.len() > 0 && p.parts.last() != seq!['.'] && p.parts.last() != seq!['.', '.'] {
        Some(p.parts.last())
    } else {
        None
    }
}

/// The path of the directory that `p` stands in.
pub open spec fn parent_of(p: PathView) -> Option<PathView> {
    if p.parts.len() > 0 {
        Some(PathView { abs: p.abs, parts: p.parts.drop_last() })
    } else {
        None
    }
}

/// The position of the last `c` in `s`; -1 where there is none.
pub open spec fn last_char(s: Seq<char>, c: char) -> int
    decreases s.len(),
{
    if s.len() == 0 || s.last() == c {
        s.len() - 1
    } else {
        last_char(s.drop_last(), c)
    }
}

/// What stands behind the last dot of the file name, unless that dot is in front.
pub open spec fn extension_of(p: PathView) -> Option<Seq<char>> {
    match name_of(p) {
        Some(n) => if last_char(n, '.') > 0 {
            Some(n.skip(last_char(n, '.') + 1))
        } else {
            None
        },
        None => None,
    }
}

/// Whether `p` lies at or under `base`. Under the empty path lies everything.
pub open spec fn under(p: PathView, base: PathView) -> bool {
    (p.abs == base.abs || (!base.abs && base.parts.len() == 0)) && base.parts.len() <= p.parts.len()
        && p.parts.take(base.parts.len() as int) == base.parts
}

/// The way from `base` to `p`, where `p` lies at or under it.
pub open spec fn stripped(p: PathView, base: PathView) -> Option<PathView> {
    if under(p, base) {
        Some(PathView { abs: p.abs && !base.abs, parts: p.parts.skip(base.parts.len() as int) })
    } else {
        None
    }
}

/// `q` taken from the directory `p`: an absolute `q` stands for itself.
pub open spec fn joined_path(p: PathView, q: PathView) -> PathView {
    if q.abs {
        q
    } else {
        let tail = if p.parts.len() + if p.abs { 1int } else { 0 } > 0 && q.parts.len() > 0 && q.parts[0] == seq!['.'] {
            q.parts.drop_first()
        } else {
            q.parts
        };
        PathView { abs: p.abs, parts: p.parts + tail }
    }
}

/// The text by which a path is shown: relative to `root` where it lies under it.
pub open spec fn rel_text(root: PathView, p: PathView) -> Seq<char> {
    match stripped(p, root) {
        Some(q) => path_text(q),
        None => path_text(p),
    }
}

/// Whether two lists of strings hold the same texts.
pub fn same_texts(a: &Vec<String>, b: &Vec<String>) -> (r: bool)
    ensures
        r == (texts(a@) == texts(b@)),
{
    if a.len() != b.len() {
        assert(texts(a@).len() != texts(b@).len());
        return false;
    }
    let mut i: usize = 0;
    while i < a.len()
        invariant
            i <= a.len(),
            a.len() == b.len(),
            forall|j: int| 0 <= j < i ==> a@[j]@ == b@[j]@,
        decreases a.len() - i,
    {
        if a[i] != b[i] {
            assert(texts(a@)[i as int] != texts(b@)[i as int]);
            return false;
        }
        i = i + 1;
    }
    assert(texts(a@) =~= texts(b@));
    true
}

/// The strings `v[a..b]`.
pub fn sub_strings(v: &Vec<String>, a: usize, b: usize) -> (r: Vec<String>)
    requires
        a <= b <= v.len(),
    ensures
        texts(r@) == texts(v@).subrange(a as int, b as int),
{
    let mut out: Vec<String> = Vec::new();
    let mut i: usize = a;
    assert(texts(out@) =~= texts(v@).subrange(a as int, a as int));
    while i < b
        invariant
            a <= i <= b <= v.len(),
            texts(out@) == texts(v@).subrange(a as int, i as int),
        decreases b - i,
    {
        let s = v[i].clone();
        proof {
            lemma_texts_push(out@, s);
        }
        out.push(s);
        i = i + 1;
        assert(texts(out@) =~= texts(v@).subrange(a as int, i as int));
    }
    out
}

/// A copy of a list of strings.
pub fn copy_strings(v: &Vec<String>) -> (r: Vec<String>)
    ensures
        texts(r@) == texts(v@),
{
    let r = sub_strings(v, 0, v.len());
    assert(texts(v@).subrange(0, v@.len() as int) =~= texts(v@));
    r
}

proof fn lemma_kept_good(p: Seq<Seq<char>>, abs: bool)
    requires
        forall|i: int| 0 <= i < p.len() ==> !(#[trigger] p[i]).contains('/'),
        abs ==> p.len() == 0 || p[0].len() == 0,
    ensures
        path_ok(PathView { abs, parts: kept_parts(p) }),
        kept_parts(p).len() <= p.len(),
        p.len() > 0 && p[0].len() == 0 ==> kept_parts(p).len() < p.len() && forall|i: int|
            0 <= i < kept_parts(p).len() ==> #[trigger] kept_parts(p)[i] != seq!['.'],
    decreases p.len(),
{
    if p.len() > 0 {
        let t = p.drop_last();
        assert forall|i: int| 0 <= i < t.len() implies !(#[trigger] t[i]).contains('/') by {
            assert(t[i] == p[i]);
        }
        lemma_kept_good(t, abs);
        let k = kept_parts(t);
        let r = kept_parts(p);
        assert(p.last() == p[p.len() - 1]);
        assert(t.len() > 0 ==> t[0] == p[0]);
        let kv = PathView { abs, parts: k };
        assert(path_ok(kv));
        assert forall|i: int| 0 <= i < r.len() implies good_part(#[trigger] r[i]) by {
            if i < k.len() {
                assert(r[i] == kv.parts[i]);
            } else {
                assert(r[i] == p.last());
            }
        }
        assert forall|i: int| 0 <= i < r.len() && (i > 0 || abs) implies #[trigger] r[i] != seq![
            '.',
        ] by {
            if i < k.len() {
                assert(r[i] == kv.parts[i]);
            } else {
                assert(r[i] == p.last());
                assert(p.last() != seq!['.'] || p.len() <= 1);
            }
        }
    }
}

proof fn lemma_first_piece(s: Seq<char>, sep: char)
    requires
        s.len() > 0,
        s[0] == sep,
    ensures
        pieces(s, sep)[0].len() == 0,
        pieces(s, sep).len() >= 2,
    decreases s.len(),
{
    let t = s.drop_last();
    if t.len() == 0 {
        assert(pieces(t, sep) == seq![Seq::<char>::empty()]);
        assert(s.last() == sep);
    } else {
        assert(t[0] == sep);
        lemma_first_piece(t, sep);
    }
}

/// A path read from a text is well formed.
proof fn lemma_path_of_ok(s: Seq<char>)
    ensures
        path_ok(path_of(s)),
{
    lemma_pieces_nonempty(s, '/');
    if s.len() > 0 && s[0] == '/' {
        lemma_first_piece(s, '/');
    }
    lemma_kept_good(pieces(s, '/'), path_of(s).abs);
}

proof fn lemma_pieces_extend(s: Seq<char>, t: Seq<char>, sep: char)
    requires
        !t.contains(sep),
    ensures
        pieces(s + t, sep) == pieces(s, sep).drop_last().push(pieces(s, sep).last() + t),
    decreases t.len(),
{
    lemma_pieces_nonempty(s, sep);
    if t.len() == 0 {
        assert(s + t =~= s);
        assert(pieces(s, sep).last() + t =~= pieces(s, sep).last());
        assert(pieces(s, sep) =~= pieces(s, sep).drop_last().push(pieces(s, sep).last()));
    } else {
        let u = t.drop_last();
        assert forall|i: int| 0 <= i < u.len() implies u[i] != sep by {
            assert(t[i] == u[i]);
            assert(t.contains(t[i]));
        }
        lemma_pieces_extend(s, u, sep);
        assert((s + t).drop_last() =~= s + u);
        assert((s + t).last() == t.last());
        assert(t.contains(t.last()));
        let p = pieces(s + u, sep);
        assert(p.drop_last() =~= pieces(s, sep).drop_last());
        assert(p.last().push(t.last()) =~= pieces(s, sep).last() + t);
    }
}

/// The pieces of joined parts are those parts.
pub proof fn lemma_pieces_joined(parts: Seq<Seq<char>>, sep: char)
    requires
        parts.len() > 0,
        forall|i: int| 0 <= i < parts.len() ==> !(#[trigger] parts[i]).contains(sep),
    ensures
        pieces(joined(parts, seq![sep]), sep) == parts,
    decreases parts.len(),
{
    let e = Seq::<char>::empty();
    if parts.len() == 1 {
        lemma_pieces_extend(e, parts[0], sep);
        assert(e + parts[0] =~= parts[0]);
        assert(pieces(e, sep).drop_last() =~= Seq::<Seq<char>>::empty());
        assert(parts =~= seq![parts[0]]);
    } else {
        let h = parts.drop_last();
        assert forall|i: int| 0 <= i < h.len() implies !(#[trigger] h[i]).contains(sep) by {
            assert(h[i] == parts[i]);
        }
        lemma_pieces_joined(h, sep);
        let a = joined(h, seq![sep]);
        let b = a + seq![sep];
        assert(b.drop_last() =~= a);
        assert(pieces(b, sep) == h.push(e));
        lemma_pieces_extend(b, parts.last(), sep);
        assert(h.push(e).drop_last() =~= h);
        assert(e + parts.last() =~= parts.last());
        assert(h.push(parts.last()) =~= parts);
    }
}

proof fn lemma_kept_all(p: Seq<Seq<char>>)
    requires
        forall|i: int| 0 <= i < p.len() ==> (#[trigger] p[i]).len() > 0,
        forall|i: int| 0 < i < p.len() ==> #[trigger] p[i] != seq!['.'],
    ensures
        kept_parts(p) == p,
    decreases p.len(),
{
    if p.len() > 0 {
        let t = p.drop_last();
        assert forall|i: int| 0 <= i < t.len() implies (#[trigger] t[i]).len() > 0 by {
            assert(t[i] == p[i]);
        }
        assert forall|i: int| 0 < i < t.len() implies #[trigger] t[i] != seq!['.'] by {
            assert(t[i] == p[i]);
        }
        lemma_kept_all(t);
        assert(t.push(p.last()) =~= p);
        assert(p.last() == p[p.len() - 1]);
    } else {
        assert(p =~= Seq::<Seq<char>>::empty());
    }
}

proof fn lemma_pieces_prepend(s: Seq<char>, sep: char)
    ensures
        pieces(seq![sep] + s, sep) == seq![Seq::<char>::empty()] + pieces(s, sep),
    decreases s.len(),
{
    let e = Seq::<char>::empty();
    lemma_pieces_nonempty(s, sep);
    if s.len() == 0 {
        let t = seq![sep] + s;
        assert(t.drop_last() =~= e);
        assert(pieces(e, sep) =~= seq![e]);
        assert(pieces(t, sep) =~= seq![e] + pieces(s, sep));
    } else {
        let t = seq![sep] + s;
        assert(t.drop_last() =~= seq![sep] + s.drop_last());
        lemma_pieces_prepend(s.drop_last(), sep);
        lemma_pieces_nonempty(s.drop_last(), sep);
        assert(t.last() == s.last());
        assert(pieces(t, sep) =~= seq![e] + pieces(s, sep));
    }
}

proof fn lemma_kept_after_empty(p: Seq<Seq<char>>)
    requires
        forall|i: int| 0 <= i < p.len() ==> (#[trigger] p[i]).len() > 0 && p[i] != seq!['.'],
    ensures
        kept_parts(seq![Seq::<char>::empty()] + p) == p,
    decreases p.len(),
{
    let q = seq![Seq::<char>::empty()] + p;
    if p.len() == 0 {
        assert(q.drop_last() =~= Seq::<Seq<char>>::empty());
        assert(p =~= Seq::<Seq<char>>::empty());
        assert(q.last().len() == 0);
        assert(kept_parts(q.drop_last()) == Seq::<Seq<char>>::empty());
    } else {
        let t = p.drop_last();
        assert forall|i: int| 0 <= i < t.len() implies (#[trigger] t[i]).len() > 0 && t[i] != seq![
            '.',
        ] by {
            assert(t[i] == p[i]);
        }
        lemma_kept_after_empty(t);
        assert(q.drop_last() =~= seq![Seq::<char>::empty()] + t);
        assert(q.last() == p.last());
        assert(p.last() == p[p.len() - 1]);
        assert(kept_parts(q) == kept_parts(q.drop_last()).push(q.last()));
        assert(t.push(p.last()) =~= p);
    }
}

/// A path written down and read again is the same path.
pub proof fn reading_a_path_undoes_writing(p: PathView)
    requires
        path_ok(p),
    ensures
        path_of(path_text(p)) == p,
{
    let sep = seq!['/'];
    let t = joined(p.parts, sep);
    let e = Seq::<char>::empty();
    if p.parts.len() == 0 {
        assert(t =~= e);
        if p.abs {
            assert(sep + t =~= sep);
            lemma_pieces_prepend(e, '/');
            assert(sep + e =~= sep);
            let q = seq![e] + pieces(e, '/');
            assert(q.drop_last() =~= seq![e]);
            assert(seq![e].drop_last() =~= Seq::<Seq<char>>::empty());
            assert(kept_parts(q) == Seq::<Seq<char>>::empty()) by {
                reveal_with_fuel(kept_parts, 3);
                assert(q.last() == e);
            }
        } else {
            let q = pieces(e, '/');
            assert(q.drop_last() =~= Seq::<Seq<char>>::empty());
            assert(q.last() == e);
            assert(kept_parts(q.drop_last()) == Seq::<Seq<char>>::empty());
        }
        assert(p.parts =~= Seq::<Seq<char>>::empty());
    } else {
        assert forall|i: int| 0 <= i < p.parts.len() implies !(#[trigger] p.parts[i]).contains(
            '/',
        ) by {
            assert(good_part(p.parts[i]));
        }
        lemma_pieces_joined(p.parts, '/');
        assert forall|i: int| 0 <= i < p.parts.len() implies (#[trigger] p.parts[i]).len() > 0 by {
            assert(good_part(p.parts[i]));
        }
        if p.abs {
            lemma_pieces_prepend(t, '/');
            assert forall|i: int| 0 <= i < p.parts.len() implies (#[trigger] p.parts[i]).len() > 0
                && p.parts[i] != seq!['.'] by {
                assert(good_part(p.parts[i]));
            }
            lemma_kept_after_empty(p.parts);
        } else {
            lemma_kept_all(p.parts);
            lemma_joined_first(p.parts, sep);
            assert(t[0] == p.parts[0][0]);
            assert(p.parts[0].contains(p.parts[0][0]));
        }
    }
}

proof fn lemma_joined_first(p: Seq<Seq<char>>, sep: Seq<char>)
    requires
        p.len() > 0,
        p[0].len() > 0,
    ensures
        joined(p, sep).len() > 0,
        joined(p, sep)[0] == p[0][0],
    decreases p.len(),
{
    if p.len() > 1 {
        assert(p.drop_last()[0] == p[0]);
        lemma_joined_first(p.drop_last(), sep);
    }
}

/// The way from the root to a path, taken from the root, leads to that path.
pub proof fn joining_undoes_stripping(root: PathView, p: PathView)
    requires
        path_ok(p),
        under(p, root),
    ensures
        joined_path(root, stripped(p, root)->0) == p,
{
    let q = stripped(p, root)->0;
    assert(root.parts + q.parts =~= p.parts);
    if q.parts.len() > 0 {
        assert(q.parts[0] == p.parts[root.parts.len() as int]);
    }
}

impl FilePath {
    /// Reads a path from its text.
    pub fn parse(s: &str) -> (r: FilePath)
        ensures
            r@ == path_of(s@),
            path_ok(r@),
    {
        let v = chars_of(s);
        let abs = v.len() > 0 && v[0] == '/';
        let p = split(s, '/');
        let mut parts: Vec<String> = Vec::new();
        let mut i: usize = 0;
        assert(texts(p@).take(0) =~= Seq::<Seq<char>>::empty());
        assert(texts(parts@) =~= Seq::<Seq<char>>::empty());
        while i < p.len()
            invariant
                i <= p.len(),
                texts(parts@) == kept_parts(texts(p@).take(i as int)),
            decreases p.len() - i,
        {
            let c = p[i].clone();
            proof {
                let t = texts(p@).take(i + 1);
                assert(t.drop_last() =~= texts(p@).take(i as int));
                assert(t.last() == c@);
                reveal_strlit(".");
                assert("."@ =~= seq!['.']);
            }
            if c.as_str().is_empty() || (i > 0 && same(c.as_str(), ".")) {
            } else {
                proof {
                    lemma_texts_push(parts@, c);
                }
                parts.push(c);
            }
            i = i + 1;
        }
        assert(texts(p@).take(p@.len() as int) =~= texts(p@));
        proof {
            lemma_path_of_ok(s@);
        }
        FilePath { abs, parts }
    }

    /// The path's text.
    pub fn to_text(&self) -> (r: String)
        ensures
            r@ == path_text(self@),
    {
        proof {
            reveal_strlit("/");
            assert("/"@ =~= seq!['/']);
        }
        let t = join(&self.parts, "/");
        if self.abs {
            cat("/", t.as_str())
        } else {
            t
        }
    }

    /// A copy of the path.
    pub fn copy(&self) -> (r: FilePath)
        ensures
            r@ == self@,
    {
        FilePath { abs: self.abs, parts: copy_strings(&self.parts) }
    }

    /// Whether both name the same path.
    pub fn same(&self, other: &FilePath) -> (r: bool)
        ensures
            r == (self@ == other@),
    {
        self.abs == other.abs && same_texts(&self.parts, &other.parts)
    }

    /// The path's last component, if it is a name.
    pub fn file_name(&self) -> (r: Option<String>)
        ensures
            opt_text(r) == name_of(self@),
    {
        let n: usize = self.parts.len();
        if n == 0 {
            return None;
        }
        let l = self.parts[n - 1].clone();
        proof {
            reveal_strlit(".");
            reveal_strlit("..");
            assert("."@ =~= seq!['.']);
            assert(".."@ =~= seq!['.', '.']);
            assert(self@.parts.last() == l@);
        }
        if same(l.as_str(), ".") || same(l.as_str(), "..") {
            None
        } else {
            Some(l)
        }
    }

    /// The file name, or nothing where there is none.
    pub fn file_name_text(&self) -> (r: String)
        ensures
            r@ == name_or_empty(self@),
    {
        match self.file_name() {
            Some(n) => n,
            None => String::new(),
        }
    }

    /// What stands behind the last dot of the file name.
    pub fn extension(&self) -> (r: Option<String>)
        ensures
            opt_text(r) == extension_of(self@),
    {
        match self.file_name() {
            Some(n) => {
                let v = chars_of(n.as_str());
                let mut i: usize = v.len();
                assert(v@.take(v@.len() as int) =~= v@);
                while i > 0
                    invariant
                        i <= v.len(),
                        v@ == n@,
                        name_of(self@) == Some(n@),
                        last_char(n@, '.') == last_char(n@.take(i as int), '.'),
                    decreases i,
                {
                    if v[i - 1] == '.' {
                        if i == 1 {
                            return None;
                        }
                        let e = string_of(&v, i, v.len());
                        assert(e@ =~= n@.skip(i as int));
                        return Some(e);
                    }
                    assert(n@.take(i as int).drop_last() =~= n@.take(i - 1));
                    i = i - 1;
                }
                None
            },
            None => None,
        }
    }

    /// The directory that the path stands in.
    pub fn parent(&self) -> (r: Option<FilePath>)
        ensures
            opt_path(r) == parent_of(self@),
    {
        let n: usize = self.parts.len();
        if n == 0 {
            return None;
        }
        let parts = sub_strings(&self.parts, 0, n - 1);
        assert(texts(parts@) =~= texts(self.parts@).drop_last());
        Some(FilePath { abs: self.abs, parts })
    }

    /// Whether the path lies at or under `base`.
    pub fn starts_with(&self, base: &FilePath) -> (r: bool)
        ensures
            r == under(self@, base@),
    {
        if (self.abs != base.abs && (base.abs || base.parts.len() > 0)) || base.parts.len()
            > self.parts.len() {
            return false;
        }
        let head = sub_strings(&self.parts, 0, base.parts.len());
        assert(texts(head@) =~= self@.parts.take(base@.parts.len() as int));
        same_texts(&head, &base.parts)
    }

    /// The way from `base` to the path.
    pub fn strip_prefix(&self, base: &FilePath) -> (r: Option<FilePath>)
        ensures
            opt_path(r) == stripped(self@, base@),
    {
        if !self.starts_with(base) {
            return None;
        }
        let parts = sub_strings(&self.parts, base.parts.len(), self.parts.len());
        assert(texts(parts@) =~= self@.parts.skip(base@.parts.len() as int));
        Some(FilePath { abs: self.abs && !base.abs, parts })
    }

    /// `other` taken from this directory.
    pub fn join(&self, other: &FilePath) -> (r: FilePath)
        ensures
            r@ == joined_path(self@, other@),
    {
        if other.abs {
            return other.copy();
        }
        proof {
            reveal_strlit(".");
            assert("."@ =~= seq!['.']);
        }
        let dotted = (self.abs || self.parts.len() > 0) && other.parts.len() > 0 && same(
            other.parts[0].as_str(),
            ".",
        );
        let mut parts = copy_strings(&self.parts);
        let start: usize = if dotted {
            1
        } else {
            0
        };
        let mut i: usize = start;
        let ghost tail = other@.parts.skip(start as int);
        assert(texts(parts@) =~= self@.parts + tail.take(0));
        while i < other.parts.len()
            invariant
                start <= 1,
                start <= i <= other.parts.len(),
                tail == other@.parts.skip(start as int),
                texts(parts@) == self@.parts + tail.take(i - start),
            decreases other.parts.len() - i,
        {
            let c = other.parts[i].clone();
            proof {
                lemma_texts_push(parts@, c);
                assert(tail.take(i + 1 - start) =~= tail.take(i - start).push(c@));
                assert(self@.parts + tail.take(i + 1 - start) =~= (self@.parts + tail.take(
                    i - start,
                )).push(c@));
            }
            parts.push(c);
            i = i + 1;
        }
        proof {
            assert(tail.take(other.parts.len() - start) =~= tail);
            if dotted {
                assert(tail =~= other@.parts.drop_first());
            } else {
                assert(tail =~= other@.parts);
            }
        }
        FilePath { abs: self.abs, parts }
    }

    /// The path written `s`, taken from this directory.
    pub fn join_text(&self, s: &str) -> (r: FilePath)
        ensures
            r@ == joined_path(self@, path_of(s@)),
            path_ok(self@) ==> path_ok(r@),
    {
        let q = FilePath::parse(s);
        assert(path_ok(self@) ==> path_ok(joined_path(self@, q@)));
        self.join(&q)
    }

    /// The text by which `p` is shown in the project at this root.
    pub fn rel(&self, p: &FilePath) -> (r: String)
        ensures
            r@ == rel_text(self@, p@),
    {
        match p.strip_prefix(self) {
            Some(q) => q.to_text(),
            None => p.to_text(),
        }
    }
}

/// The file name of `p`, or nothing.
pub open spec fn name_or_empty(p: PathView) -> Seq<char> {
    match name_of(p) {
        Some(n) => n,
        None => Seq::empty(),
    }
}

/// What an optional path names.
pub open spec fn opt_path(o: Option<FilePath>) -> Option<PathView> {
    match o {
        Some(p) => Some(p@),
        None => None,
    }
}

/// A copy of an optional path.
pub fn copy_opt_path(o: &Option<FilePath>) -> (r: Option<FilePath>)
    ensures
        opt_path(r) == opt_path(*o),
{
    match o {
        Some(p) => Some(p.copy()),
        None => None,
    }
}

/// Copies of a list of paths.
pub fn copy_paths(v: &Vec<FilePath>) -> (r: Vec<FilePath>)
    ensures
        path_views(r@) == path_views(v@),
{
    let mut out: Vec<FilePath> = Vec::new();
    let mut i: usize = 0;
    while i < v.len()
        invariant
            i <= v.len(),
            out.len() == i,
            forall|j: int| 0 <= j < i ==> out@[j]@ == v@[j]@,
        decreases v.len() - i,
    {
        out.push(v[i].copy());
        i = i + 1;
    }
    assert(path_views(out@) =~= path_views(v@));
    out
}

/// Where `p` first stands in a list.
pub fn path_position(v: &Vec<FilePath>, p: &FilePath) -> (r: Option<usize>)
    ensures
        match r {
            Some(i) => i < v.len() && path_views(v@)[i as int] == p@ && forall|j: int|
                0 <= j < i ==> path_views(v@)[j] != p@,
            None => !path_views(v@).contains(p@),
        },
{
    let mut i: usize = 0;
    while i < v.len()
        invariant
            i <= v.len(),
            forall|j: int| 0 <= j < i ==> path_views(v@)[j] != p@,
        decreases v.len() - i,
    {
        if v[i].same(p) {
            return Some(i);
        }
        i = i + 1;
    }
    None
}

/// A set of paths, each held once.
#[derive(Debug)]
pub struct PathSet {
    pub items: Vec<FilePath>,
}

impl View for PathSet {
    type V = Set<PathView>;

    open spec fn view(&self) -> Set<PathView> {
        path_views(self.items@).to_set()
    }
}

impl PathSet {
    /// No path is held twice.
    pub open spec fn wf(&self) -> bool {
        path_views(self.items@).no_duplicates()
    }

    /// The empty set.
    pub fn new() -> (r: PathSet)
        ensures
            r@ == Set::<PathView>::empty(),
            r.wf(),
    {
        let r = PathSet { items: Vec::new() };
        assert(path_views(r.items@) =~= Seq::<PathView>::empty());
        assert(r@ =~= Set::<PathView>::empty());
        r
    }

    /// Whether `p` is in the set.
    pub fn contains(&self, p: &FilePath) -> (r: bool)
        ensures
            r == self@.contains(p@),
    {
        match path_position(&self.items, p) {
            Some(i) => {
                assert(path_views(self.items@).contains(p@));
                true
            },
            None => false,
        }
    }

    /// Adds `p`; says whether it was missing.
    pub fn insert(&mut self, p: FilePath) -> (r: bool)
        requires
            old(self).wf(),
        ensures
            final(self).wf(),
            final(self)@ == old(self)@.insert(p@),
            r == !old(self)@.contains(p@),
    {
        if self.contains(&p) {
            assert(self@ =~= self@.insert(p@));
            return false;
        }
        let ghost was = path_views(self.items@);
        proof {
            lemma_path_views_push(self.items@, p);
        }
        self.items.push(p);
        proof {
            let now = was.push(p@);
            assert forall|x: PathView| now.contains(x) <==> was.contains(x) || x == p@ by {
                if was.contains(x) {
                    let k = was.index_of(x);
                    assert(now[k] == x);
                }
                assert(now[was.len() as int] == p@);
            }
            assert(self@ =~= was.to_set().insert(p@));
        }
        true
    }

    /// Takes `p` out; says whether it was there.
    pub fn remove(&mut self, p: &FilePath) -> (r: bool)
        requires
            old(self).wf(),
        ensures
            final(self).wf(),
            final(self)@ == old(self)@.remove(p@),
            r == old(self)@.contains(p@),
    {
        match path_position(&self.items, p) {
            Some(i) => {
                let ghost was = path_views(self.items@);
                let _ = self.items.remove(i);
                proof {
                    let now = path_views(self.items@);
                    assert(now =~= was.remove(i as int));
                    assert(was.contains(p@));
                    assert forall|x: PathView| now.contains(x) <==> was.contains(x) && x != p@ by {
                        if now.contains(x) {
                            let k = now.index_of(x);
                            if k < i {
                                assert(was[k] == x);
                            } else {
                                assert(was[k + 1] == x);
                            }
                        }
                        if was.contains(x) && x != p@ {
                            let k = was.index_of(x);
                            if k < i {
                                assert(now[k] == x);
                            } else {
                                assert(now[k - 1] == x);
                            }
                        }
                    }
                    assert(now.no_duplicates());
                    assert(self@ =~= was.to_set().remove(p@));
                }
                true
            },
            None => {
                assert(self@ =~= self@.remove(p@));
                false
            },
        }
    }

    /// Takes `p` out where it is in the set, and puts it in where it is not.
    pub fn toggle(&mut self, p: &FilePath)
        requires
            old(self).wf(),
        ensures
            final(self).wf(),
            final(self)@ == toggled(old(self)@, p@),
    {
        if !self.remove(p) {
            assert(self@ =~= old(self)@);
            let _ = self.insert(p.copy());
        }
    }

    /// Whether the set holds nothing.
    pub fn is_empty(&self) -> (r: bool)
        ensures
            r == (self@ == Set::<PathView>::empty()),
    {
        if self.items.len() == 0 {
            assert(path_views(self.items@) =~= Seq::<PathView>::empty());
            assert(self@ =~= Set::<PathView>::empty());
            true
        } else {
            assert(path_views(self.items@).contains(path_views(self.items@)[0]));
            assert(self@.contains(path_views(self.items@)[0]));
            false
        }
    }

    /// Whether every path of the list is in the set.
    pub fn contains_all(&self, v: &Vec<FilePath>) -> (r: bool)
        ensures
            r == all_in(path_views(v@), self@),
    {
        let mut i: usize = 0;
        while i < v.len()
            invariant
                i <= v.len(),
                forall|j: int| 0 <= j < i ==> self@.contains(#[trigger] path_views(v@)[j]),
            decreases v.len() - i,
        {
            if !self.contains(&v[i]) {
                assert(!self@.contains(path_views(v@)[i as int]));
                return false;
            }
            i = i + 1;
        }
        true
    }

    /// Whether two sets hold the same paths.
    pub fn equal(&self, other: &PathSet) -> (r: bool)
        ensures
            r == (self@ == other@),
    {
        let r = self.contains_all(&other.items) && other.contains_all(&self.items);
        proof {
            let a = path_views(self.items@);
            let b = path_views(other.items@);
            if r {
                assert forall|p: PathView| self@.contains(p) == other@.contains(p) by {
                    if a.contains(p) {
                        let i = choose|i: int| 0 <= i < a.len() && a[i] == p;
                        assert(other@.contains(a[i]));
                    }
                    if b.contains(p) {
                        let i = choose|i: int| 0 <= i < b.len() && b[i] == p;
                        assert(self@.contains(b[i]));
                    }
                }
                assert(self@ =~= other@);
            } else {
                assert forall|i: int| 0 <= i < a.len() implies self@.contains(#[trigger] a[i]) by {
                    assert(a.contains(a[i]));
                }
                assert forall|i: int| 0 <= i < b.len() implies other@.contains(#[trigger] b[i]) by {
                    assert(b.contains(b[i]));
                }
            }
        }
        r
    }

    /// A copy of the set.
    pub fn copy(&self) -> (r: PathSet)
        requires
            self.wf(),
        ensures
            r.wf(),
            r@ == self@,
    {
        PathSet { items: copy_paths(&self.items) }
    }
}

/// Every path of the list is in the set.
pub open spec fn all_in(v: Seq<PathView>, s: Set<PathView>) -> bool {
    forall|i: int| 0 <= i < v.len() ==> s.contains(#[trigger] v[i])
}

/// `s` with the membership of `p` turned round.
pub open spec fn toggled(s: Set<PathView>, p: PathView) -> Set<PathView> {
    if s.contains(p) {
        s.remove(p)
    } else {
        s.insert(p)
    }
}

/// Toggling twice changes nothing.
pub proof fn toggling_twice_restores(s: Set<PathView>, p: PathView)
    ensures
        toggled(toggled(s, p), p) == s,
{
    assert(toggled(toggled(s, p), p) =~= s);
}

// ── the order of paths ──────────────────────────────────────────────────────

/// A dot comes first, then two dots, then names.
pub open spec fn part_rank(c: Seq<char>) -> int {
    if c == seq!['.'] {
        0
    } else if c == seq!['.', '.'] {
        1
    } else {
        2
    }
}

/// Whether one component comes before another.
pub open spec fn part_less(a: Seq<char>, b: Seq<char>) -> bool {
    part_rank(a) < part_rank(b) || (part_rank(a) == 2 && part_rank(b) == 2 && text_less(a, b))
}

/// Whether one list of components comes before another, the first difference deciding.
pub open spec fn parts_less(a: Seq<Seq<char>>, b: Seq<Seq<char>>) -> bool
    decreases a.len(),
{
    if b.len() == 0 {
        false
    } else if a.len() == 0 {
        true
    } else if a[0] != b[0] {
        part_less(a[0], b[0])
    } else {
        parts_less(a.drop_first(), b.drop_first())
    }
}

/// Whether one path comes before another: the empty path, then absolute ones, then
/// relative ones, each by their components.
pub open spec fn path_less(a: PathView, b: PathView) -> bool {
    if a.abs == b.abs {
        parts_less(a.parts, b.parts)
    } else if a.abs {
        b.parts.len() > 0
    } else {
        a.parts.len() == 0
    }
}

proof fn lemma_part_order(a: Seq<char>, b: Seq<char>, c: Seq<char>)
    ensures
        part_less(a, b) ==> !part_less(b, a),
        a == b || part_less(a, b) || part_less(b, a),
        part_less(a, b) && part_less(b, c) ==> part_less(a, c),
        !part_less(a, a),
{
    text_less_irreflexive(a);
    text_less_strict(a, b);
    text_less_total(a, b);
    if text_less(a, b) && text_less(b, c) {
        text_less_transitive(a, b, c);
    }
    if part_rank(a) == 0 && part_rank(b) == 0 {
        assert(a == b);
    }
}

proof fn lemma_parts_total(a: Seq<Seq<char>>, b: Seq<Seq<char>>)
    ensures
        parts_less(a, b) ==> !parts_less(b, a),
        a == b || parts_less(a, b) || parts_less(b, a),
    decreases a.len(),
{
    if a.len() > 0 && b.len() > 0 {
        lemma_part_order(a[0], b[0], b[0]);
        lemma_part_order(b[0], a[0], a[0]);
        if a[0] == b[0] {
            lemma_parts_total(a.drop_first(), b.drop_first());
            if a.drop_first() == b.drop_first() {
                assert(a =~= seq![a[0]] + a.drop_first());
                assert(b =~= seq![b[0]] + b.drop_first());
            }
        }
    } else if a.len() == 0 && b.len() == 0 {
        assert(a =~= b);
    }
}

proof fn lemma_parts_transitive(a: Seq<Seq<char>>, b: Seq<Seq<char>>, c: Seq<Seq<char>>)
    requires
        parts_less(a, b),
        parts_less(b, c),
    ensures
        parts_less(a, c),
    decreases a.len(),
{
    if a.len() > 0 {
        lemma_part_order(a[0], b[0], c[0]);
        lemma_part_order(b[0], a[0], c[0]);
        if a[0] == b[0] && b[0] == c[0] {
            lemma_parts_transitive(a.drop_first(), b.drop_first(), c.drop_first());
        }
    }
}

/// Two paths are never both before one another, and of two different ones one is before
/// the other.
pub proof fn path_order_is_total(a: PathView, b: PathView)
    ensures
        path_less(a, b) ==> !path_less(b, a),
        a == b || path_less(a, b) || path_less(b, a),
{
    lemma_parts_total(a.parts, b.parts);
}

/// Being before carries over.
pub proof fn path_order_is_transitive(a: PathView, b: PathView, c: PathView)
    requires
        path_less(a, b),
        path_less(b, c),
    ensures
        path_less(a, c),
{
    if a.abs == b.abs && b.abs == c.abs {
        lemma_parts_transitive(a.parts, b.parts, c.parts);
    }
}

fn rank_of(c: &str) -> (r: u8)
    ensures
        r == part_rank(c@),
{
    proof {
        reveal_strlit(".");
        reveal_strlit("..");
        assert("."@ =~= seq!['.']);
        assert(".."@ =~= seq!['.', '.']);
    }
    if same(c, ".") {
        0
    } else if same(c, "..") {
        1
    } else {
        2
    }
}

impl FilePath {
    /// Whether the path comes before `other`.
    pub fn less(&self, other: &FilePath) -> (r: bool)
        ensures
            r == path_less(self@, other@),
    {
        if self.abs != other.abs {
            return if self.abs {
                other.parts.len() > 0
            } else {
                self.parts.len() == 0
            };
        }
        let ghost a = self@.parts;
        let ghost b = other@.parts;
        let mut i: usize = 0;
        assert(a.skip(0) =~= a);
        assert(b.skip(0) =~= b);
        while i < self.parts.len() && i < other.parts.len()
            invariant
                i <= self.parts.len(),
                i <= other.parts.len(),
                self.abs == other.abs,
                a == self@.parts,
                b == other@.parts,
                parts_less(a, b) == parts_less(a.skip(i as int), b.skip(i as int)),
            decreases self.parts.len() - i,
        {
            let x = self.parts[i].as_str();
            let y = other.parts[i].as_str();
            assert(a.skip(i as int)[0] == x@);
            assert(b.skip(i as int)[0] == y@);
            if !same(x, y) {
                let p: u8 = rank_of(x);
                let q: u8 = rank_of(y);
                return p < q || (p == 2 && q == 2 && less_text(x, y));
            }
            assert(a.skip(i as int).drop_first() =~= a.skip(i + 1));
            assert(b.skip(i as int).drop_first() =~= b.skip(i + 1));
            i = i + 1;
        }
        i < other.parts.len()
    }
}

// ── the parts of a path ─────────────────────────────────────────────────────

/// The last place of a character is behind all others of it.
pub proof fn the_last_place_is_the_last(a: Seq<char>, c: char, b: Seq<char>)
    requires
        !b.contains(c),
    ensures
        last_char(a + seq![c] + b, c) == a.len(),
        last_char(b, c) == -1,
    decreases b.len(),
{
    let l = a + seq![c] + b;
    if b.len() > 0 {
        let d = b.drop_last();
        assert(!d.contains(c)) by {
            if d.contains(c) {
                let k = choose|k: int| 0 <= k < d.len() && d[k] == c;
                assert(b[k] == c);
            }
        }
        the_last_place_is_the_last(a, c, d);
        assert(l.drop_last() =~= a + seq![c] + d);
        assert(l.last() == b.last());
        assert(b[b.len() - 1] != c);
    }
}

/// A path that is taken apart at its last slash is its directory and its name; what stands behind
/// the last dot of a name is its extension, unless the dot is in front.
pub proof fn a_path_is_a_directory_and_a_name(dir: PathView, stem: Seq<char>, ext: Seq<char>, name: Seq<char>)
    requires
        stem.len() > 0,
        !ext.contains('.'),
        ext.len() > 0,
        !name.contains('.'),
        name.len() > 0,
    ensures
        ({
            let p = PathView { abs: dir.abs, parts: dir.parts.push(stem + seq!['.'] + ext) };
            let q = PathView { abs: dir.abs, parts: dir.parts.push(name) };
            &&& parent_of(p) == Some(dir) && parent_of(q) == Some(dir)
            &&& name_of(p) == Some(stem + seq!['.'] + ext) && name_of(q) == Some(name)
            &&& extension_of(p) == Some(ext) && extension_of(q) is None
            &&& under(p, dir) && stripped(p, dir) == Some(PathView { abs: false, parts: seq![stem + seq!['.'] + ext] })
        }),
        extension_of(PathView { abs: dir.abs, parts: dir.parts.push(seq!['.'] + ext) }) is None,
        parent_of(PathView { abs: dir.abs, parts: Seq::empty() }) is None,
{
    let n = stem + seq!['.'] + ext;
    let p = PathView { abs: dir.abs, parts: dir.parts.push(n) };
    let q = PathView { abs: dir.abs, parts: dir.parts.push(name) };
    assert(p.parts.drop_last() =~= dir.parts);
    assert(q.parts.drop_last() =~= dir.parts);
    the_last_place_is_the_last(stem, '.', ext);
    the_last_place_is_the_last(stem, '.', name);
    assert(n.skip(stem.len() as int + 1) =~= ext);
    assert(n.last() == ext.last());
    assert(ext[ext.len() - 1] != '.');
    assert(n != seq!['.'] && n != seq!['.', '.']) by {
        assert(seq!['.'].last() == '.' && seq!['.', '.'].last() == '.');
    }
    assert(name[0] != '.');
    assert(p.parts.take(dir.parts.len() as int) =~= dir.parts);
    assert(p.parts.skip(dir.parts.len() as int) =~= seq![n]);
    let e = Seq::<char>::empty();
    the_last_place_is_the_last(e, '.', ext);
    assert(e + seq!['.'] + ext =~= seq!['.'] + ext);
}

/// A path under a root is shown by the names that lead to it from there, with slashes between them;
/// one that lies elsewhere is shown whole.
pub proof fn paths_are_shown_from_the_root(root: PathView, names: Seq<Seq<char>>, p: PathView)
    ensures
        rel_text(root, PathView { abs: root.abs, parts: root.parts + names }) == joined(names, seq!['/']),
        !under(p, root) ==> rel_text(root, p) == path_text(p),
        path_text(PathView { abs: true, parts: names }) == seq!['/'] + joined(names, seq!['/']),
        path_text(PathView { abs: false, parts: names }) == joined(names, seq!['/']),
{
    let q = PathView { abs: root.abs, parts: root.parts + names };
    assert(q.parts.take(root.parts.len() as int) =~= root.parts);
    assert(q.parts.skip(root.parts.len() as int) =~= names);
}

/// Paths in one directory stand in the order of their names, and a directory stands before what is
/// in it.
pub proof fn paths_stand_by_their_names(dir: PathView, a: Seq<char>, b: Seq<char>, rest: Seq<Seq<char>>)
    ensures
        part_less(a, b) ==> path_less(
            PathView { abs: dir.abs, parts: dir.parts.push(a) },
            PathView { abs: dir.abs, parts: dir.parts.push(b) },
        ),
        rest.len() > 0 ==> path_less(dir, PathView { abs: dir.abs, parts: dir.parts + rest }),
{
    lemma_parts_front(dir.parts, seq![a], seq![b]);
    assert(dir.parts + seq![a] =~= dir.parts.push(a));
    assert(dir.parts + seq![b] =~= dir.parts.push(b));
    if part_less(a, b) {
        path_less_names(a, b);
    }
    lemma_parts_front(dir.parts, Seq::empty(), rest);
    assert(dir.parts + Seq::<Seq<char>>::empty() =~= dir.parts);
}

proof fn path_less_names(a: Seq<char>, b: Seq<char>)
    requires
        part_less(a, b),
    ensures
        a != b,
        parts_less(seq![a], seq![b]),
{
    lemma_part_order(a, b, a);
}

proof fn lemma_parts_front(p: Seq<Seq<char>>, a: Seq<Seq<char>>, b: Seq<Seq<char>>)
    ensures
        parts_less(p + a, p + b) == parts_less(a, b),
    decreases p.len(),
{
    if p.len() == 0 {
        assert(p + a =~= a && p + b =~= b);
    } else {
        lemma_parts_front(p.drop_first(), a, b);
        assert((p + a).drop_first() =~= p.drop_first() + a);
        assert((p + b).drop_first() =~= p.drop_first() + b);
        assert((p + a)[0] == p[0] && (p + b)[0] == p[0]);
    }
}

/// A marked path is unmarked and an unmarked one marked; no other path changes.
pub proof fn toggling_turns_one_path_round(s: Set<PathView>, p: PathView, q: PathView)
    ensures
        toggled(s, p).contains(p) <==> !s.contains(p),
        q != p ==> (toggled(s, p).contains(q) <==> s.contains(q)),
{
}

} // verus!
