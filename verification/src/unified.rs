//! The rows of a diff, from what `git diff` says of two texts with every line kept.
use vstd::prelude::*;
use crate::diff::{DiffKind, DiffRow, numbered};
use crate::text::{begins, chars_of, filter_map, lemma_texts_push, line_seq, lines, opt_text, starts_with, string_of, texts};

verus! {

/// A row before its lines are numbered.
#[derive(Debug)]
pub struct PlainRow {
    pub left: Option<String>,
    pub right: Option<String>,
    pub kind: DiffKind,
}

/// What such a row holds.
pub ghost struct PlainView {
    pub left: Option<Seq<char>>,
    pub right: Option<Seq<char>>,
    pub kind: DiffKind,
}

impl View for PlainRow {
    type V = PlainView;

    open spec fn view(&self) -> PlainView {
        PlainView { left: opt_text(self.left), right: opt_text(self.right), kind: self.kind }
    }
}

/// What the rows hold.
pub open spec fn plain_views(v: Seq<PlainRow>) -> Seq<PlainView> {
    Seq::new(v.len(), |i: int| v[i]@)
}

/// Whether a line heads a block of changes.
pub open spec fn is_heading(l: Seq<char>) -> bool {
    begins(l, "@@"@)
}

/// The place of the first heading; the number of lines where there is none.
pub open spec fn first_heading(ls: Seq<Seq<char>>) -> int
    decreases ls.len(),
{
    if ls.len() == 0 || is_heading(ls[0]) {
        0
    } else {
        1 + first_heading(ls.drop_first())
    }
}

/// What stands behind the sign of a line.
pub open spec fn behind(l: Seq<char>, sign: char) -> Option<Seq<char>> {
    if l.len() > 0 && l[0] == sign {
        Some(l.skip(1))
    } else {
        None
    }
}

/// Row `i` of lines that went beside lines that came.
pub open spec fn beside(gone: Seq<Seq<char>>, came: Seq<Seq<char>>, i: int) -> PlainView {
    PlainView {
        left: if i < gone.len() {
            Some(gone[i])
        } else {
            None
        },
        right: if i < came.len() {
            Some(came[i])
        } else {
            None
        },
        kind: if i < gone.len() && i < came.len() {
            DiffKind::Replace
        } else if i < gone.len() {
            DiffKind::Del
        } else {
            DiffKind::Ins
        },
    }
}

/// The rows of lines that went and lines that came in their place.
pub open spec fn settled(gone: Seq<Seq<char>>, came: Seq<Seq<char>>) -> Seq<PlainView> {
    Seq::new(
        if gone.len() > came.len() {
            gone.len()
        } else {
            came.len()
        },
        |i: int| beside(gone, came, i),
    )
}

/// The rows that the lines from `k` to `n` make, and the lines that went and came since the last
/// one that stayed.
pub open spec fn taken(ls: Seq<Seq<char>>, k: int, n: int) -> (Seq<PlainView>, Seq<Seq<char>>, Seq<Seq<char>>)
    decreases n - k,
{
    if n <= k {
        (Seq::empty(), Seq::empty(), Seq::empty())
    } else {
        let (rows, gone, came) = taken(ls, k, n - 1);
        let l = ls[n - 1];
        if is_heading(l) {
            (rows, gone, came)
        } else if behind(l, '-') is Some {
            (rows, gone.push(l.skip(1)), came)
        } else if behind(l, '+') is Some {
            (rows, gone, came.push(l.skip(1)))
        } else if behind(l, ' ') is Some {
            (
                (rows + settled(gone, came)).push(
                    PlainView { left: Some(l.skip(1)), right: Some(l.skip(1)), kind: DiffKind::Equal },
                ),
                Seq::empty(),
                Seq::empty(),
            )
        } else {
            (rows, gone, came)
        }
    }
}

/// The rows of a diff.
pub open spec fn plain_rows(ls: Seq<Seq<char>>) -> Seq<PlainView> {
    let t = taken(ls, first_heading(ls), ls.len() as int);
    t.0 + settled(t.1, t.2)
}

/// The rows of two texts that are the same.
pub open spec fn equal_rows(ls: Seq<Seq<char>>) -> Seq<PlainView> {
    ls.map_values(
        |l: Seq<char>| PlainView { left: Some(l), right: Some(l), kind: DiffKind::Equal },
    )
}

/// How many of the first `n` rows have a line on the left.
pub open spec fn lefts(v: Seq<PlainView>, n: int) -> nat
    decreases n,
{
    if n <= 0 {
        0
    } else {
        lefts(v, n - 1) + if v[n - 1].left is Some {
            1nat
        } else {
            0
        }
    }
}

/// How many of the first `n` rows have a line on the right.
pub open spec fn rights(v: Seq<PlainView>, n: int) -> nat
    decreases n,
{
    if n <= 0 {
        0
    } else {
        rights(v, n - 1) + if v[n - 1].right is Some {
            1nat
        } else {
            0
        }
    }
}

/// Whether `r` is row `i`, with its lines numbered from 1 on each side.
pub open spec fn is_numbered_row(v: Seq<PlainView>, i: int, r: DiffRow) -> bool {
    &&& opt_text(r.left) == v[i].left
    &&& opt_text(r.right) == v[i].right
    &&& r.kind == v[i].kind
    &&& match r.left_no {
        Some(n) => v[i].left is Some && n == lefts(v, i + 1),
        None => v[i].left is None,
    }
    &&& match r.right_no {
        Some(n) => v[i].right is Some && n == rights(v, i + 1),
        None => v[i].right is None,
    }
}

fn heading(l: &str) -> (r: bool)
    ensures
        r == is_heading(l@),
{
    starts_with(l, "@@")
}

fn rest(l: &str, sign: char) -> (r: Option<String>)
    ensures
        opt_text(r) == behind(l@, sign),
{
    let v = chars_of(l);
    if v.len() > 0 && v[0] == sign {
        let s = string_of(&v, 1, v.len());
        assert(l@.subrange(1, l@.len() as int) =~= l@.skip(1));
        Some(s)
    } else {
        None
    }
}

fn settle(rows: &mut Vec<PlainRow>, gone: &Vec<String>, came: &Vec<String>)
    ensures
        plain_views(final(rows)@) == plain_views(old(rows)@) + settled(texts(gone@), texts(came@)),
{
    let ghost before = plain_views(rows@);
    let ghost a = texts(gone@);
    let ghost b = texts(came@);
    let ghost all = settled(a, b);
    let n: usize = if gone.len() > came.len() {
        gone.len()
    } else {
        came.len()
    };
    let mut i: usize = 0;
    assert(before + all.take(0) =~= before);
    while i < n
        invariant
            i <= n,
            n == all.len(),
            a == texts(gone@),
            b == texts(came@),
            all == settled(a, b),
            plain_views(rows@) == before + all.take(i as int),
        decreases n - i,
    {
        let left = if i < gone.len() {
            assert(a[i as int] == gone@[i as int]@);
            Some(gone[i].clone())
        } else {
            None
        };
        let right = if i < came.len() {
            assert(b[i as int] == came@[i as int]@);
            Some(came[i].clone())
        } else {
            None
        };
        let kind = if i < gone.len() && i < came.len() {
            DiffKind::Replace
        } else if i < gone.len() {
            DiffKind::Del
        } else {
            DiffKind::Ins
        };
        let ghost was = rows@;
        let row = PlainRow { left, right, kind };
        rows.push(row);
        proof {
            assert(row@ == all[i as int]);
            assert(plain_views(rows@) =~= plain_views(was).push(row@));
            assert(before + all.take(i + 1) =~= (before + all.take(i as int)).push(row@));
        }
        i = i + 1;
    }
    assert(all.take(all.len() as int) =~= all);
}

fn number(rows: Vec<PlainRow>) -> (r: Vec<DiffRow>)
    ensures
        r@.len() == rows@.len(),
        forall|i: int| 0 <= i < r@.len() ==> is_numbered_row(plain_views(rows@), i, #[trigger] r@[i]),
{
    let ghost v = plain_views(rows@);
    let mut out: Vec<DiffRow> = Vec::new();
    let mut l: usize = 0;
    let mut r: usize = 0;
    let mut i: usize = 0;
    while i < rows.len()
        invariant
            i <= rows.len(),
            v == plain_views(rows@),
            l == lefts(v, i as int),
            r == rights(v, i as int),
            l <= i,
            r <= i,
            out.len() == i,
            forall|j: int| 0 <= j < i ==> is_numbered_row(v, j, #[trigger] out@[j]),
        decreases rows.len() - i,
    {
        let x = &rows[i];
        assert(v[i as int] == x@);
        let left_no = match &x.left {
            Some(_) => {
                l = l + 1;
                Some(l)
            },
            None => None,
        };
        let right_no = match &x.right {
            Some(_) => {
                r = r + 1;
                Some(r)
            },
            None => None,
        };
        let row = DiffRow {
            left: match &x.left {
                Some(s) => Some(s.clone()),
                None => None,
            },
            right: match &x.right {
                Some(s) => Some(s.clone()),
                None => None,
            },
            left_no,
            right_no,
            kind: x.kind,
        };
        assert(is_numbered_row(v, i as int, row));
        out.push(row);
        i = i + 1;
    }
    out
}

proof fn lemma_first_heading(ls: Seq<Seq<char>>)
    ensures
        0 <= first_heading(ls) <= ls.len(),
    decreases ls.len(),
{
    if ls.len() > 0 && !is_heading(ls[0]) {
        lemma_first_heading(ls.drop_first());
    }
}

/// The rows that a unified diff with every line makes.
pub fn unified_rows(diff: &str) -> (r: Vec<DiffRow>)
    ensures
        r@.len() == plain_rows(line_seq(diff@)).len(),
        forall|i: int|
            0 <= i < r@.len() ==> is_numbered_row(plain_rows(line_seq(diff@)), i, #[trigger] r@[i]),
        numbered(r@),
{
    let ls = lines(diff);
    let ghost all = line_seq(diff@);
    assert(texts(ls@).len() == ls.len());
    let mut k: usize = 0;
    assert(all.skip(0) =~= all);
    proof {
        lemma_first_heading(all);
    }
    while k < ls.len() && !heading(ls[k].as_str())
        invariant
            k <= ls.len(),
            texts(ls@) == all,
            all.len() == ls.len(),
            first_heading(all) == k + first_heading(all.skip(k as int)),
        decreases ls.len() - k,
    {
        proof {
            assert(all.skip(k as int)[0] == all[k as int]);
            assert(all[k as int] == ls@[k as int]@);
            assert(all.skip(k as int).drop_first() =~= all.skip(k + 1));
        }
        k = k + 1;
    }
    proof {
        if k < ls.len() {
            assert(all.skip(k as int)[0] == all[k as int]);
            assert(all[k as int] == ls@[k as int]@);
        }
        assert(first_heading(all) == k);
    }
    let mut rows: Vec<PlainRow> = Vec::new();
    let mut gone: Vec<String> = Vec::new();
    let mut came: Vec<String> = Vec::new();
    let mut n: usize = k;
    proof {
        assert(plain_views(rows@) =~= Seq::<PlainView>::empty());
        assert(texts(gone@) =~= Seq::<Seq<char>>::empty());
        assert(texts(came@) =~= Seq::<Seq<char>>::empty());
    }
    while n < ls.len()
        invariant
            k <= n <= ls.len(),
            texts(ls@) == all,
            all.len() == ls.len(),
            (plain_views(rows@), texts(gone@), texts(came@)) == taken(all, k as int, n as int),
        decreases ls.len() - n,
    {
        let l = ls[n].as_str();
        assert(all[n as int] == l@);
        if heading(l) {
        } else if let Some(t) = rest(l, '-') {
            proof {
                lemma_texts_push(gone@, t);
            }
            gone.push(t);
        } else if let Some(t) = rest(l, '+') {
            proof {
                lemma_texts_push(came@, t);
            }
            came.push(t);
        } else if let Some(t) = rest(l, ' ') {
            settle(&mut rows, &gone, &came);
            let ghost was = rows@;
            let row = PlainRow { left: Some(t.clone()), right: Some(t), kind: DiffKind::Equal };
            rows.push(row);
            gone = Vec::new();
            came = Vec::new();
            proof {
                assert(plain_views(rows@) =~= plain_views(was).push(row@));
                assert(texts(gone@) =~= Seq::<Seq<char>>::empty());
                assert(texts(came@) =~= Seq::<Seq<char>>::empty());
            }
        }
        n = n + 1;
    }
    settle(&mut rows, &gone, &came);
    let ghost pv = plain_views(rows@);
    assert(pv == plain_rows(all));
    let r = number(rows);
    assert forall|i: int| 0 <= i < r@.len() implies (#[trigger] r@[i]).left_no != Some(0usize)
        && r@[i].right_no != Some(0usize) by {
        assert(is_numbered_row(pv, i, r@[i]));
    }
    r
}

/// The rows of two texts that are the same.
pub fn same_rows(text: &str) -> (r: Vec<DiffRow>)
    ensures
        r@.len() == line_seq(text@).len(),
        forall|i: int|
            0 <= i < r@.len() ==> is_numbered_row(equal_rows(line_seq(text@)), i, #[trigger] r@[i]),
        numbered(r@),
{
    let ls = lines(text);
    let ghost all = line_seq(text@);
    assert(texts(ls@).len() == ls.len());
    let mut rows: Vec<PlainRow> = Vec::new();
    let mut i: usize = 0;
    while i < ls.len()
        invariant
            i <= ls.len(),
            texts(ls@) == all,
            all.len() == ls.len(),
            rows.len() == i,
            forall|j: int| 0 <= j < i ==> (#[trigger] rows@[j])@ == equal_rows(all)[j],
        decreases ls.len() - i,
    {
        assert(all[i as int] == ls@[i as int]@);
        rows.push(
            PlainRow {
                left: Some(ls[i].clone()),
                right: Some(ls[i].clone()),
                kind: DiffKind::Equal,
            },
        );
        i = i + 1;
    }
    assert(plain_views(rows@) =~= equal_rows(all));
    let r = number(rows);
    assert forall|i: int| 0 <= i < r@.len() implies (#[trigger] r@[i]).left_no != Some(0usize)
        && r@[i].right_no != Some(0usize) by {
        assert(is_numbered_row(equal_rows(all), i, r@[i]));
    }
    r
}

// ── laws ────────────────────────────────────────────────────────────────────

/// The lines on the left of some rows.
pub open spec fn left_lines(v: Seq<PlainView>) -> Seq<Seq<char>> {
    filter_map(v, |r: PlainView| r.left)
}

/// The lines from `k` to `n` that the old text has: those that went and those that stayed.
pub open spec fn old_lines(ls: Seq<Seq<char>>, k: int, n: int) -> Seq<Seq<char>>
    decreases n - k,
{
    if n <= k {
        Seq::empty()
    } else {
        let s = old_lines(ls, k, n - 1);
        let l = ls[n - 1];
        if !is_heading(l) && (behind(l, '-') is Some || behind(l, ' ') is Some) {
            s.push(l.skip(1))
        } else {
            s
        }
    }
}

proof fn lemma_left_concat(a: Seq<PlainView>, b: Seq<PlainView>)
    ensures
        left_lines(a + b) == left_lines(a) + left_lines(b),
    decreases b.len(),
{
    if b.len() == 0 {
        assert(a + b =~= a);
        assert(left_lines(a) + left_lines(b) =~= left_lines(a));
    } else {
        lemma_left_concat(a, b.drop_last());
        assert((a + b).drop_last() =~= a + b.drop_last());
        assert(left_lines(a + b) =~= left_lines(a) + left_lines(b));
    }
}

proof fn lemma_left_settled(gone: Seq<Seq<char>>, came: Seq<Seq<char>>, n: int)
    requires
        0 <= n <= settled(gone, came).len(),
    ensures
        left_lines(settled(gone, came).take(n)) == gone.take(if n < gone.len() {
            n
        } else {
            gone.len() as int
        }),
    decreases n,
{
    let all = settled(gone, came);
    let m = if n < gone.len() {
        n
    } else {
        gone.len() as int
    };
    if n > 0 {
        lemma_left_settled(gone, came, n - 1);
        let t = all.take(n);
        assert(t.drop_last() =~= all.take(n - 1));
        assert(t.last() == beside(gone, came, n - 1));
        assert(left_lines(t) =~= gone.take(m));
    } else {
        assert(all.take(0) =~= Seq::<PlainView>::empty());
        assert(gone.take(0) =~= Seq::<Seq<char>>::empty());
    }
}

proof fn lemma_left_taken(ls: Seq<Seq<char>>, k: int, n: int)
    requires
        0 <= k <= n <= ls.len(),
    ensures
        left_lines(taken(ls, k, n).0) + taken(ls, k, n).1 == old_lines(ls, k, n),
    decreases n - k,
{
    if n > k {
        lemma_left_taken(ls, k, n - 1);
        let (rows, gone, came) = taken(ls, k, n - 1);
        let l = ls[n - 1];
        let all = settled(gone, came);
        if is_heading(l) {
        } else if behind(l, '-') is Some {
            assert(left_lines(rows) + gone.push(l.skip(1)) =~= (left_lines(rows) + gone).push(l.skip(1)));
        } else if behind(l, '+') is Some {
        } else if behind(l, ' ') is Some {
            let e = PlainView { left: Some(l.skip(1)), right: Some(l.skip(1)), kind: DiffKind::Equal };
            let r = (rows + all).push(e);
            lemma_left_concat(rows, all);
            lemma_left_settled(gone, came, all.len() as int);
            assert(all.take(all.len() as int) =~= all);
            assert(gone.take(gone.len() as int) =~= gone);
            assert(r.drop_last() =~= rows + all);
            assert(left_lines(r) =~= left_lines(rows + all).push(l.skip(1)));
            assert(left_lines(r) + Seq::<Seq<char>>::empty() =~= left_lines(r));
        }
    } else {
        assert(left_lines(taken(ls, k, n).0) + taken(ls, k, n).1 =~= old_lines(ls, k, n));
    }
}

/// The left sides of the rows are the lines of the old text, in their order.
pub proof fn left_sides_are_the_old_text(ls: Seq<Seq<char>>)
    ensures
        left_lines(plain_rows(ls)) == old_lines(ls, first_heading(ls), ls.len() as int),
{
    lemma_first_heading(ls);
    let t = taken(ls, first_heading(ls), ls.len() as int);
    lemma_left_taken(ls, first_heading(ls), ls.len() as int);
    lemma_left_concat(t.0, settled(t.1, t.2));
    let all = settled(t.1, t.2);
    lemma_left_settled(t.1, t.2, all.len() as int);
    assert(all.take(all.len() as int) =~= all);
    assert(t.1.take(t.1.len() as int) =~= t.1);
}

/// The lines on the right of some rows.
pub open spec fn right_lines(v: Seq<PlainView>) -> Seq<Seq<char>> {
    filter_map(v, |r: PlainView| r.right)
}

/// The lines from `k` to `n` that the new text has: those that came and those that stayed.
pub open spec fn new_lines(ls: Seq<Seq<char>>, k: int, n: int) -> Seq<Seq<char>>
    decreases n - k,
{
    if n <= k {
        Seq::empty()
    } else {
        let s = new_lines(ls, k, n - 1);
        let l = ls[n - 1];
        if !is_heading(l) && (behind(l, '+') is Some || behind(l, ' ') is Some) {
            s.push(l.skip(1))
        } else {
            s
        }
    }
}

proof fn lemma_right_concat(a: Seq<PlainView>, b: Seq<PlainView>)
    ensures
        right_lines(a + b) == right_lines(a) + right_lines(b),
    decreases b.len(),
{
    if b.len() == 0 {
        assert(a + b =~= a);
        assert(right_lines(a) + right_lines(b) =~= right_lines(a));
    } else {
        lemma_right_concat(a, b.drop_last());
        assert((a + b).drop_last() =~= a + b.drop_last());
        assert(right_lines(a + b) =~= right_lines(a) + right_lines(b));
    }
}

proof fn lemma_right_settled(gone: Seq<Seq<char>>, came: Seq<Seq<char>>, n: int)
    requires
        0 <= n <= settled(gone, came).len(),
    ensures
        right_lines(settled(gone, came).take(n)) == came.take(if n < came.len() {
            n
        } else {
            came.len() as int
        }),
    decreases n,
{
    let all = settled(gone, came);
    let m = if n < came.len() {
        n
    } else {
        came.len() as int
    };
    if n > 0 {
        lemma_right_settled(gone, came, n - 1);
        let t = all.take(n);
        assert(t.drop_last() =~= all.take(n - 1));
        assert(t.last() == beside(gone, came, n - 1));
        assert(right_lines(t) =~= came.take(m));
    } else {
        assert(all.take(0) =~= Seq::<PlainView>::empty());
        assert(came.take(0) =~= Seq::<Seq<char>>::empty());
    }
}

proof fn lemma_right_taken(ls: Seq<Seq<char>>, k: int, n: int)
    requires
        0 <= k <= n <= ls.len(),
    ensures
        right_lines(taken(ls, k, n).0) + taken(ls, k, n).2 == new_lines(ls, k, n),
    decreases n - k,
{
    if n > k {
        lemma_right_taken(ls, k, n - 1);
        let (rows, gone, came) = taken(ls, k, n - 1);
        let l = ls[n - 1];
        let all = settled(gone, came);
        if is_heading(l) {
        } else if behind(l, '+') is Some {
            assert(right_lines(rows) + came.push(l.skip(1)) =~= (right_lines(rows) + came).push(l.skip(1)));
        } else if behind(l, '-') is Some {
        } else if behind(l, ' ') is Some {
            let e = PlainView { left: Some(l.skip(1)), right: Some(l.skip(1)), kind: DiffKind::Equal };
            let r = (rows + all).push(e);
            lemma_right_concat(rows, all);
            lemma_right_settled(gone, came, all.len() as int);
            assert(all.take(all.len() as int) =~= all);
            assert(came.take(came.len() as int) =~= came);
            assert(r.drop_last() =~= rows + all);
            assert(right_lines(r) =~= right_lines(rows + all).push(l.skip(1)));
            assert(right_lines(r) + Seq::<Seq<char>>::empty() =~= right_lines(r));
        }
    } else {
        assert(right_lines(taken(ls, k, n).0) + taken(ls, k, n).2 =~= new_lines(ls, k, n));
    }
}

/// The right sides of the rows are the lines of the new text, in their order.
pub proof fn right_sides_are_the_new_text(ls: Seq<Seq<char>>)
    ensures
        right_lines(plain_rows(ls)) == new_lines(ls, first_heading(ls), ls.len() as int),
{
    lemma_first_heading(ls);
    let t = taken(ls, first_heading(ls), ls.len() as int);
    lemma_right_taken(ls, first_heading(ls), ls.len() as int);
    lemma_right_concat(t.0, settled(t.1, t.2));
    let all = settled(t.1, t.2);
    lemma_right_settled(t.1, t.2, all.len() as int);
    assert(all.take(all.len() as int) =~= all);
    assert(t.2.take(t.2.len() as int) =~= t.2);
}

// ── what a diff says of its lines ───────────────────────────────────────────

/// The text behind the sign of a line that has one of two signs.
pub open spec fn signed(l: Seq<char>, a: char, b: char) -> Option<Seq<char>> {
    if l.len() > 0 && (l[0] == a || l[0] == b) {
        Some(l.skip(1))
    } else {
        None
    }
}

/// The texts of the lines of a diff that have one of two signs, in their order.
pub open spec fn lines_signed(body: Seq<Seq<char>>, a: char, b: char) -> Seq<Seq<char>> {
    filter_map(body, |l: Seq<char>| signed(l, a, b))
}

/// Whether a line begins with two at signs.
pub open spec fn two_at_signs(l: Seq<char>) -> bool {
    l.len() >= 2 && l[0] == '@' && l[1] == '@'
}

/// The lines of a diff: what stands before its first heading, that heading, and what follows.
pub open spec fn diff_lines(head: Seq<Seq<char>>, h: Seq<char>, body: Seq<Seq<char>>) -> Seq<Seq<char>> {
    head + seq![h] + body
}

/// Whether these are the parts of a diff: the heading is the first.
pub open spec fn diff_parts(head: Seq<Seq<char>>, h: Seq<char>) -> bool {
    two_at_signs(h) && forall|i: int| 0 <= i < head.len() ==> !two_at_signs(#[trigger] head[i])
}

proof fn lemma_is_heading(l: Seq<char>)
    ensures
        is_heading(l) == two_at_signs(l),
{
    reveal_strlit("@@");
    let p = "@@"@;
    assert(p.len() == 2 && p[0] == '@' && p[1] == '@');
    if two_at_signs(l) {
        assert(l.take(2) =~= p);
    }
    if is_heading(l) {
        assert(l.take(2) == p);
        assert(l[0] == l.take(2)[0] && l[1] == l.take(2)[1]);
    }
}

proof fn lemma_heading_place(head: Seq<Seq<char>>, h: Seq<char>, body: Seq<Seq<char>>)
    requires
        diff_parts(head, h),
    ensures
        first_heading(diff_lines(head, h, body)) == head.len(),
    decreases head.len(),
{
    let ls = diff_lines(head, h, body);
    lemma_is_heading(ls[0]);
    if head.len() > 0 {
        assert(ls[0] == head[0]);
        assert(ls.drop_first() =~= diff_lines(head.drop_first(), h, body));
        assert forall|i: int| 0 <= i < head.drop_first().len() implies !two_at_signs(
            #[trigger] head.drop_first()[i],
        ) by {
            assert(head.drop_first()[i] == head[i + 1]);
        }
        lemma_heading_place(head.drop_first(), h, body);
    }
}

proof fn lemma_old_lines(head: Seq<Seq<char>>, h: Seq<char>, body: Seq<Seq<char>>, n: int)
    requires
        two_at_signs(h),
        0 <= n <= body.len(),
    ensures
        old_lines(diff_lines(head, h, body), head.len() as int, head.len() + 1 + n) == lines_signed(body.take(n), '-', ' '),
        new_lines(diff_lines(head, h, body), head.len() as int, head.len() + 1 + n) == lines_signed(body.take(n), '+', ' '),
    decreases n,
{
    let ls = diff_lines(head, h, body);
    let k = head.len() as int;
    if n == 0 {
        assert(body.take(0) =~= Seq::<Seq<char>>::empty());
        lemma_is_heading(h);
        assert(ls[k] == h);
        assert(old_lines(ls, k, k) =~= Seq::<Seq<char>>::empty());
        assert(new_lines(ls, k, k) =~= Seq::<Seq<char>>::empty());
    } else {
        lemma_old_lines(head, h, body, n - 1);
        let l = body[n - 1];
        assert(ls[k + n] == l);
        lemma_is_heading(l);
        assert(body.take(n).drop_last() =~= body.take(n - 1));
        assert(body.take(n).last() == l);
    }
}

/// The left sides of the rows are the lines of the old text, which a diff marks with a minus or a
/// blank, and the right sides those of the new text, which it marks with a plus or a blank.
pub proof fn sides_are_the_two_texts(head: Seq<Seq<char>>, h: Seq<char>, body: Seq<Seq<char>>)
    requires
        diff_parts(head, h),
    ensures
        left_lines(plain_rows(diff_lines(head, h, body))) == lines_signed(body, '-', ' '),
        right_lines(plain_rows(diff_lines(head, h, body))) == lines_signed(body, '+', ' '),
{
    let ls = diff_lines(head, h, body);
    lemma_heading_place(head, h, body);
    left_sides_are_the_old_text(ls);
    right_sides_are_the_new_text(ls);
    lemma_old_lines(head, h, body, body.len() as int);
    assert(body.take(body.len() as int) =~= body);
}

/// The lines of the rows of one kind: the left sides, or the right ones where there is none.
pub open spec fn lines_of_kind(v: Seq<PlainView>, kind: DiffKind) -> Seq<Seq<char>> {
    filter_map(
        v,
        |r: PlainView|
            if r.kind == kind {
                if r.left is Some {
                    r.left
                } else {
                    r.right
                }
            } else {
                None
            },
    )
}

/// A row is classed by its sides: an inserted one has no left side, a deleted one no right side,
/// and an equal one the same line on both; one that was replaced has both.
pub open spec fn classed(r: PlainView) -> bool {
    match r.kind {
        DiffKind::Equal => r.left is Some && r.right == r.left,
        DiffKind::Replace => r.left is Some && r.right is Some,
        DiffKind::Del => r.left is Some && r.right is None,
        DiffKind::Ins => r.left is None && r.right is Some,
    }
}

/// Whether a row may follow another: lines that went and lines that came stand side by side as far
/// as there are both, so that behind one that stands alone there is none of the other side until
/// a line that stayed.
pub open spec fn may_follow(a: DiffKind, b: DiffKind) -> bool {
    &&& a == DiffKind::Ins ==> b == DiffKind::Ins || b == DiffKind::Equal
    &&& a == DiffKind::Del ==> b == DiffKind::Del || b == DiffKind::Equal
}

/// Whether all rows are classed and each may follow the one before it.
pub open spec fn well_paired(v: Seq<PlainView>) -> bool {
    &&& forall|i: int| 0 <= i < v.len() ==> classed(#[trigger] v[i])
    &&& forall|i: int, j: int| #![trigger v[i], v[j]] 0 <= i && j == i + 1 && j < v.len() ==> may_follow(v[i].kind, v[j].kind)
}

proof fn lemma_kind_concat(a: Seq<PlainView>, b: Seq<PlainView>, kind: DiffKind)
    ensures
        lines_of_kind(a + b, kind) == lines_of_kind(a, kind) + lines_of_kind(b, kind),
    decreases b.len(),
{
    if b.len() == 0 {
        assert(a + b =~= a);
        assert(lines_of_kind(a, kind) + lines_of_kind(b, kind) =~= lines_of_kind(a, kind));
    } else {
        lemma_kind_concat(a, b.drop_last(), kind);
        assert((a + b).drop_last() =~= a + b.drop_last());
        assert(lines_of_kind(a + b, kind) =~= lines_of_kind(a, kind) + lines_of_kind(b, kind));
    }
}

proof fn lemma_settled_unequal(gone: Seq<Seq<char>>, came: Seq<Seq<char>>, n: int)
    requires
        0 <= n <= settled(gone, came).len(),
    ensures
        lines_of_kind(settled(gone, came).take(n), DiffKind::Equal) == Seq::<Seq<char>>::empty(),
    decreases n,
{
    let all = settled(gone, came);
    if n > 0 {
        lemma_settled_unequal(gone, came, n - 1);
        let t = all.take(n);
        assert(t.drop_last() =~= all.take(n - 1));
        assert(t.last() == beside(gone, came, n - 1));
    } else {
        assert(all.take(0) =~= Seq::<PlainView>::empty());
    }
}

/// Whether the last row, if there is one, is that of a line that stayed.
pub open spec fn ends_equal(v: Seq<PlainView>) -> bool {
    v.len() > 0 ==> v.last().kind == DiffKind::Equal
}

proof fn lemma_settled_paired(rows: Seq<PlainView>, gone: Seq<Seq<char>>, came: Seq<Seq<char>>)
    requires
        well_paired(rows),
        ends_equal(rows),
    ensures
        well_paired(rows + settled(gone, came)),
{
    let s = settled(gone, came);
    let v = rows + s;
    assert forall|i: int| 0 <= i < v.len() implies classed(#[trigger] v[i]) by {
        if i < rows.len() {
            assert(v[i] == rows[i]);
        } else {
            assert(v[i] == beside(gone, came, i - rows.len()));
        }
    }
    assert forall|i: int, j: int| #![trigger v[i], v[j]] 0 <= i && j == i + 1 && j < v.len() implies may_follow(
        v[i].kind,
        v[j].kind,
    ) by {
        if j < rows.len() {
            assert(v[i] == rows[i] && v[j] == rows[j]);
        } else if i < rows.len() {
            assert(v[i] == rows.last());
        } else {
            assert(v[i] == beside(gone, came, i - rows.len()));
            assert(v[j] == beside(gone, came, j - rows.len()));
        }
    }
}

proof fn lemma_taken_paired(ls: Seq<Seq<char>>, k: int, n: int)
    requires
        0 <= k <= n <= ls.len(),
    ensures
        well_paired(taken(ls, k, n).0),
        ends_equal(taken(ls, k, n).0),
        forall|m: int| k <= m < n && is_heading(ls[m]) ==> !(behind(#[trigger] ls[m], ' ') is Some),
        lines_of_kind(taken(ls, k, n).0, DiffKind::Equal) == lines_signed(ls.subrange(k, n), ' ', ' '),
    decreases n - k,
{
    if n > k {
        lemma_taken_paired(ls, k, n - 1);
        let (rows, gone, came) = taken(ls, k, n - 1);
        let l = ls[n - 1];
        lemma_is_heading(l);
        let part = ls.subrange(k, n);
        assert(part.drop_last() =~= ls.subrange(k, n - 1));
        assert(part.last() == l);
        if !is_heading(l) && !(behind(l, '-') is Some) && !(behind(l, '+') is Some) && behind(l, ' ') is Some {
            let e = PlainView { left: Some(l.skip(1)), right: Some(l.skip(1)), kind: DiffKind::Equal };
            let s = settled(gone, came);
            let r = (rows + s).push(e);
            lemma_settled_paired(rows, gone, came);
            lemma_kind_concat(rows, s, DiffKind::Equal);
            lemma_settled_unequal(gone, came, s.len() as int);
            assert(s.take(s.len() as int) =~= s);
            assert(r.drop_last() =~= rows + s);
            let q = rows + s;
            assert forall|i: int| 0 <= i < r.len() implies classed(#[trigger] r[i]) by {
                if i < q.len() {
                    assert(r[i] == q[i]);
                }
            }
            assert forall|i: int, j: int| #![trigger r[i], r[j]] 0 <= i && j == i + 1 && j < r.len() implies may_follow(
                r[i].kind,
                r[j].kind,
            ) by {
                if j < q.len() {
                    assert(r[i] == q[i] && r[j] == q[j]);
                }
            }
            assert(lines_of_kind(r, DiffKind::Equal) =~= lines_signed(part, ' ', ' '));
        }
    } else {
        assert(ls.subrange(k, n) =~= Seq::<Seq<char>>::empty());
        assert(lines_of_kind(taken(ls, k, n).0, DiffKind::Equal) =~= Seq::<Seq<char>>::empty());
    }
}

/// Every row of a diff is classed by its sides: it is equal where one line that stayed stands on
/// both, inserted where nothing stands on its left, deleted where nothing stands on its right, and
/// replaced where a line that went stands beside one that came. The equal rows are the lines that
/// the diff marks with a blank, in their order; lines that went and lines that came are put side
/// by side as far as there are both.
pub proof fn rows_are_classed_by_their_sides(head: Seq<Seq<char>>, h: Seq<char>, body: Seq<Seq<char>>)
    requires
        diff_parts(head, h),
    ensures
        well_paired(plain_rows(diff_lines(head, h, body))),
        lines_of_kind(plain_rows(diff_lines(head, h, body)), DiffKind::Equal) == lines_signed(body, ' ', ' '),
{
    let ls = diff_lines(head, h, body);
    let k = head.len() as int;
    let n = ls.len() as int;
    lemma_heading_place(head, h, body);
    lemma_taken_paired(ls, k, n);
    let t = taken(ls, k, n);
    let s = settled(t.1, t.2);
    lemma_settled_paired(t.0, t.1, t.2);
    lemma_kind_concat(t.0, s, DiffKind::Equal);
    lemma_settled_unequal(t.1, t.2, s.len() as int);
    assert(s.take(s.len() as int) =~= s);
    assert(lines_of_kind(t.0, DiffKind::Equal) + Seq::<Seq<char>>::empty() =~= lines_of_kind(t.0, DiffKind::Equal));
    let part = ls.subrange(k, n);
    assert(part =~= seq![h] + body);
    lemma_signed_behind(h, body, ' ', ' ');
}

proof fn lemma_signed_behind(h: Seq<char>, body: Seq<Seq<char>>, a: char, b: char)
    requires
        signed(h, a, b) is None,
    ensures
        lines_signed(seq![h] + body, a, b) == lines_signed(body, a, b),
    decreases body.len(),
{
    let v = seq![h] + body;
    if body.len() == 0 {
        assert(v.drop_last() =~= body);
        assert(v.last() == h);
        assert(lines_signed(body, a, b) =~= Seq::<Seq<char>>::empty());
    } else {
        lemma_signed_behind(h, body.drop_last(), a, b);
        assert(v.drop_last() =~= seq![h] + body.drop_last());
        assert(v.last() == body.last());
    }
}

proof fn lemma_left_number(v: Seq<PlainView>, n: int)
    requires
        0 <= n <= v.len(),
    ensures
        lefts(v, n) == left_lines(v.take(n)).len(),
        rights(v, n) == right_lines(v.take(n)).len(),
        forall|k: int| 0 <= k < lefts(v, n) ==> left_lines(v)[k] == #[trigger] left_lines(v.take(n))[k],
        forall|k: int| 0 <= k < rights(v, n) ==> right_lines(v)[k] == #[trigger] right_lines(v.take(n))[k],
        lefts(v, n) <= left_lines(v).len(),
        rights(v, n) <= right_lines(v).len(),
    decreases n,
{
    lemma_left_concat(v.take(n), v.skip(n));
    lemma_right_concat(v.take(n), v.skip(n));
    assert(v.take(n) + v.skip(n) =~= v);
    if n == 0 {
        assert(v.take(0) =~= Seq::<PlainView>::empty());
    } else {
        lemma_left_number(v, n - 1);
        assert(v.take(n).drop_last() =~= v.take(n - 1));
        assert(v.take(n).last() == v[n - 1]);
    }
}

/// A number beside a line is its place in its text, counted from 1.
pub proof fn numbers_are_places_in_the_texts(v: Seq<PlainView>, i: int, r: DiffRow)
    requires
        0 <= i < v.len(),
        is_numbered_row(v, i, r),
    ensures
        r.left is Some <==> r.left_no is Some,
        r.right is Some <==> r.right_no is Some,
        r.left_no is Some ==> 1 <= r.left_no->0 <= left_lines(v).len() && left_lines(v)[r.left_no->0 - 1] == r.left->0@,
        r.right_no is Some ==> 1 <= r.right_no->0 <= right_lines(v).len() && right_lines(v)[r.right_no->0 - 1]
            == r.right->0@,
        r.kind == v[i].kind,
        opt_text(r.left) == v[i].left,
        opt_text(r.right) == v[i].right,
{
    lemma_left_number(v, i + 1);
    lemma_left_number(v, i);
    let t = v.take(i + 1);
    assert(t.drop_last() =~= v.take(i));
    assert(t.last() == v[i]);
    if v[i].left is Some {
        assert(left_lines(t) == left_lines(v.take(i)).push(v[i].left->0));
        assert(left_lines(t)[lefts(v, i + 1) - 1] == v[i].left->0);
    }
    if v[i].right is Some {
        assert(right_lines(t) == right_lines(v.take(i)).push(v[i].right->0));
        assert(right_lines(t)[rights(v, i + 1) - 1] == v[i].right->0);
    }
}

/// Numbers on a side count up: a later row has a larger number.
pub proof fn numbers_count_up(v: Seq<PlainView>, i: int, j: int, a: DiffRow, b: DiffRow)
    requires
        0 <= i < j < v.len(),
        is_numbered_row(v, i, a),
        is_numbered_row(v, j, b),
    ensures
        a.left_no is Some && b.left_no is Some ==> a.left_no->0 < b.left_no->0,
        a.right_no is Some && b.right_no is Some ==> a.right_no->0 < b.right_no->0,
    decreases j,
{
    lemma_counts_grow(v, i + 1, j);
}

proof fn lemma_counts_grow(v: Seq<PlainView>, i: int, j: int)
    requires
        0 <= i <= j,
    ensures
        lefts(v, i) <= lefts(v, j),
        rights(v, i) <= rights(v, j),
    decreases j - i,
{
    if i < j {
        lemma_counts_grow(v, i, j - 1);
    }
}

/// Two texts that are the same give one equal row for each of their lines, with the line on both
/// sides and its place beside it.
pub proof fn same_texts_are_equal_rows(ls: Seq<Seq<char>>, i: int)
    requires
        0 <= i < ls.len(),
    ensures
        equal_rows(ls).len() == ls.len(),
        equal_rows(ls)[i].kind == DiffKind::Equal,
        equal_rows(ls)[i].left == Some(ls[i]),
        equal_rows(ls)[i].right == Some(ls[i]),
        lefts(equal_rows(ls), i + 1) == i + 1,
        rights(equal_rows(ls), i + 1) == i + 1,
    decreases i,
{
    if i > 0 {
        same_texts_are_equal_rows(ls, i - 1);
    } else {
        assert(lefts(equal_rows(ls), 0) == 0);
        assert(rights(equal_rows(ls), 0) == 0);
    }
}

} // verus!
