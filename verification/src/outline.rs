//! Lists of slash-separated names shown as a tree: directories first, each with the
//! rows below it unless it is collapsed, then the names that stand in no directory.
use vstd::prelude::*;
use crate::order::{add_name, ascending, lemma_with_name, text_less, text_less_irreflexive, with_name};
use crate::path::{FilePath, PathSet, PathView, copy_strings, sub_strings};
use crate::text::{join, joined, lemma_texts_push, same, texts};

verus! {

/// A name taken apart at the slashes, and the number by which its owner knows it.
#[derive(Debug)]
pub struct TreeItem {
    pub comps: Vec<String>,
    pub id: usize,
}

/// What an item names.
pub ghost struct ItemView {
    pub comps: Seq<Seq<char>>,
    pub id: usize,
}

impl View for TreeItem {
    type V = ItemView;

    open spec fn view(&self) -> ItemView {
        ItemView { comps: texts(self.comps@), id: self.id }
    }
}

/// What a list of items names.
pub open spec fn item_views(v: Seq<TreeItem>) -> Seq<ItemView> {
    Seq::new(v.len(), |i: int| v[i]@)
}

proof fn lemma_item_views_push(v: Seq<TreeItem>, x: TreeItem)
    ensures
        item_views(v.push(x)) == item_views(v).push(x@),
{
    assert(item_views(v.push(x)) =~= item_views(v).push(x@));
}

/// How the tree is laid out: whether a directory that holds one directory and nothing
/// else shares a row with it, and whether names come in order, the last of equals
/// standing for all, or as they were given.
#[derive(Clone, Copy, Debug, PartialEq, Eq, Structural)]
pub struct TreeStyle {
    pub compress: bool,
    pub sort_leaves: bool,
}

/// One row of the tree.
#[derive(Debug)]
pub enum TreeRow {
    Dir { depth: usize, key: FilePath, label: String, ids: Vec<usize> },
    Leaf { depth: usize, name: String, id: usize },
}

/// What a row shows.
pub ghost enum RowView {
    Dir { depth: int, key: PathView, label: Seq<char>, ids: Seq<usize> },
    Leaf { depth: int, name: Seq<char>, id: usize },
}

impl View for TreeRow {
    type V = RowView;

    open spec fn view(&self) -> RowView {
        match self {
            TreeRow::Dir { depth, key, label, ids } => RowView::Dir {
                depth: *depth as int,
                key: key@,
                label: label@,
                ids: ids@,
            },
            TreeRow::Leaf { depth, name, id } => RowView::Leaf {
                depth: *depth as int,
                name: name@,
                id: *id,
            },
        }
    }
}

/// What a list of rows shows.
pub open spec fn row_views(v: Seq<TreeRow>) -> Seq<RowView> {
    Seq::new(v.len(), |i: int| v[i]@)
}

proof fn lemma_row_views_push(v: Seq<TreeRow>, x: TreeRow)
    ensures
        row_views(v.push(x)) == row_views(v).push(x@),
{
    assert(row_views(v.push(x)) =~= row_views(v).push(x@));
}

// ── the tree ────────────────────────────────────────────────────────────────

/// The items that stand in the directory `name`, as seen from there.
pub open spec fn within(items: Seq<ItemView>, name: Seq<char>) -> Seq<ItemView>
    decreases items.len(),
{
    if items.len() == 0 {
        Seq::empty()
    } else {
        let s = within(items.drop_last(), name);
        let x = items.last();
        if x.comps.len() >= 2 && x.comps[0] == name {
            s.push(ItemView { comps: x.comps.drop_first(), id: x.id })
        } else {
            s
        }
    }
}

/// The names of the directories, ascending.
pub open spec fn dir_names(items: Seq<ItemView>) -> Seq<Seq<char>>
    decreases items.len(),
{
    if items.len() == 0 {
        Seq::empty()
    } else {
        let s = dir_names(items.drop_last());
        let x = items.last();
        if x.comps.len() >= 2 {
            with_name(s, x.comps[0])
        } else {
            s
        }
    }
}

/// The items that stand in no directory.
pub open spec fn leaves(items: Seq<ItemView>) -> Seq<ItemView>
    decreases items.len(),
{
    if items.len() == 0 {
        Seq::empty()
    } else {
        let s = leaves(items.drop_last());
        if items.last().comps.len() == 1 {
            s.push(items.last())
        } else {
            s
        }
    }
}

/// The names of the items that stand in no directory, ascending.
pub open spec fn leaf_names(items: Seq<ItemView>) -> Seq<Seq<char>>
    decreases items.len(),
{
    if items.len() == 0 {
        Seq::empty()
    } else {
        let s = leaf_names(items.drop_last());
        let x = items.last();
        if x.comps.len() == 1 {
            with_name(s, x.comps[0])
        } else {
            s
        }
    }
}

/// The number of the last item with the name `name` that stands in no directory.
pub open spec fn leaf_id(items: Seq<ItemView>, name: Seq<char>) -> usize
    decreases items.len(),
{
    if items.len() == 0 {
        0
    } else if items.last().comps.len() == 1 && items.last().comps[0] == name {
        items.last().id
    } else {
        leaf_id(items.drop_last(), name)
    }
}

/// How many components the items have together.
pub open spec fn weight(items: Seq<ItemView>) -> nat
    decreases items.len(),
{
    if items.len() == 0 {
        0
    } else {
        weight(items.drop_last()) + items.last().comps.len()
    }
}

proof fn lemma_dir_names(items: Seq<ItemView>)
    ensures
        ascending(dir_names(items)),
        forall|n: Seq<char>| #[trigger] dir_names(items).contains(n) ==> within(items, n).len() > 0,
    decreases items.len(),
{
    if items.len() > 0 {
        let t = items.drop_last();
        lemma_dir_names(t);
        let x = items.last();
        if x.comps.len() >= 2 {
            lemma_with_name(dir_names(t), x.comps[0]);
        }
        assert forall|n: Seq<char>| #[trigger] dir_names(items).contains(n) implies within(
            items,
            n,
        ).len() > 0 by {
            if dir_names(t).contains(n) {
                assert(within(t, n).len() > 0);
            }
        }
    }
}

proof fn lemma_within_weight(items: Seq<ItemView>, name: Seq<char>)
    ensures
        weight(within(items, name)) + within(items, name).len() <= weight(items),
    decreases items.len(),
{
    if items.len() > 0 {
        lemma_within_weight(items.drop_last(), name);
        let x = items.last();
        let s = within(items.drop_last(), name);
        if x.comps.len() >= 2 && x.comps[0] == name {
            let y = ItemView { comps: x.comps.drop_first(), id: x.id };
            assert(s.push(y).drop_last() =~= s);
            assert(s.push(y).last() == y);
        }
    }
}

/// A directory is lighter than what it stands in.
proof fn lemma_dir_lighter(items: Seq<ItemView>, k: int)
    requires
        0 <= k < dir_names(items).len(),
    ensures
        weight(within(items, dir_names(items)[k])) < weight(items),
        within(items, dir_names(items)[k]).len() > 0,
{
    lemma_dir_names(items);
    assert(dir_names(items).contains(dir_names(items)[k]));
    lemma_within_weight(items, dir_names(items)[k]);
}

/// The numbers of all items: those in no directory first, then those of each directory.
pub open spec fn all_ids(items: Seq<ItemView>) -> Seq<usize>
    decreases weight(items), 1int, 0nat,
{
    leaves(items).map_values(|x: ItemView| x.id) + dir_ids(items, dir_names(items).len())
}

/// The numbers of the items in the first `k` directories.
pub open spec fn dir_ids(items: Seq<ItemView>, k: nat) -> Seq<usize>
    decreases weight(items), 0int, k via dir_ids_end
{
    if k == 0 || k > dir_names(items).len() {
        Seq::empty()
    } else {
        dir_ids(items, (k - 1) as nat) + all_ids(within(items, dir_names(items)[k - 1]))
    }
}

#[via_fn]
proof fn dir_ids_end(items: Seq<ItemView>, k: nat) {
    if !(k == 0 || k > dir_names(items).len()) {
        lemma_dir_lighter(items, k - 1);
    }
}

/// The directories that share the row of the directory holding `items`, and what stands
/// in the last of them.
pub open spec fn chain(items: Seq<ItemView>, compress: bool) -> (Seq<Seq<char>>, Seq<ItemView>)
    decreases weight(items) via chain_end
{
    if compress && leaves(items).len() == 0 && dir_names(items).len() == 1 {
        let n = dir_names(items)[0];
        let c = chain(within(items, n), compress);
        (seq![n] + c.0, c.1)
    } else {
        (Seq::empty(), items)
    }
}

#[via_fn]
proof fn chain_end(items: Seq<ItemView>, compress: bool) {
    if compress && leaves(items).len() == 0 && dir_names(items).len() == 1 {
        lemma_dir_lighter(items, 0);
    }
}

proof fn lemma_chain_weight(items: Seq<ItemView>, compress: bool)
    ensures
        weight(chain(items, compress).1) <= weight(items),
    decreases weight(items),
{
    if compress && leaves(items).len() == 0 && dir_names(items).len() == 1 {
        lemma_dir_lighter(items, 0);
        lemma_chain_weight(within(items, dir_names(items)[0]), compress);
    }
}

/// The rows of the names that stand in no directory.
pub open spec fn leaf_rows(items: Seq<ItemView>, depth: int, style: TreeStyle) -> Seq<RowView> {
    if style.sort_leaves {
        leaf_names(items).map_values(
            |n: Seq<char>| RowView::Leaf { depth, name: n, id: leaf_id(items, n) },
        )
    } else {
        leaves(items).map_values(
            |x: ItemView| RowView::Leaf { depth, name: x.comps[0], id: x.id },
        )
    }
}

/// The names behind those at the front that are empty.
pub open spec fn without_empty(names: Seq<Seq<char>>) -> Seq<Seq<char>>
    decreases names.len(),
{
    if names.len() > 0 && names[0].len() == 0 {
        without_empty(names.drop_first())
    } else {
        names
    }
}

/// The key of the directory that `names` lead to from the one with the key `base`. An empty name
/// counts only behind one that is not empty: a key gets a slash before the next name only where
/// there is something before the slash.
pub open spec fn key_parts(base: Seq<Seq<char>>, names: Seq<Seq<char>>) -> Seq<Seq<char>> {
    if base.len() == 0 {
        without_empty(names)
    } else {
        base + names
    }
}

/// The row of a directory.
pub open spec fn dir_row(
    items: Seq<ItemView>,
    base: Seq<Seq<char>>,
    depth: int,
    style: TreeStyle,
    name: Seq<char>,
) -> RowView {
    let c = chain(within(items, name), style.compress);
    RowView::Dir {
        depth,
        key: PathView { abs: false, parts: key_parts(base, seq![name] + c.0) },
        label: joined(seq![name] + c.0, seq!['/']),
        ids: all_ids(c.1),
    }
}

/// All rows: those of the directories, then those of the names in none.
pub open spec fn tree(
    items: Seq<ItemView>,
    base: Seq<Seq<char>>,
    depth: int,
    style: TreeStyle,
    collapsed: Set<PathView>,
) -> Seq<RowView>
    decreases weight(items), 1int, 0nat,
{
    dir_rows(items, base, depth, style, collapsed, dir_names(items).len()) + leaf_rows(
        items,
        depth,
        style,
    )
}

/// The rows of the first `k` directories: each is followed by the rows below it unless
/// it is collapsed.
pub open spec fn dir_rows(
    items: Seq<ItemView>,
    base: Seq<Seq<char>>,
    depth: int,
    style: TreeStyle,
    collapsed: Set<PathView>,
    k: nat,
) -> Seq<RowView>
    decreases weight(items), 0int, k via dir_rows_end
{
    if k == 0 || k > dir_names(items).len() {
        Seq::empty()
    } else {
        let name = dir_names(items)[k - 1];
        let c = chain(within(items, name), style.compress);
        let key = key_parts(base, seq![name] + c.0);
        let head = dir_rows(items, base, depth, style, collapsed, (k - 1) as nat).push(
            dir_row(items, base, depth, style, name),
        );
        if collapsed.contains(PathView { abs: false, parts: key }) {
            head
        } else {
            head + tree(c.1, key, depth + 1, style, collapsed)
        }
    }
}

#[via_fn]
proof fn dir_rows_end(
    items: Seq<ItemView>,
    base: Seq<Seq<char>>,
    depth: int,
    style: TreeStyle,
    collapsed: Set<PathView>,
    k: nat,
) {
    if !(k == 0 || k > dir_names(items).len()) {
        lemma_dir_lighter(items, k - 1);
        lemma_chain_weight(within(items, dir_names(items)[k - 1]), style.compress);
    }
}

// ── building the rows ───────────────────────────────────────────────────────

fn items_in(items: &Vec<TreeItem>, name: &str) -> (r: Vec<TreeItem>)
    ensures
        item_views(r@) == within(item_views(items@), name@),
{
    let ghost all = item_views(items@);
    let mut out: Vec<TreeItem> = Vec::new();
    let mut i: usize = 0;
    assert(all.take(0) =~= Seq::<ItemView>::empty());
    assert(item_views(out@) =~= Seq::<ItemView>::empty());
    while i < items.len()
        invariant
            i <= items.len(),
            all == item_views(items@),
            item_views(out@) == within(all.take(i as int), name@),
        decreases items.len() - i,
    {
        proof {
            assert(all.take(i + 1).drop_last() =~= all.take(i as int));
            assert(all.take(i + 1).last() == all[i as int]);
        }
        if items[i].comps.len() >= 2 && same(items[i].comps[0].as_str(), name) {
            let x = TreeItem {
                comps: sub_strings(&items[i].comps, 1, items[i].comps.len()),
                id: items[i].id,
            };
            proof {
                lemma_item_views_push(out@, x);
                assert(x@.comps =~= all[i as int].comps.drop_first());
            }
            out.push(x);
        }
        i = i + 1;
    }
    assert(all.take(all.len() as int) =~= all);
    out
}

fn names_of_dirs(items: &Vec<TreeItem>) -> (r: Vec<String>)
    ensures
        texts(r@) == dir_names(item_views(items@)),
{
    let ghost all = item_views(items@);
    let mut out: Vec<String> = Vec::new();
    let mut i: usize = 0;
    assert(all.take(0) =~= Seq::<ItemView>::empty());
    assert(texts(out@) =~= Seq::<Seq<char>>::empty());
    while i < items.len()
        invariant
            i <= items.len(),
            all == item_views(items@),
            texts(out@) == dir_names(all.take(i as int)),
        decreases items.len() - i,
    {
        proof {
            assert(all.take(i + 1).drop_last() =~= all.take(i as int));
            assert(all.take(i + 1).last() == all[i as int]);
        }
        if items[i].comps.len() >= 2 {
            add_name(&mut out, items[i].comps[0].as_str());
        }
        i = i + 1;
    }
    assert(all.take(all.len() as int) =~= all);
    out
}

fn names_of_leaves(items: &Vec<TreeItem>) -> (r: Vec<String>)
    ensures
        texts(r@) == leaf_names(item_views(items@)),
{
    let ghost all = item_views(items@);
    let mut out: Vec<String> = Vec::new();
    let mut i: usize = 0;
    assert(all.take(0) =~= Seq::<ItemView>::empty());
    assert(texts(out@) =~= Seq::<Seq<char>>::empty());
    while i < items.len()
        invariant
            i <= items.len(),
            all == item_views(items@),
            texts(out@) == leaf_names(all.take(i as int)),
        decreases items.len() - i,
    {
        proof {
            assert(all.take(i + 1).drop_last() =~= all.take(i as int));
            assert(all.take(i + 1).last() == all[i as int]);
        }
        if items[i].comps.len() == 1 {
            add_name(&mut out, items[i].comps[0].as_str());
        }
        i = i + 1;
    }
    assert(all.take(all.len() as int) =~= all);
    out
}

fn id_of_leaf(items: &Vec<TreeItem>, name: &str) -> (r: usize)
    ensures
        r == leaf_id(item_views(items@), name@),
{
    let ghost all = item_views(items@);
    let mut n: usize = items.len();
    assert(all.take(all.len() as int) =~= all);
    while n > 0
        invariant
            n <= items.len(),
            all == item_views(items@),
            leaf_id(all, name@) == leaf_id(all.take(n as int), name@),
        decreases n,
    {
        proof {
            assert(all.take(n as int).drop_last() =~= all.take(n - 1));
            assert(all.take(n as int).last() == all[n - 1]);
        }
        if items[n - 1].comps.len() == 1 && same(items[n - 1].comps[0].as_str(), name) {
            return items[n - 1].id;
        }
        n = n - 1;
    }
    0
}

fn has_leaves(items: &Vec<TreeItem>) -> (r: bool)
    ensures
        r == (leaves(item_views(items@)).len() > 0),
{
    let ghost all = item_views(items@);
    let mut i: usize = 0;
    assert(all.take(0) =~= Seq::<ItemView>::empty());
    while i < items.len()
        invariant
            i <= items.len(),
            all == item_views(items@),
            leaves(all.take(i as int)).len() == 0,
        decreases items.len() - i,
    {
        proof {
            assert(all.take(i + 1).drop_last() =~= all.take(i as int));
            assert(all.take(i + 1).last() == all[i as int]);
        }
        if items[i].comps.len() == 1 {
            proof {
                lemma_leaves_grow(all, i + 1);
            }
            return true;
        }
        i = i + 1;
    }
    assert(all.take(all.len() as int) =~= all);
    false
}

proof fn lemma_leaves_grow(items: Seq<ItemView>, k: int)
    requires
        0 <= k <= items.len(),
    ensures
        leaves(items.take(k)).len() <= leaves(items).len(),
    decreases items.len() - k,
{
    if k == items.len() {
        assert(items.take(k) =~= items);
    } else {
        lemma_leaves_grow(items, k + 1);
        assert(items.take(k + 1).drop_last() =~= items.take(k));
    }
}

fn ids_below(items: &Vec<TreeItem>) -> (r: Vec<usize>)
    ensures
        r@ == all_ids(item_views(items@)),
    decreases weight(item_views(items@)),
{
    let ghost all = item_views(items@);
    let mut out: Vec<usize> = Vec::new();
    let ghost f = |x: ItemView| x.id;
    let mut i: usize = 0;
    assert(all.take(0) =~= Seq::<ItemView>::empty());
    assert(out@ =~= leaves(all.take(0)).map_values(f));
    while i < items.len()
        invariant
            i <= items.len(),
            all == item_views(items@),
            f == (|x: ItemView| x.id),
            out@ == leaves(all.take(i as int)).map_values(f),
        decreases items.len() - i,
    {
        proof {
            assert(all.take(i + 1).drop_last() =~= all.take(i as int));
            assert(all.take(i + 1).last() == all[i as int]);
        }
        if items[i].comps.len() == 1 {
            out.push(items[i].id);
            assert(out@ =~= leaves(all.take(i as int)).push(all[i as int]).map_values(f));
        }
        i = i + 1;
    }
    assert(all.take(all.len() as int) =~= all);
    let ghost head = leaves(all).map_values(f);
    let names = names_of_dirs(items);
    let mut k: usize = 0;
    assert(out@ =~= head + dir_ids(all, 0));
    while k < names.len()
        invariant
            k <= names.len(),
            all == item_views(items@),
            texts(names@) == dir_names(all),
            out@ == head + dir_ids(all, k as nat),
        decreases names.len() - k,
    {
        let s = items_in(items, names[k].as_str());
        proof {
            assert(texts(names@)[k as int] == names@[k as int]@);
            lemma_dir_lighter(all, k as int);
        }
        let mut more = ids_below(&s);
        let ghost more0 = more@;
        out.append(&mut more);
        k = k + 1;
        proof {
            assert(dir_ids(all, k as nat) == dir_ids(all, (k - 1) as nat) + more0);
            assert(out@ =~= head + dir_ids(all, k as nat));
        }
    }
    out
}

/// Follows directories that hold one directory and nothing else.
fn follow_chain(items: Vec<TreeItem>, compress: bool) -> (r: (Vec<String>, Vec<TreeItem>))
    ensures
        texts(r.0@) == chain(item_views(items@), compress).0,
        item_views(r.1@) == chain(item_views(items@), compress).1,
{
    let mut cur = items;
    let mut names: Vec<String> = Vec::new();
    let ghost want = chain(item_views(items@), compress);
    let mut go = compress;
    assert(texts(names@) + chain(item_views(cur@), compress).0 =~= want.0);
    while go
        invariant
            go ==> compress,
            !go ==> !(compress && leaves(item_views(cur@)).len() == 0 && dir_names(
                item_views(cur@),
            ).len() == 1),
            texts(names@) + chain(item_views(cur@), compress).0 == want.0,
            chain(item_views(cur@), compress).1 == want.1,
        decreases weight(item_views(cur@)), if go { 1int } else { 0int },
    {
        let d = names_of_dirs(&cur);
        if d.len() == 1 && !has_leaves(&cur) {
            let next = items_in(&cur, d[0].as_str());
            let n = d[0].clone();
            proof {
                let a = item_views(cur@);
                assert(texts(d@)[0] == n@);
                lemma_dir_lighter(a, 0);
                lemma_texts_push(names@, n);
                let c = chain(within(a, n@), compress);
                assert(chain(a, compress).0 == seq![n@] + c.0);
                assert(texts(names@).push(n@) + c.0 =~= texts(names@) + (seq![n@] + c.0));
            }
            names.push(n);
            cur = next;
        } else {
            assert(texts(d@).len() == d.len());
            go = false;
        }
    }
    assert(texts(names@) + Seq::<Seq<char>>::empty() =~= texts(names@));
    (names, cur)
}

/// Every item is shallow enough for its depth to be counted.
pub open spec fn fits(items: Seq<ItemView>, depth: int) -> bool {
    forall|i: int| 0 <= i < items.len() ==> depth + (#[trigger] items[i]).comps.len() <= usize::MAX + 1
}

proof fn lemma_within_fits(items: Seq<ItemView>, name: Seq<char>, depth: int)
    requires
        fits(items, depth),
    ensures
        fits(within(items, name), depth + 1),
    decreases items.len(),
{
    if items.len() > 0 {
        let t = items.drop_last();
        assert forall|i: int| 0 <= i < t.len() implies depth + (#[trigger] t[i]).comps.len() <= usize::MAX + 1 by {
            assert(t[i] == items[i]);
        }
        lemma_within_fits(t, name, depth);
        let s = within(t, name);
        let r = within(items, name);
        assert(items.last() == items[items.len() - 1]);
        assert forall|i: int| 0 <= i < r.len() implies depth + 1 + (#[trigger] r[i]).comps.len() <= usize::MAX + 1 by {
            if i < s.len() {
                assert(r[i] == s[i]);
            }
        }
    }
}

proof fn lemma_chain_fits(items: Seq<ItemView>, compress: bool, depth: int)
    requires
        fits(items, depth),
    ensures
        fits(chain(items, compress).1, depth),
    decreases weight(items),
{
    if compress && leaves(items).len() == 0 && dir_names(items).len() == 1 {
        let n = dir_names(items)[0];
        lemma_dir_lighter(items, 0);
        lemma_within_fits(items, n, depth);
        let s = within(items, n);
        assert forall|i: int| 0 <= i < s.len() implies depth + (#[trigger] s[i]).comps.len() <= usize::MAX + 1 by {
        }
        lemma_chain_fits(s, compress, depth);
    }
}

proof fn lemma_dir_fits(items: Seq<ItemView>, depth: int, k: int)
    requires
        fits(items, depth),
        0 <= k < dir_names(items).len(),
    ensures
        depth + 1 <= usize::MAX,
{
    lemma_dir_lighter(items, k);
    let n = dir_names(items)[k];
    lemma_within_fits(items, n, depth);
    lemma_within_comps(items, n);
    let s = within(items, n);
    assert(s[0].comps.len() >= 1);
}

proof fn lemma_within_comps(items: Seq<ItemView>, name: Seq<char>)
    ensures
        forall|i: int| 0 <= i < within(items, name).len() ==> (#[trigger] within(items, name)[i]).comps.len() >= 1,
    decreases items.len(),
{
    if items.len() > 0 {
        lemma_within_comps(items.drop_last(), name);
        let s = within(items.drop_last(), name);
        let r = within(items, name);
        assert forall|i: int| 0 <= i < r.len() implies (#[trigger] r[i]).comps.len() >= 1 by {
            if i < s.len() {
                assert(r[i] == s[i]);
            }
        }
    }
}

fn lead_to(base: &Vec<String>, names: &Vec<String>) -> (r: Vec<String>)
    ensures
        texts(r@) == key_parts(texts(base@), texts(names@)),
{
    let ghost all = texts(names@);
    if base.len() == 0 {
        assert(texts(base@).len() == 0);
        let mut i: usize = 0;
        assert(all.skip(0) =~= all);
        while i < names.len() && names[i].as_str().is_empty()
            invariant
                i <= names.len(),
                all == texts(names@),
                without_empty(all) == without_empty(all.skip(i as int)),
            decreases names.len() - i,
        {
            assert(all[i as int] == names@[i as int]@);
            assert(all.skip(i as int).drop_first() =~= all.skip(i + 1));
            i = i + 1;
        }
        assert(i < names.len() ==> all.skip(i as int)[0] == names@[i as int]@);
        let n: usize = names.len();
        let r = sub_strings(names, i, n);
        assert(texts(r@) =~= all.skip(i as int));
        return r;
    }
    let mut parts = copy_strings(base);
    let mut tail = copy_strings(names);
    let ghost parts0 = parts@;
    let ghost tail0 = tail@;
    parts.append(&mut tail);
    assert(texts(parts@) =~= texts(base@) + all) by {
        assert(parts@ =~= parts0 + tail0);
    }
    parts
}

/// Adds the rows of `items` to `out`.
pub fn add_tree_rows(
    items: &Vec<TreeItem>,
    base: &Vec<String>,
    depth: usize,
    style: TreeStyle,
    collapsed: &PathSet,
    out: &mut Vec<TreeRow>,
)
    requires
        fits(item_views(items@), depth as int),
    ensures
        row_views(final(out)@) == row_views(old(out)@) + tree(
            item_views(items@),
            texts(base@),
            depth as int,
            style,
            collapsed@,
        ),
    decreases weight(item_views(items@)),
{
    let ghost all = item_views(items@);
    let ghost before = row_views(out@);
    let names = names_of_dirs(items);
    let ghost b = texts(base@);
    let ghost d = depth as int;
    proof {
        reveal_strlit("/");
        assert("/"@ =~= seq!['/']);
    }
    let mut k: usize = 0;
    assert(row_views(out@) =~= before + dir_rows(all, b, d, style, collapsed@, 0));
    while k < names.len()
        invariant
            k <= names.len(),
            all == item_views(items@),
            b == texts(base@),
            d == depth as int,
            fits(all, d),
            "/"@ == seq!['/'],
            texts(names@) == dir_names(all),
            row_views(out@) == before + dir_rows(all, b, d, style, collapsed@, k as nat),
        decreases names.len() - k,
    {
        let ghost name = names@[k as int]@;
        proof {
            assert(texts(names@)[k as int] == name);
            lemma_dir_lighter(all, k as int);
            lemma_chain_weight(within(all, name), style.compress);
            lemma_within_fits(all, name, d);
            lemma_chain_fits(within(all, name), style.compress, d + 1);
            lemma_dir_fits(all, d, k as int);
        }
        let s = items_in(items, names[k].as_str());
        let found = follow_chain(s, style.compress);
        let mut label_parts: Vec<String> = Vec::new();
        label_parts.push(names[k].clone());
        let mut i: usize = 0;
        let ghost c0 = texts(found.0@);
        assert(texts(label_parts@) =~= seq![name] + c0.take(0));
        while i < found.0.len()
            invariant
                i <= found.0.len(),
                c0 == texts(found.0@),
                texts(label_parts@) == seq![name] + c0.take(i as int),
            decreases found.0.len() - i,
        {
            let p = found.0[i].clone();
            proof {
                lemma_texts_push(label_parts@, p);
                assert((seq![name] + c0.take(i as int)).push(p@) =~= seq![name] + c0.take(i + 1));
            }
            label_parts.push(p);
            i = i + 1;
        }
        assert(c0.take(c0.len() as int) =~= c0);
        let parts = lead_to(base, &label_parts);
        let inner = copy_strings(&parts);
        let key = FilePath { abs: false, parts };
        let is_collapsed = collapsed.contains(&key);
        let row = TreeRow::Dir {
            depth,
            key,
            label: join(&label_parts, "/"),
            ids: ids_below(&found.1),
        };
        proof {
            lemma_row_views_push(out@, row);
            assert(row@ == dir_row(all, b, d, style, name));
        }
        out.push(row);
        let ghost mid = row_views(out@);
        if !is_collapsed {
            add_tree_rows(&found.1, &inner, depth + 1, style, collapsed, out);
        }
        proof {
            let head = dir_rows(all, b, d, style, collapsed@, k as nat);
            assert(mid =~= before + head.push(row@));
            assert(row_views(out@) =~= before + dir_rows(
                all,
                b,
                d,
                style,
                collapsed@,
                (k + 1) as nat,
            ));
        }
        k = k + 1;
    }
    let ghost head = row_views(out@);
    let ghost tail = leaf_rows(all, d, style);
    if style.sort_leaves {
        let ln = names_of_leaves(items);
        let mut j: usize = 0;
        assert(row_views(out@) =~= head + tail.take(0));
        while j < ln.len()
            invariant
                j <= ln.len(),
                all == item_views(items@),
                d == depth as int,
                style.sort_leaves,
                texts(ln@) == leaf_names(all),
                tail == leaf_rows(all, d, style),
                row_views(out@) == head + tail.take(j as int),
            decreases ln.len() - j,
        {
            assert(texts(ln@)[j as int] == ln@[j as int]@);
            let row = TreeRow::Leaf {
                depth,
                name: ln[j].clone(),
                id: id_of_leaf(items, ln[j].as_str()),
            };
            proof {
                lemma_row_views_push(out@, row);
                assert(tail[j as int] == row@);
                assert((head + tail.take(j as int)).push(row@) =~= head + tail.take(j + 1));
            }
            out.push(row);
            j = j + 1;
        }
        assert(texts(ln@).len() == ln.len());
        assert(tail.take(tail.len() as int) =~= tail);
    } else {
        let mut j: usize = 0;
        let ghost f = |x: ItemView| RowView::Leaf { depth: d, name: x.comps[0], id: x.id };
        assert(all.take(0) =~= Seq::<ItemView>::empty());
        assert(row_views(out@) =~= head + leaves(all.take(0)).map_values(f));
        while j < items.len()
            invariant
                j <= items.len(),
                all == item_views(items@),
                d == depth as int,
                f == (|x: ItemView| RowView::Leaf { depth: d, name: x.comps[0], id: x.id }),
                row_views(out@) == head + leaves(all.take(j as int)).map_values(f),
            decreases items.len() - j,
        {
            proof {
                assert(all.take(j + 1).drop_last() =~= all.take(j as int));
                assert(all.take(j + 1).last() == all[j as int]);
            }
            if items[j].comps.len() == 1 {
                let row = TreeRow::Leaf { depth, name: items[j].comps[0].clone(), id: items[j].id };
                proof {
                    lemma_row_views_push(out@, row);
                    let l = leaves(all.take(j as int));
                    assert(row@ == f(all[j as int]));
                    assert((head + l.map_values(f)).push(row@) =~= head + l.push(
                        all[j as int],
                    ).map_values(f));
                }
                out.push(row);
            }
            j = j + 1;
        }
        assert(all.take(all.len() as int) =~= all);
        assert(leaves(all).map_values(f) =~= tail);
    }
    assert(row_views(out@) =~= before + tree(all, b, d, style, collapsed@));
}

/// The rows of `items`, the first level at `depth`.
pub fn tree_rows(items: &Vec<TreeItem>, depth: usize, style: TreeStyle, collapsed: &PathSet) -> (r:
    Vec<TreeRow>)
    requires
        depth <= 1,
    ensures
        row_views(r@) == tree(
            item_views(items@),
            Seq::empty(),
            depth as int,
            style,
            collapsed@,
        ),
{
    let mut out: Vec<TreeRow> = Vec::new();
    let base: Vec<String> = Vec::new();
    assert(texts(base@) =~= Seq::<Seq<char>>::empty());
    proof {
        let all = item_views(items@);
        assert forall|i: int| 0 <= i < all.len() implies depth + (#[trigger] all[i]).comps.len() <= usize::MAX + 1 by {
            assert(all[i].comps.len() == items@[i].comps.len());
        }
    }
    add_tree_rows(items, &base, depth, style, collapsed, &mut out);
    assert(row_views(out@) =~= tree(
        item_views(items@),
        Seq::empty(),
        depth as int,
        style,
        collapsed@,
    ));
    out
}

// ── what the tree holds ─────────────────────────────────────────────────────

/// Whether some item that names something has this number.
pub open spec fn names_id(items: Seq<ItemView>, id: usize) -> bool {
    exists|i: int| 0 <= i < items.len() && (#[trigger] items[i]).id == id && items[i].comps.len() > 0
}

proof fn lemma_names_id_push(items: Seq<ItemView>, id: usize)
    requires
        items.len() > 0,
    ensures
        names_id(items, id) <==> names_id(items.drop_last(), id) || (items.last().id == id
            && items.last().comps.len() > 0),
{
    let t = items.drop_last();
    if names_id(items, id) {
        let i = choose|i: int| 0 <= i < items.len() && (#[trigger] items[i]).id == id && items[i].comps.len() > 0;
        if i < t.len() {
            assert(t[i] == items[i]);
        }
    }
    if names_id(t, id) {
        let i = choose|i: int| 0 <= i < t.len() && (#[trigger] t[i]).id == id && t[i].comps.len() > 0;
        assert(items[i] == t[i]);
    }
    if items.last().id == id && items.last().comps.len() > 0 {
        assert(items[items.len() - 1].id == id);
    }
}

proof fn lemma_within_ids(items: Seq<ItemView>, name: Seq<char>, id: usize)
    requires
        names_id(within(items, name), id),
    ensures
        names_id(items, id),
    decreases items.len(),
{
    if items.len() > 0 {
        let t = items.drop_last();
        let s = within(t, name);
        let r = within(items, name);
        lemma_names_id_push(items, id);
        let x = items.last();
        if x.comps.len() >= 2 && x.comps[0] == name {
            lemma_names_id_push(r, id);
            assert(r.drop_last() =~= s);
            if names_id(s, id) {
                lemma_within_ids(t, name, id);
            }
        } else {
            lemma_within_ids(t, name, id);
        }
    }
}

proof fn lemma_within_found(items: Seq<ItemView>, i: int)
    requires
        0 <= i < items.len(),
        items[i].comps.len() >= 2,
    ensures
        dir_names(items).contains(items[i].comps[0]),
        names_id(within(items, items[i].comps[0]), items[i].id),
    decreases items.len(),
{
    let t = items.drop_last();
    let x = items.last();
    let name = items[i].comps[0];
    lemma_dir_names(t);
    if x.comps.len() >= 2 {
        lemma_with_name(dir_names(t), x.comps[0]);
    }
    let s = within(t, name);
    let r = within(items, name);
    if i < items.len() - 1 {
        assert(t[i] == items[i]);
        lemma_within_found(t, i);
        if x.comps.len() >= 2 && x.comps[0] == name {
            lemma_names_id_push(r, items[i].id);
            assert(r.drop_last() =~= s);
        }
    } else {
        lemma_names_id_push(r, x.id);
        assert(r.last().comps.len() == x.comps.len() - 1);
    }
}

proof fn lemma_leaves_ids(items: Seq<ItemView>, id: usize)
    ensures
        leaves(items).map_values(|x: ItemView| x.id).contains(id) <==> exists|i: int|
            0 <= i < items.len() && (#[trigger] items[i]).id == id && items[i].comps.len() == 1,
    decreases items.len(),
{
    let f = |x: ItemView| x.id;
    let l = leaves(items).map_values(f);
    if items.len() > 0 {
        let t = items.drop_last();
        lemma_leaves_ids(t, id);
        let m = leaves(t).map_values(f);
        let x = items.last();
        if l.contains(id) {
            let k = choose|k: int| 0 <= k < l.len() && l[k] == id;
            if k < m.len() {
                assert(m[k] == id);
                assert(m.contains(id));
                let i = choose|i: int| 0 <= i < t.len() && (#[trigger] t[i]).id == id && t[i].comps.len() == 1;
                assert(items[i] == t[i]);
            } else {
                assert(items[items.len() - 1].id == id);
            }
        }
        if exists|i: int| 0 <= i < items.len() && (#[trigger] items[i]).id == id && items[i].comps.len() == 1 {
            let i = choose|i: int| 0 <= i < items.len() && (#[trigger] items[i]).id == id && items[i].comps.len() == 1;
            if i < t.len() {
                assert(t[i] == items[i]);
                assert(m.contains(id));
                let k = choose|k: int| 0 <= k < m.len() && m[k] == id;
                assert(l[k] == id);
            } else {
                assert(l[l.len() - 1] == id);
            }
        }
    }
}

/// The numbers below a directory are those of the items that stand in it, and no others.
pub proof fn numbers_below_are_those_of_the_items(items: Seq<ItemView>, id: usize)
    ensures
        all_ids(items).contains(id) <==> names_id(items, id),
    decreases weight(items), 1int, 0nat,
{
    let f = |x: ItemView| x.id;
    let head = leaves(items).map_values(f);
    let n = dir_names(items).len();
    let tail = dir_ids(items, n);
    lemma_leaves_ids(items, id);
    lemma_dir_ids(items, id, n);
    if all_ids(items).contains(id) {
        let k = choose|k: int| 0 <= k < all_ids(items).len() && all_ids(items)[k] == id;
        if k < head.len() {
            assert(head[k] == id);
            assert(head.contains(id));
            let i = choose|i: int| 0 <= i < items.len() && (#[trigger] items[i]).id == id && items[i].comps.len() == 1;
            assert(items[i].comps.len() > 0);
        } else {
            assert(tail[k - head.len()] == id);
            assert(tail.contains(id));
        }
    }
    if names_id(items, id) {
        let i = choose|i: int| 0 <= i < items.len() && (#[trigger] items[i]).id == id && items[i].comps.len() > 0;
        if items[i].comps.len() == 1 {
            assert(head.contains(id));
            let k = choose|k: int| 0 <= k < head.len() && head[k] == id;
            assert(all_ids(items)[k] == id);
        } else {
            lemma_within_found(items, i);
            let name = items[i].comps[0];
            let d = choose|d: int| 0 <= d < n && dir_names(items)[d] == name;
            assert(names_id(within(items, dir_names(items)[d]), id));
            assert(tail.contains(id));
            let k = choose|k: int| 0 <= k < tail.len() && tail[k] == id;
            assert(all_ids(items)[head.len() + k] == id);
        }
    }
}

proof fn lemma_dir_ids(items: Seq<ItemView>, id: usize, k: nat)
    requires
        k <= dir_names(items).len(),
    ensures
        dir_ids(items, k).contains(id) <==> exists|d: int|
            0 <= d < k && names_id(within(items, #[trigger] dir_names(items)[d]), id),
        dir_ids(items, k).contains(id) ==> names_id(items, id),
    decreases weight(items), 0int, k,
{
    if k > 0 {
        let a = dir_ids(items, (k - 1) as nat);
        let name = dir_names(items)[k - 1];
        lemma_dir_lighter(items, k - 1);
        let b = all_ids(within(items, name));
        let r = dir_ids(items, k);
        lemma_dir_ids(items, id, (k - 1) as nat);
        numbers_below_are_those_of_the_items(within(items, name), id);
        if r.contains(id) {
            let m = choose|m: int| 0 <= m < r.len() && r[m] == id;
            if m < a.len() {
                assert(a[m] == id);
                assert(a.contains(id));
                let d = choose|d: int| 0 <= d < k - 1 && names_id(within(items, #[trigger] dir_names(items)[d]), id);
                assert(0 <= d < k && names_id(within(items, dir_names(items)[d]), id));
            } else {
                assert(b[m - a.len()] == id);
                assert(b.contains(id));
                lemma_within_ids(items, name, id);
                assert(names_id(within(items, dir_names(items)[k - 1]), id));
            }
        }
        if exists|d: int| 0 <= d < k && names_id(within(items, #[trigger] dir_names(items)[d]), id) {
            let d = choose|d: int| 0 <= d < k && names_id(within(items, #[trigger] dir_names(items)[d]), id);
            if d < k - 1 {
                assert(0 <= d < k - 1 && names_id(within(items, dir_names(items)[d]), id));
                assert(a.contains(id));
                let m = choose|m: int| 0 <= m < a.len() && a[m] == id;
                assert(r[m] == id);
            } else {
                assert(b.contains(id));
                let m = choose|m: int| 0 <= m < b.len() && b[m] == id;
                assert(r[a.len() + m] == id);
            }
        }
    }
}

proof fn lemma_chain_ids(items: Seq<ItemView>, compress: bool, id: usize)
    ensures
        names_id(chain(items, compress).1, id) <==> names_id(items, id),
    decreases weight(items),
{
    if compress && leaves(items).len() == 0 && dir_names(items).len() == 1 {
        let n = dir_names(items)[0];
        lemma_dir_lighter(items, 0);
        lemma_chain_ids(within(items, n), compress, id);
        if names_id(within(items, n), id) {
            lemma_within_ids(items, n, id);
        }
        if names_id(items, id) {
            let i = choose|i: int| 0 <= i < items.len() && (#[trigger] items[i]).id == id && items[i].comps.len() > 0;
            if items[i].comps.len() == 1 {
                lemma_leaves_ids(items, id);
                assert(leaves(items).map_values(|x: ItemView| x.id).contains(id));
                assert(leaves(items).map_values(|x: ItemView| x.id).len() == 0);
            } else {
                lemma_within_found(items, i);
                let d = choose|d: int| 0 <= d < dir_names(items).len() && dir_names(items)[d] == items[i].comps[0];
                assert(d == 0);
            }
        }
    }
}

/// Every number of a row is that of an item.
pub open spec fn row_names(items: Seq<ItemView>, r: RowView) -> bool {
    match r {
        RowView::Dir { depth, key, label, ids } => forall|k: int|
            0 <= k < ids.len() ==> names_id(items, #[trigger] ids[k]),
        RowView::Leaf { depth, name, id } => names_id(items, id),
    }
}

proof fn lemma_row_names_up(a: Seq<ItemView>, b: Seq<ItemView>, r: RowView)
    requires
        row_names(a, r),
        forall|id: usize| #[trigger] names_id(a, id) ==> names_id(b, id),
    ensures
        row_names(b, r),
{
    match r {
        RowView::Dir { depth, key, label, ids } => {
            assert forall|k: int| 0 <= k < ids.len() implies names_id(b, #[trigger] ids[k]) by {
                assert(names_id(a, ids[k]));
            }
        },
        RowView::Leaf { depth, name, id } => {},
    }
}

proof fn lemma_leaf_id(items: Seq<ItemView>, name: Seq<char>)
    requires
        leaf_names(items).contains(name),
    ensures
        names_id(items, leaf_id(items, name)),
    decreases items.len(),
{
    let t = items.drop_last();
    let x = items.last();
    lemma_leaf_names(t);
    if x.comps.len() == 1 {
        lemma_with_name(leaf_names(t), x.comps[0]);
    }
    lemma_names_id_push(items, leaf_id(items, name));
    if !(x.comps.len() == 1 && x.comps[0] == name) {
        lemma_leaf_id(t, name);
    }
}

proof fn lemma_leaf_names(items: Seq<ItemView>)
    ensures
        ascending(leaf_names(items)),
    decreases items.len(),
{
    if items.len() > 0 {
        lemma_leaf_names(items.drop_last());
        if items.last().comps.len() == 1 {
            lemma_with_name(leaf_names(items.drop_last()), items.last().comps[0]);
        }
    }
}

/// Every row of the tree is about items of the tree.
pub proof fn rows_are_about_the_items(
    items: Seq<ItemView>,
    base: Seq<Seq<char>>,
    depth: int,
    style: TreeStyle,
    collapsed: Set<PathView>,
    i: int,
)
    requires
        0 <= i < tree(items, base, depth, style, collapsed).len(),
    ensures
        row_names(items, tree(items, base, depth, style, collapsed)[i]),
    decreases weight(items), 1int, 0nat,
{
    let n = dir_names(items).len();
    let d = dir_rows(items, base, depth, style, collapsed, n);
    let l = leaf_rows(items, depth, style);
    if i < d.len() {
        lemma_dir_rows_names(items, base, depth, style, collapsed, n, i);
        assert(tree(items, base, depth, style, collapsed)[i] == d[i]);
    } else {
        let k = i - d.len();
        assert(tree(items, base, depth, style, collapsed)[i] == l[k]);
        if style.sort_leaves {
            assert(leaf_names(items).contains(leaf_names(items)[k]));
            lemma_leaf_id(items, leaf_names(items)[k]);
        } else {
            let id = leaves(items)[k].id;
            lemma_leaves_ids(items, id);
            let f = |x: ItemView| x.id;
            assert(leaves(items).map_values(f)[k] == id);
            assert(leaves(items).map_values(f).contains(id));
            let j = choose|j: int| 0 <= j < items.len() && (#[trigger] items[j]).id == id && items[j].comps.len() == 1;
            assert(items[j].comps.len() > 0);
        }
    }
}

proof fn lemma_dir_rows_names(
    items: Seq<ItemView>,
    base: Seq<Seq<char>>,
    depth: int,
    style: TreeStyle,
    collapsed: Set<PathView>,
    k: nat,
    i: int,
)
    requires
        k <= dir_names(items).len(),
        0 <= i < dir_rows(items, base, depth, style, collapsed, k).len(),
    ensures
        row_names(items, dir_rows(items, base, depth, style, collapsed, k)[i]),
    decreases weight(items), 0int, k,
{
    if k > 0 {
        let name = dir_names(items)[k - 1];
        let sub_items = within(items, name);
        let c = chain(sub_items, style.compress);
        let key = key_parts(base, seq![name] + c.0);
        let before = dir_rows(items, base, depth, style, collapsed, (k - 1) as nat);
        let row = dir_row(items, base, depth, style, name);
        let r = dir_rows(items, base, depth, style, collapsed, k);
        lemma_dir_lighter(items, k - 1);
        lemma_chain_weight(sub_items, style.compress);
        assert forall|id: usize| #[trigger] names_id(c.1, id) implies names_id(items, id) by {
            lemma_chain_ids(sub_items, style.compress, id);
            lemma_within_ids(items, name, id);
        }
        if i < before.len() {
            lemma_dir_rows_names(items, base, depth, style, collapsed, (k - 1) as nat, i);
            assert(r[i] == before[i]);
        } else if i == before.len() {
            assert(r[i] == row);
            let ids = all_ids(c.1);
            assert forall|m: int| 0 <= m < ids.len() implies names_id(items, #[trigger] ids[m]) by {
                numbers_below_are_those_of_the_items(c.1, ids[m]);
                assert(ids.contains(ids[m]));
            }
        } else {
            let inner = tree(c.1, key, depth + 1, style, collapsed);
            let m = i - before.len() - 1;
            assert(r[i] == inner[m]);
            rows_are_about_the_items(c.1, key, depth + 1, style, collapsed, m);
            lemma_row_names_up(c.1, items, inner[m]);
        }
    }
}

/// Whether some row is that of the item with this number.
pub open spec fn lists_id(rows: Seq<RowView>, id: usize) -> bool {
    exists|i: int| 0 <= i < rows.len() && (#[trigger] rows[i]) is Leaf && rows[i]->Leaf_id == id
}

/// Whether no two items have the same name.
pub open spec fn distinct_names(items: Seq<ItemView>) -> bool {
    forall|i: int, j: int|
        #![trigger items[i], items[j]]
        0 <= i < j < items.len() ==> items[i].comps != items[j].comps
}

/// Whether no two items have the same number.
pub open spec fn distinct_ids(items: Seq<ItemView>) -> bool {
    forall|i: int, j: int|
        #![trigger items[i], items[j]]
        0 <= i < j < items.len() ==> items[i].id != items[j].id
}

/// Whether item `x` is what `y` is as seen from the directory `name`.
pub open spec fn seen_from(x: ItemView, name: Seq<char>, y: ItemView) -> bool {
    x.comps == seq![name] + y.comps && x.id == y.id && y.comps.len() > 0
}

proof fn lemma_within_origin(items: Seq<ItemView>, name: Seq<char>, k: int)
    requires
        0 <= k < within(items, name).len(),
    ensures
        exists|i: int| 0 <= i < items.len() && seen_from(#[trigger] items[i], name, within(items, name)[k]),
    decreases items.len(),
{
    let t = items.drop_last();
    let s = within(t, name);
    let x = items.last();
    let r = within(items, name);
    if k < s.len() {
        lemma_within_origin(t, name, k);
        let i = choose|i: int| 0 <= i < t.len() && seen_from(#[trigger] t[i], name, s[k]);
        assert(items[i] == t[i]);
        assert(r[k] == s[k]);
    } else {
        assert(x.comps =~= seq![name] + x.comps.drop_first());
        assert(seen_from(items[items.len() - 1], name, r[k]));
    }
}

proof fn lemma_within_distinct(items: Seq<ItemView>, name: Seq<char>)
    ensures
        distinct_names(items) ==> distinct_names(within(items, name)),
        distinct_ids(items) ==> distinct_ids(within(items, name)),
    decreases items.len(),
{
    if items.len() > 0 {
        let t = items.drop_last();
        let s = within(t, name);
        let x = items.last();
        let r = within(items, name);
        lemma_within_distinct(t, name);
        assert forall|i: int, j: int| #![trigger t[i], t[j]] 0 <= i < j < t.len() && distinct_names(items)
            implies t[i].comps != t[j].comps by {
            assert(t[i] == items[i] && t[j] == items[j]);
        }
        assert forall|i: int, j: int| #![trigger t[i], t[j]] 0 <= i < j < t.len() && distinct_ids(items)
            implies t[i].id != t[j].id by {
            assert(t[i] == items[i] && t[j] == items[j]);
        }
        if x.comps.len() >= 2 && x.comps[0] == name {
            let y = ItemView { comps: x.comps.drop_first(), id: x.id };
            assert(x.comps =~= seq![name] + y.comps);
            assert forall|i: int, j: int| #![trigger r[i], r[j]] 0 <= i < j < r.len() implies (
            distinct_names(items) ==> r[i].comps != r[j].comps) && (distinct_ids(items) ==> r[i].id
                != r[j].id) by {
                assert(r[i] == s[i]);
                if j < s.len() {
                    assert(r[j] == s[j]);
                } else {
                    lemma_within_origin(t, name, i);
                    let m = choose|m: int| 0 <= m < t.len() && seen_from(#[trigger] t[m], name, s[i]);
                    assert(items[m] == t[m]);
                    assert(items[items.len() - 1] == x);
                }
            }
        }
    }
}

proof fn lemma_chain_distinct(items: Seq<ItemView>, compress: bool)
    ensures
        distinct_names(items) ==> distinct_names(chain(items, compress).1),
        distinct_ids(items) ==> distinct_ids(chain(items, compress).1),
    decreases weight(items),
{
    if compress && leaves(items).len() == 0 && dir_names(items).len() == 1 {
        let n = dir_names(items)[0];
        lemma_dir_lighter(items, 0);
        lemma_within_distinct(items, n);
        lemma_chain_distinct(within(items, n), compress);
    }
}

proof fn lemma_leaf_kept(items: Seq<ItemView>, i: int)
    requires
        distinct_names(items),
        0 <= i < items.len(),
        items[i].comps.len() == 1,
    ensures
        leaf_names(items).contains(items[i].comps[0]),
        leaf_id(items, items[i].comps[0]) == items[i].id,
    decreases items.len(),
{
    let t = items.drop_last();
    let x = items.last();
    lemma_leaf_names(t);
    if x.comps.len() == 1 {
        lemma_with_name(leaf_names(t), x.comps[0]);
    }
    if i < t.len() {
        assert(t[i] == items[i]);
        assert forall|a: int, b: int| #![trigger t[a], t[b]] 0 <= a < b < t.len() implies t[a].comps
            != t[b].comps by {
            assert(t[a] == items[a] && t[b] == items[b]);
        }
        lemma_leaf_kept(t, i);
        assert(items[items.len() - 1] == x);
        if x.comps.len() == 1 && x.comps[0] == items[i].comps[0] {
            assert(x.comps =~= items[i].comps);
        }
    }
}

/// With nothing collapsed every item has a row, where names come as they were given or no two are
/// the same.
pub proof fn open_tree_lists_every_item(items: Seq<ItemView>, base: Seq<Seq<char>>, depth: int, style: TreeStyle, id: usize)
    requires
        style.sort_leaves ==> distinct_names(items),
        names_id(items, id),
    ensures
        lists_id(tree(items, base, depth, style, Set::empty()), id),
    decreases weight(items), 1int, 0nat,
{
    let e = Set::<PathView>::empty();
    let n = dir_names(items).len();
    let d = dir_rows(items, base, depth, style, e, n);
    let l = leaf_rows(items, depth, style);
    let all = tree(items, base, depth, style, e);
    let i = choose|i: int| 0 <= i < items.len() && (#[trigger] items[i]).id == id && items[i].comps.len() > 0;
    if items[i].comps.len() == 1 {
        if style.sort_leaves {
            lemma_leaf_kept(items, i);
            let name = items[i].comps[0];
            let k = choose|k: int| 0 <= k < leaf_names(items).len() && leaf_names(items)[k] == name;
            assert(l[k] is Leaf && l[k]->Leaf_id == id);
            assert(all[d.len() + k] == l[k]);
        } else {
            lemma_leaves_ids(items, id);
            let f = |x: ItemView| x.id;
            let m = leaves(items).map_values(f);
            assert(m.contains(id));
            let k = choose|k: int| 0 <= k < m.len() && m[k] == id;
            assert(l[k] is Leaf && l[k]->Leaf_id == id);
            assert(all[d.len() + k] == l[k]);
        }
    } else {
        lemma_within_found(items, i);
        let k = choose|k: int| 0 <= k < n && dir_names(items)[k] == items[i].comps[0];
        lemma_dir_rows_list(items, base, depth, style, id, k, n);
        let j = choose|j: int| 0 <= j < d.len() && (#[trigger] d[j]) is Leaf && d[j]->Leaf_id == id;
        assert(all[j] == d[j]);
    }
}

proof fn lemma_dir_rows_list(items: Seq<ItemView>, base: Seq<Seq<char>>, depth: int, style: TreeStyle, id: usize, k: int, n: nat)
    requires
        style.sort_leaves ==> distinct_names(items),
        0 <= k < n <= dir_names(items).len(),
        names_id(within(items, dir_names(items)[k]), id),
    ensures
        lists_id(dir_rows(items, base, depth, style, Set::empty(), n), id),
    decreases weight(items), 0int, n,
{
    let e = Set::<PathView>::empty();
    let name = dir_names(items)[n - 1];
    let c = chain(within(items, name), style.compress);
    let key = key_parts(base, seq![name] + c.0);
    let before = dir_rows(items, base, depth, style, e, (n - 1) as nat);
    let r = dir_rows(items, base, depth, style, e, n);
    lemma_dir_lighter(items, n - 1);
    lemma_chain_weight(within(items, name), style.compress);
    if k < n - 1 {
        lemma_dir_rows_list(items, base, depth, style, id, k, (n - 1) as nat);
        let j = choose|j: int| 0 <= j < before.len() && (#[trigger] before[j]) is Leaf && before[j]->Leaf_id == id;
        assert(r[j] == before[j]);
    } else {
        lemma_chain_ids(within(items, name), style.compress, id);
        lemma_within_distinct(items, name);
        lemma_chain_distinct(within(items, name), style.compress);
        open_tree_lists_every_item(c.1, key, depth + 1, style, id);
        let inner = tree(c.1, key, depth + 1, style, e);
        let j = choose|j: int| 0 <= j < inner.len() && (#[trigger] inner[j]) is Leaf && inner[j]->Leaf_id == id;
        assert(r[before.len() + 1 + j] == inner[j]);
    }
}

// ── no item twice ───────────────────────────────────────────────────────────

/// Whether an item with this number stands in the directory `name`.
pub open spec fn stands_in(items: Seq<ItemView>, name: Seq<char>, id: usize) -> bool {
    exists|i: int|
        0 <= i < items.len() && (#[trigger] items[i]).id == id && items[i].comps.len() >= 2
            && items[i].comps[0] == name
}

proof fn lemma_stands_in(items: Seq<ItemView>, name: Seq<char>, id: usize)
    requires
        names_id(within(items, name), id),
    ensures
        stands_in(items, name, id),
{
    let w = within(items, name);
    let k = choose|k: int| 0 <= k < w.len() && (#[trigger] w[k]).id == id && w[k].comps.len() > 0;
    lemma_within_origin(items, name, k);
    let i = choose|i: int| 0 <= i < items.len() && seen_from(#[trigger] items[i], name, w[k]);
    assert(items[i].id == id && items[i].comps.len() >= 2 && items[i].comps[0] == name);
}

proof fn lemma_leaf_row(items: Seq<ItemView>, depth: int, style: TreeStyle, k: int)
    requires
        0 <= k < leaf_rows(items, depth, style).len(),
    ensures
        ({
            let r = leaf_rows(items, depth, style)[k];
            r is Leaf && exists|i: int|
                0 <= i < items.len() && (#[trigger] items[i]).id == r->Leaf_id && items[i].comps
                    == seq![r->Leaf_name]
        }),
{
    if style.sort_leaves {
        assert(leaf_names(items).contains(leaf_names(items)[k]));
        lemma_leaf_origin(items, leaf_names(items)[k]);
    } else {
        lemma_leaves_origin(items, k);
    }
}

proof fn lemma_leaf_origin(items: Seq<ItemView>, name: Seq<char>)
    requires
        leaf_names(items).contains(name),
    ensures
        exists|i: int|
            0 <= i < items.len() && (#[trigger] items[i]).id == leaf_id(items, name) && items[i].comps
                == seq![name],
    decreases items.len(),
{
    let t = items.drop_last();
    let x = items.last();
    lemma_leaf_names(t);
    if x.comps.len() == 1 {
        lemma_with_name(leaf_names(t), x.comps[0]);
    }
    if x.comps.len() == 1 && x.comps[0] == name {
        assert(x.comps =~= seq![name]);
        assert(items[items.len() - 1].id == leaf_id(items, name));
    } else {
        lemma_leaf_origin(t, name);
        let i = choose|i: int|
            0 <= i < t.len() && (#[trigger] t[i]).id == leaf_id(t, name) && t[i].comps == seq![name];
        assert(items[i] == t[i]);
    }
}

proof fn lemma_leaves_origin(items: Seq<ItemView>, k: int)
    requires
        0 <= k < leaves(items).len(),
    ensures
        exists|i: int| 0 <= i < items.len() && #[trigger] items[i] == leaves(items)[k],
        leaves(items)[k].comps == seq![leaves(items)[k].comps[0]],
    decreases items.len(),
{
    let t = items.drop_last();
    if k < leaves(t).len() {
        lemma_leaves_origin(t, k);
        let i = choose|i: int| 0 <= i < t.len() && #[trigger] t[i] == leaves(t)[k];
        assert(items[i] == t[i]);
    } else {
        assert(items[items.len() - 1] == leaves(items)[k]);
        assert(leaves(items)[k].comps =~= seq![leaves(items)[k].comps[0]]);
    }
}

proof fn lemma_leaves_distinct(items: Seq<ItemView>)
    requires
        distinct_ids(items),
    ensures
        distinct_ids(leaves(items)),
    decreases items.len(),
{
    if items.len() > 0 {
        let t = items.drop_last();
        let l = leaves(items);
        assert forall|a: int, b: int| #![trigger t[a], t[b]] 0 <= a < b < t.len() implies t[a].id
            != t[b].id by {
            assert(t[a] == items[a] && t[b] == items[b]);
        }
        lemma_leaves_distinct(t);
        assert forall|a: int, b: int| #![trigger l[a], l[b]] 0 <= a < b < l.len() implies l[a].id
            != l[b].id by {
            assert(l[a] == leaves(t)[a]);
            if b < leaves(t).len() {
                assert(l[b] == leaves(t)[b]);
            } else {
                lemma_leaves_origin(t, a);
                let i = choose|i: int| 0 <= i < t.len() && #[trigger] t[i] == leaves(t)[a];
                assert(items[i] == t[i]);
                assert(items[items.len() - 1] == l[b]);
            }
        }
    }
}

proof fn lemma_dir_rows_place(
    items: Seq<ItemView>,
    base: Seq<Seq<char>>,
    depth: int,
    style: TreeStyle,
    collapsed: Set<PathView>,
    k: nat,
    i: int,
)
    requires
        k <= dir_names(items).len(),
        0 <= i < dir_rows(items, base, depth, style, collapsed, k).len(),
        dir_rows(items, base, depth, style, collapsed, k)[i] is Leaf,
    ensures
        exists|m: int|
            0 <= m < k && stands_in(
                items,
                #[trigger] dir_names(items)[m],
                dir_rows(items, base, depth, style, collapsed, k)[i]->Leaf_id,
            ),
    decreases k,
{
    if k > 0 {
        let name = dir_names(items)[k - 1];
        let sub_items = within(items, name);
        let c = chain(sub_items, style.compress);
        let key = key_parts(base, seq![name] + c.0);
        let before = dir_rows(items, base, depth, style, collapsed, (k - 1) as nat);
        let r = dir_rows(items, base, depth, style, collapsed, k);
        if i < before.len() {
            assert(r[i] == before[i]);
            lemma_dir_rows_place(items, base, depth, style, collapsed, (k - 1) as nat, i);
            let m = choose|m: int|
                0 <= m < k - 1 && stands_in(items, #[trigger] dir_names(items)[m], r[i]->Leaf_id);
            assert(0 <= m < k && stands_in(items, dir_names(items)[m], r[i]->Leaf_id));
        } else if i == before.len() {
            assert(r[i] == dir_row(items, base, depth, style, name));
        } else {
            let inner = tree(c.1, key, depth + 1, style, collapsed);
            let m = i - before.len() - 1;
            assert(r[i] == inner[m]);
            rows_are_about_the_items(c.1, key, depth + 1, style, collapsed, m);
            lemma_chain_ids(sub_items, style.compress, r[i]->Leaf_id);
            lemma_stands_in(items, name, r[i]->Leaf_id);
            assert(stands_in(items, dir_names(items)[k - 1], r[i]->Leaf_id));
        }
    }
}

proof fn lemma_one_place(items: Seq<ItemView>, a: Seq<char>, b: Seq<char>, id: usize)
    requires
        distinct_ids(items),
        stands_in(items, a, id),
        stands_in(items, b, id),
    ensures
        a == b,
{
    let i = choose|i: int|
        0 <= i < items.len() && (#[trigger] items[i]).id == id && items[i].comps.len() >= 2
            && items[i].comps[0] == a;
    let j = choose|j: int|
        0 <= j < items.len() && (#[trigger] items[j]).id == id && items[j].comps.len() >= 2
            && items[j].comps[0] == b;
    if i < j {
        assert(items[i].id != items[j].id);
    } else if j < i {
        assert(items[j].id != items[i].id);
    }
}

/// No item has two rows, whatever is collapsed, where no two items have the same number.
pub proof fn tree_lists_no_item_twice(
    items: Seq<ItemView>,
    base: Seq<Seq<char>>,
    depth: int,
    style: TreeStyle,
    collapsed: Set<PathView>,
    i: int,
    j: int,
)
    requires
        distinct_ids(items),
        0 <= i < j < tree(items, base, depth, style, collapsed).len(),
        tree(items, base, depth, style, collapsed)[i] is Leaf,
        tree(items, base, depth, style, collapsed)[j] is Leaf,
    ensures
        tree(items, base, depth, style, collapsed)[i]->Leaf_id != tree(
            items,
            base,
            depth,
            style,
            collapsed,
        )[j]->Leaf_id,
    decreases weight(items), 1int, 0nat,
{
    let n = dir_names(items).len();
    let d = dir_rows(items, base, depth, style, collapsed, n);
    let l = leaf_rows(items, depth, style);
    let all = tree(items, base, depth, style, collapsed);
    if j < d.len() {
        assert(all[i] == d[i] && all[j] == d[j]);
        lemma_dir_rows_once(items, base, depth, style, collapsed, n, i, j);
    } else {
        let b = j - d.len();
        assert(all[j] == l[b]);
        lemma_leaf_row(items, depth, style, b);
        let y = choose|y: int|
            0 <= y < items.len() && (#[trigger] items[y]).id == l[b]->Leaf_id && items[y].comps
                == seq![l[b]->Leaf_name];
        if i < d.len() {
            assert(all[i] == d[i]);
            lemma_dir_rows_place(items, base, depth, style, collapsed, n, i);
            let m = choose|m: int|
                0 <= m < n && stands_in(items, #[trigger] dir_names(items)[m], d[i]->Leaf_id);
            let name = dir_names(items)[m];
            let x = choose|x: int|
                0 <= x < items.len() && (#[trigger] items[x]).id == d[i]->Leaf_id && items[x].comps.len()
                    >= 2 && items[x].comps[0] == name;
            if x < y {
                assert(items[x].id != items[y].id);
            } else if y < x {
                assert(items[y].id != items[x].id);
            }
        } else {
            let a = i - d.len();
            assert(all[i] == l[a]);
            if style.sort_leaves {
                lemma_leaf_row(items, depth, style, a);
                let x = choose|x: int|
                    0 <= x < items.len() && (#[trigger] items[x]).id == l[a]->Leaf_id && items[x].comps
                        == seq![l[a]->Leaf_name];
                lemma_leaf_names(items);
                assert(text_less(leaf_names(items)[a], leaf_names(items)[b]));
                text_less_irreflexive(leaf_names(items)[a]);
                assert(items[x].comps[0] != items[y].comps[0]);
                if x < y {
                    assert(items[x].id != items[y].id);
                } else if y < x {
                    assert(items[y].id != items[x].id);
                }
            } else {
                lemma_leaves_distinct(items);
                assert(leaves(items)[a].id != leaves(items)[b].id);
            }
        }
    }
}

proof fn lemma_dir_rows_once(
    items: Seq<ItemView>,
    base: Seq<Seq<char>>,
    depth: int,
    style: TreeStyle,
    collapsed: Set<PathView>,
    k: nat,
    i: int,
    j: int,
)
    requires
        distinct_ids(items),
        k <= dir_names(items).len(),
        0 <= i < j < dir_rows(items, base, depth, style, collapsed, k).len(),
        dir_rows(items, base, depth, style, collapsed, k)[i] is Leaf,
        dir_rows(items, base, depth, style, collapsed, k)[j] is Leaf,
    ensures
        dir_rows(items, base, depth, style, collapsed, k)[i]->Leaf_id != dir_rows(
            items,
            base,
            depth,
            style,
            collapsed,
            k,
        )[j]->Leaf_id,
    decreases weight(items), 0int, k,
{
    if k > 0 {
        let name = dir_names(items)[k - 1];
        let sub_items = within(items, name);
        let c = chain(sub_items, style.compress);
        let key = key_parts(base, seq![name] + c.0);
        let before = dir_rows(items, base, depth, style, collapsed, (k - 1) as nat);
        let r = dir_rows(items, base, depth, style, collapsed, k);
        lemma_dir_lighter(items, k - 1);
        lemma_chain_weight(sub_items, style.compress);
        if j < before.len() {
            assert(r[i] == before[i] && r[j] == before[j]);
            lemma_dir_rows_once(items, base, depth, style, collapsed, (k - 1) as nat, i, j);
        } else if j == before.len() {
            assert(r[j] == dir_row(items, base, depth, style, name));
        } else {
            let inner = tree(c.1, key, depth + 1, style, collapsed);
            let b = j - before.len() - 1;
            assert(r[j] == inner[b]);
            if i > before.len() {
                let a = i - before.len() - 1;
                assert(r[i] == inner[a]);
                lemma_within_distinct(items, name);
                lemma_chain_distinct(sub_items, style.compress);
                tree_lists_no_item_twice(c.1, key, depth + 1, style, collapsed, a, b);
            } else if i == before.len() {
                assert(r[i] == dir_row(items, base, depth, style, name));
            } else {
                assert(r[i] == before[i]);
                lemma_dir_rows_place(items, base, depth, style, collapsed, (k - 1) as nat, i);
                let m = choose|m: int|
                    0 <= m < k - 1 && stands_in(items, #[trigger] dir_names(items)[m], r[i]->Leaf_id);
                rows_are_about_the_items(c.1, key, depth + 1, style, collapsed, b);
                lemma_chain_ids(sub_items, style.compress, r[j]->Leaf_id);
                lemma_stands_in(items, name, r[j]->Leaf_id);
                if r[i]->Leaf_id == r[j]->Leaf_id {
                    lemma_one_place(items, dir_names(items)[m], name, r[i]->Leaf_id);
                    lemma_dir_names(items);
                    assert(text_less(dir_names(items)[m], dir_names(items)[k - 1]));
                    text_less_irreflexive(name);
                }
            }
        }
    }
}

// ── the order of the rows ───────────────────────────────────────────────────

/// How deep a row stands.
pub open spec fn row_depth(r: RowView) -> int {
    match r {
        RowView::Dir { depth, key, label, ids } => depth,
        RowView::Leaf { depth, name, id } => depth,
    }
}

/// Whether two rows stand next to each other or further apart in the same directory: they are
/// equally deep, and no row between them is less deep.
pub open spec fn siblings(rows: Seq<RowView>, i: int, j: int) -> bool {
    &&& 0 <= i < j < rows.len()
    &&& row_depth(rows[i]) == row_depth(rows[j])
    &&& forall|k: int| i < k < j ==> row_depth(#[trigger] rows[k]) >= row_depth(rows[i])
}

/// Whether row `a` may stand before row `b` of the same directory: directories come before names,
/// and each come ascending, the directories where each has a row of its own, the names where
/// they are sorted.
pub open spec fn may_precede(a: RowView, b: RowView, style: TreeStyle) -> bool {
    match (a, b) {
        (RowView::Dir { label: x, .. }, RowView::Dir { label: y, .. }) => !style.compress
            ==> text_less(x, y),
        (RowView::Dir { .. }, RowView::Leaf { .. }) => true,
        (RowView::Leaf { .. }, RowView::Dir { .. }) => false,
        (RowView::Leaf { name: x, .. }, RowView::Leaf { name: y, .. }) => style.sort_leaves
            ==> text_less(x, y),
    }
}

proof fn lemma_depths(
    items: Seq<ItemView>,
    base: Seq<Seq<char>>,
    depth: int,
    style: TreeStyle,
    collapsed: Set<PathView>,
    i: int,
)
    requires
        0 <= i < tree(items, base, depth, style, collapsed).len(),
    ensures
        row_depth(tree(items, base, depth, style, collapsed)[i]) >= depth,
    decreases weight(items), 1int, 0nat,
{
    let n = dir_names(items).len();
    let d = dir_rows(items, base, depth, style, collapsed, n);
    if i < d.len() {
        assert(tree(items, base, depth, style, collapsed)[i] == d[i]);
        lemma_dir_depths(items, base, depth, style, collapsed, n, i);
    } else {
        assert(tree(items, base, depth, style, collapsed)[i] == leaf_rows(items, depth, style)[i - d.len()]);
    }
}

/// A row of the first directories is no less deep than they are; where it is no deeper it is the
/// row of one of them.
proof fn lemma_dir_depths(
    items: Seq<ItemView>,
    base: Seq<Seq<char>>,
    depth: int,
    style: TreeStyle,
    collapsed: Set<PathView>,
    k: nat,
    i: int,
)
    requires
        k <= dir_names(items).len(),
        0 <= i < dir_rows(items, base, depth, style, collapsed, k).len(),
    ensures
        row_depth(dir_rows(items, base, depth, style, collapsed, k)[i]) >= depth,
        row_depth(dir_rows(items, base, depth, style, collapsed, k)[i]) == depth ==> exists|m: int|
            0 <= m < k && dir_rows(items, base, depth, style, collapsed, k)[i] == dir_row(
                items,
                base,
                depth,
                style,
                #[trigger] dir_names(items)[m],
            ),
    decreases weight(items), 0int, k,
{
    if k > 0 {
        let name = dir_names(items)[k - 1];
        let c = chain(within(items, name), style.compress);
        let key = key_parts(base, seq![name] + c.0);
        let before = dir_rows(items, base, depth, style, collapsed, (k - 1) as nat);
        let r = dir_rows(items, base, depth, style, collapsed, k);
        lemma_dir_lighter(items, k - 1);
        lemma_chain_weight(within(items, name), style.compress);
        if i < before.len() {
            assert(r[i] == before[i]);
            lemma_dir_depths(items, base, depth, style, collapsed, (k - 1) as nat, i);
            if row_depth(r[i]) == depth {
                let m = choose|m: int|
                    0 <= m < k - 1 && before[i] == dir_row(items, base, depth, style, #[trigger] dir_names(items)[m]);
                assert(0 <= m < k && r[i] == dir_row(items, base, depth, style, dir_names(items)[m]));
            }
        } else if i == before.len() {
            assert(r[i] == dir_row(items, base, depth, style, dir_names(items)[k - 1]));
        } else {
            let m = i - before.len() - 1;
            assert(r[i] == tree(c.1, key, depth + 1, style, collapsed)[m]);
            lemma_depths(c.1, key, depth + 1, style, collapsed, m);
        }
    }
}

/// In every directory the directories come first and the names behind them, each ascending where
/// the style says so.
pub proof fn siblings_stand_in_order(
    items: Seq<ItemView>,
    base: Seq<Seq<char>>,
    depth: int,
    style: TreeStyle,
    collapsed: Set<PathView>,
    i: int,
    j: int,
)
    requires
        siblings(tree(items, base, depth, style, collapsed), i, j),
    ensures
        may_precede(
            tree(items, base, depth, style, collapsed)[i],
            tree(items, base, depth, style, collapsed)[j],
            style,
        ),
    decreases weight(items), 1int, 0nat,
{
    let n = dir_names(items).len();
    let d = dir_rows(items, base, depth, style, collapsed, n);
    let l = leaf_rows(items, depth, style);
    let all = tree(items, base, depth, style, collapsed);
    if j < d.len() {
        assert(all[i] == d[i] && all[j] == d[j]);
        assert forall|k: int| i < k < j implies row_depth(#[trigger] d[k]) >= row_depth(d[i]) by {
            assert(all[k] == d[k]);
        }
        lemma_dir_rows_order(items, base, depth, style, collapsed, n, i, j);
    } else {
        assert(all[j] == l[j - d.len()]);
        if i < d.len() {
            assert(all[i] == d[i]);
            lemma_dir_depths(items, base, depth, style, collapsed, n, i);
        } else {
            assert(all[i] == l[i - d.len()]);
            lemma_leaf_names(items);
        }
    }
}

proof fn lemma_dir_rows_order(
    items: Seq<ItemView>,
    base: Seq<Seq<char>>,
    depth: int,
    style: TreeStyle,
    collapsed: Set<PathView>,
    k: nat,
    i: int,
    j: int,
)
    requires
        k <= dir_names(items).len(),
        siblings(dir_rows(items, base, depth, style, collapsed, k), i, j),
    ensures
        may_precede(
            dir_rows(items, base, depth, style, collapsed, k)[i],
            dir_rows(items, base, depth, style, collapsed, k)[j],
            style,
        ),
    decreases weight(items), 0int, k,
{
    if k > 0 {
        let name = dir_names(items)[k - 1];
        let c = chain(within(items, name), style.compress);
        let key = key_parts(base, seq![name] + c.0);
        let before = dir_rows(items, base, depth, style, collapsed, (k - 1) as nat);
        let r = dir_rows(items, base, depth, style, collapsed, k);
        let h = before.len() as int;
        lemma_dir_lighter(items, k - 1);
        lemma_chain_weight(within(items, name), style.compress);
        assert(r[h] == dir_row(items, base, depth, style, name));
        if j < h {
            assert(r[i] == before[i] && r[j] == before[j]);
            assert forall|x: int| i < x < j implies row_depth(#[trigger] before[x]) >= row_depth(before[i]) by {
                assert(r[x] == before[x]);
            }
            lemma_dir_rows_order(items, base, depth, style, collapsed, (k - 1) as nat, i, j);
        } else if j == h {
            assert(r[i] == before[i]);
            lemma_dir_depths(items, base, depth, style, collapsed, (k - 1) as nat, i);
            let m = choose|m: int|
                0 <= m < k - 1 && before[i] == dir_row(items, base, depth, style, #[trigger] dir_names(items)[m]);
            lemma_dir_names(items);
            assert(text_less(dir_names(items)[m], dir_names(items)[k - 1]));
            if !style.compress {
                lemma_one_name(dir_names(items)[m]);
                lemma_one_name(name);
            }
        } else {
            let inner = tree(c.1, key, depth + 1, style, collapsed);
            assert(r[j] == inner[j - h - 1]);
            lemma_depths(c.1, key, depth + 1, style, collapsed, j - h - 1);
            if i > h {
                assert(r[i] == inner[i - h - 1]);
                assert forall|x: int| i - h - 1 < x < j - h - 1 implies row_depth(#[trigger] inner[x])
                    >= row_depth(inner[i - h - 1]) by {
                    assert(r[h + 1 + x] == inner[x]);
                }
                siblings_stand_in_order(c.1, key, depth + 1, style, collapsed, i - h - 1, j - h - 1);
            }
        }
    }
}

proof fn lemma_one_name(name: Seq<char>)
    ensures
        joined(seq![name] + Seq::<Seq<char>>::empty(), seq!['/']) == name,
{
    let s = seq![name] + Seq::<Seq<char>>::empty();
    assert(s =~= seq![name]);
    assert(s.drop_last() =~= Seq::<Seq<char>>::empty());
    assert(joined(s, seq!['/']) =~= name);
}

/// Where directories are not run together, a directory is shown by its name.
pub proof fn a_directory_goes_by_its_name(items: Seq<ItemView>, base: Seq<Seq<char>>, depth: int, style: TreeStyle, name: Seq<char>)
    requires
        !style.compress,
    ensures
        dir_row(items, base, depth, style, name) is Dir,
        dir_row(items, base, depth, style, name)->label == name,
        dir_row(items, base, depth, style, name)->ids == all_ids(within(items, name)),
{
    let c = chain(within(items, name), style.compress);
    assert(c.0 =~= Seq::<Seq<char>>::empty());
    let v = seq![name] + c.0;
    assert(v =~= seq![name]);
    assert(v.drop_last() =~= Seq::<Seq<char>>::empty());
    assert(v.skip(1) =~= Seq::<Seq<char>>::empty());
    assert(v.drop_first() =~= Seq::<Seq<char>>::empty());
    reveal_with_fuel(joined, 2);
    assert(joined(v, seq!['/']) =~= name);
}

} // verus!
