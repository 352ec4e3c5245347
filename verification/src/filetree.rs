//! The project tree: which entries it shows, what is selected in it, and what its keys do.
use vstd::prelude::*;
use crate::diff::{least, lesser};
use crate::git::{lemma_last_char, path_set};
use crate::keys::Keystroke;
use crate::order::{Ranked, can_sort, lemma_sorted_map, less_text, sort, sorted, sorted_by, sorting_by_keeps_members, sorting_by_orders, text_less, text_less_strict, text_less_total, text_less_transitive};
use crate::path::{FilePath, PathSet, PathView, a_path_is_a_directory_and_a_name, copy_opt_path, copy_strings, extension_of, good_part, joined_path, last_char, lemma_path_views_push, name_of, opt_path, parent_of, path_of, path_ok, path_views, reading_a_path_undoes_writing, the_last_place_is_the_last, toggled, under};
use crate::text::{cat, cat3, chars_of, dec, decimal, digit_char, filter_map, joined, lemma_filter_map_ends, lemma_filter_map_step, lemma_texts_push, lower, reading_undoes_writing, same, string_of, texts};

verus! {

// ── reading the disk ────────────────────────────────────────────────────────

/// Whether the finder never looks at an entry with this name.
pub open spec fn finder_ignores(name: Seq<char>) -> bool {
    name == "node_modules"@ || name == ".git"@ || name == ".DS_Store"@ || name == "target"@ || name == "dist"@
        || name == "build"@
}

/// Whether the tree hides an entry with this name.
pub open spec fn tree_hides(name: Seq<char>) -> bool {
    name == ".git"@ || name == ".DS_Store"@
}

/// At most so many files are collected for the finder.
pub const FILES_MAX: usize = 50_000;

/// What becomes of an entry while files are collected.
#[derive(Clone, Copy, Debug, PartialEq, Eq, Structural)]
pub enum Visit {
    /// Neither it nor what is in it counts.
    Skip,
    /// It is a directory: note it and look into it.
    Enter,
    /// It is a file: note it.
    Take,
    /// Enough files were collected.
    Stop,
}

/// Ignored names and hidden directories are passed over; the search ends when there are
/// enough files.
pub open spec fn visit_of(name: Seq<char>, is_dir: bool, files: int) -> Visit {
    if files >= FILES_MAX {
        Visit::Stop
    } else if finder_ignores(name) {
        Visit::Skip
    } else if is_dir {
        if name.len() > 0 && name[0] == '.' {
            Visit::Skip
        } else {
            Visit::Enter
        }
    } else {
        Visit::Take
    }
}

/// What becomes of an entry while files are collected, given how many there are.
pub fn visit(name: &str, is_dir: bool, files: usize) -> (r: Visit)
    ensures
        r == visit_of(name@, is_dir, files as int),
{
    if files >= FILES_MAX {
        return Visit::Stop;
    }
    if same(name, "node_modules") || same(name, ".git") || same(name, ".DS_Store") || same(
        name,
        "target",
    ) || same(name, "dist") || same(name, "build") {
        return Visit::Skip;
    }
    if is_dir {
        let v = chars_of(name);
        if v.len() > 0 && v[0] == '.' {
            Visit::Skip
        } else {
            Visit::Enter
        }
    } else {
        Visit::Take
    }
}

/// An entry of a directory.
#[derive(Debug)]
pub struct Child {
    pub name: String,
    pub is_dir: bool,
}

/// What an entry is.
pub ghost struct ChildView {
    pub name: Seq<char>,
    pub is_dir: bool,
}

impl View for Child {
    type V = ChildView;

    open spec fn view(&self) -> ChildView {
        ChildView { name: self.name@, is_dir: self.is_dir }
    }
}

/// What the entries of a directory are.
pub open spec fn child_views(v: Seq<Child>) -> Seq<ChildView> {
    Seq::new(v.len(), |i: int| v[i]@)
}

/// Directories come first, then the order of the names, upper and lower case alike.
pub open spec fn child_less(a: ChildView, b: ChildView) -> bool {
    if a.is_dir != b.is_dir {
        a.is_dir
    } else {
        text_less(lower(a.name), lower(b.name))
    }
}

impl Ranked for Child {
    open spec fn before(&self, other: &Self) -> bool {
        child_less(self@, other@)
    }

    fn comes_before(&self, other: &Self) -> (r: bool) {
        if self.is_dir != other.is_dir {
            self.is_dir
        } else {
            let a = self.name.as_str().to_lowercase();
            let b = other.name.as_str().to_lowercase();
            less_text(a.as_str(), b.as_str())
        }
    }

    proof fn order_is_strict(a: &Self, b: &Self) {
        text_less_strict(lower(a@.name), lower(b@.name));
    }

    proof fn order_is_weak(a: &Self, b: &Self, c: &Self) {
        let x = lower(a@.name);
        let y = lower(b@.name);
        let z = lower(c@.name);
        text_less_total(x, y);
        text_less_total(y, z);
        if text_less(x, z) && text_less(y, x) {
            text_less_transitive(y, x, z);
        }
    }
}

/// The entries of one directory, as they were read.
#[derive(Debug)]
pub struct Listing {
    pub dir: FilePath,
    pub children: Vec<Child>,
}

/// What a directory holds.
pub ghost struct ListingView {
    pub dir: PathView,
    pub children: Seq<ChildView>,
}

impl View for Listing {
    type V = ListingView;

    open spec fn view(&self) -> ListingView {
        ListingView { dir: self.dir@, children: child_views(self.children@) }
    }
}

/// What the directories hold.
pub open spec fn listing_views(v: Seq<Listing>) -> Seq<ListingView> {
    Seq::new(v.len(), |i: int| v[i]@)
}

/// What was read of a directory; nothing where it was not read.
pub open spec fn listed(v: Seq<ListingView>, dir: PathView) -> Seq<ChildView>
    decreases v.len(),
{
    if v.len() == 0 {
        Seq::empty()
    } else if v[0].dir == dir {
        v[0].children
    } else {
        listed(v.drop_first(), dir)
    }
}

/// The entries of a directory that the tree shows, in their order.
pub open spec fn shown_children(v: Seq<ListingView>, dir: PathView) -> Seq<ChildView> {
    sorted_by(
        filter_map(
            listed(v, dir),
            |c: ChildView|
                if tree_hides(c.name) {
                    None
                } else {
                    Some(c)
                },
        ),
        |a: ChildView, b: ChildView| child_less(a, b),
    )
}

fn children_shown(v: &Vec<Listing>, dir: &FilePath) -> (r: Vec<Child>)
    ensures
        child_views(r@) == shown_children(listing_views(v@), dir@),
{
    let ghost lv = listing_views(v@);
    let ghost f = |c: ChildView|
        if tree_hides(c.name) {
            None
        } else {
            Some(c)
        };
    let mut out: Vec<Child> = Vec::new();
    let mut i: usize = 0;
    assert(lv.skip(0) =~= lv);
    while i < v.len() && !v[i].dir.same(dir)
        invariant
            i <= v.len(),
            lv == listing_views(v@),
            listed(lv, dir@) == listed(lv.skip(i as int), dir@),
        decreases v.len() - i,
    {
        proof {
            assert(lv.skip(i as int)[0] == lv[i as int]);
            assert(lv.skip(i as int).drop_first() =~= lv.skip(i + 1));
        }
        i = i + 1;
    }
    let ghost all = listed(lv, dir@);
    assert(child_views(out@) =~= Seq::<ChildView>::empty());
    if i < v.len() {
        proof {
            assert(lv.skip(i as int)[0] == lv[i as int]);
            assert(all == child_views(v@[i as int].children@));
            lemma_filter_map_ends(all, f);
        }
        let c = &v[i].children;
        let mut k: usize = 0;
        while k < c.len()
            invariant
                k <= c.len(),
                all == child_views(c@),
                f == (|c: ChildView|
                    if tree_hides(c.name) {
                        None
                    } else {
                        Some(c)
                    }),
                child_views(out@) == filter_map(all.take(k as int), f),
            decreases c.len() - k,
        {
            proof {
                lemma_filter_map_step(all, f, k as int);
            }
            if !(same(c[k].name.as_str(), ".git") || same(c[k].name.as_str(), ".DS_Store")) {
                let x = Child { name: c[k].name.clone(), is_dir: c[k].is_dir };
                assert(child_views(out@.push(x)) =~= child_views(out@).push(x@));
                out.push(x);
            }
            k = k + 1;
        }
    } else {
        proof {
            assert(lv.skip(i as int).len() == 0);
            assert(all == Seq::<ChildView>::empty());
            assert(filter_map(all, f) =~= Seq::<ChildView>::empty());
        }
    }
    proof {
        let g = |c: Child| c@;
        let less = |a: ChildView, b: ChildView| child_less(a, b);
        assert forall|a: Child, b: Child| #[trigger] a.before(&b) == less(g(a), g(b)) by {
        }
        lemma_sorted_map(out@, g, less);
        assert(child_views(out@) =~= out@.map_values(g));
        assert(child_views(sorted(out@)) =~= sorted(out@).map_values(g));
    }
    sort(out)
}

// ── the rows of the tree ────────────────────────────────────────────────────

/// A row of the tree.
#[derive(Debug)]
pub struct Entry {
    pub name: String,
    pub path: FilePath,
    pub is_dir: bool,
    pub depth: usize,
    pub ignored: bool,
}

/// What a row of the tree is.
pub ghost struct EntryView {
    pub name: Seq<char>,
    pub path: PathView,
    pub is_dir: bool,
    pub depth: usize,
    pub ignored: bool,
}

impl View for Entry {
    type V = EntryView;

    open spec fn view(&self) -> EntryView {
        EntryView {
            name: self.name@,
            path: self.path@,
            is_dir: self.is_dir,
            depth: self.depth,
            ignored: self.ignored,
        }
    }
}

/// What the rows of the tree are.
pub open spec fn entry_views(v: Seq<Entry>) -> Seq<EntryView> {
    Seq::new(v.len(), |i: int| v[i]@)
}

proof fn lemma_entry_push(v: Seq<Entry>, e: Entry)
    ensures
        entry_views(v.push(e)) == entry_views(v).push(e@),
{
    assert(entry_views(v.push(e)) =~= entry_views(v).push(e@));
}

/// One level deeper, as far as it can be counted.
pub open spec fn deeper(depth: usize) -> usize {
    if depth < usize::MAX {
        (depth + 1) as usize
    } else {
        depth
    }
}

/// The path of an entry of a directory.
pub open spec fn child_path(dir: PathView, name: Seq<char>) -> PathView {
    PathView { abs: dir.abs, parts: dir.parts.push(name) }
}

/// What decides which rows the tree has: the directories read, those that are expanded, the
/// paths that git ignores, and how deep the deepest expanded directory lies.
pub ghost struct TreeWorld {
    pub listings: Seq<ListingView>,
    pub expanded: Set<PathView>,
    pub ignored: Set<PathView>,
    pub limit: nat,
}

/// The rows of the first `n` entries of a directory: each is followed by the rows of what is
/// in it where it is an expanded directory. What lies in an ignored directory is ignored too.
pub open spec fn walked(w: TreeWorld, dir: PathView, depth: usize, ignored: bool, n: nat) -> Seq<EntryView>
    decreases w.limit + 1 - dir.parts.len(), n,
{
    let c = shown_children(w.listings, dir);
    if n == 0 || n > c.len() {
        Seq::empty()
    } else {
        let x = c[n - 1];
        let p = child_path(dir, x.name);
        let ign = ignored || w.ignored.contains(p);
        let head = walked(w, dir, depth, ignored, (n - 1) as nat).push(
            EntryView { name: x.name, path: p, is_dir: x.is_dir, depth, ignored: ign },
        );
        if x.is_dir && w.expanded.contains(p) && p.parts.len() <= w.limit {
            head + walked(w, p, deeper(depth), ign, shown_children(w.listings, p).len())
        } else {
            head
        }
    }
}

/// The length of the longest path in a list.
pub open spec fn longest_path(v: Seq<PathView>) -> nat
    decreases v.len(),
{
    if v.len() == 0 {
        0
    } else {
        let l = longest_path(v.drop_last());
        if v.last().parts.len() > l {
            v.last().parts.len()
        } else {
            l
        }
    }
}

proof fn lemma_longest_path(v: Seq<PathView>, i: int)
    requires
        0 <= i < v.len(),
    ensures
        v[i].parts.len() <= longest_path(v),
    decreases v.len(),
{
    if i < v.len() - 1 {
        lemma_longest_path(v.drop_last(), i);
    }
}

fn longest_of(s: &PathSet) -> (r: usize)
    ensures
        r == longest_path(path_views(s.items@)),
{
    let ghost v = path_views(s.items@);
    let mut m: usize = 0;
    let mut i: usize = 0;
    assert(v.take(0) =~= Seq::<PathView>::empty());
    while i < s.items.len()
        invariant
            i <= s.items.len(),
            v == path_views(s.items@),
            m == longest_path(v.take(i as int)),
        decreases s.items.len() - i,
    {
        proof {
            assert(v.take(i + 1).drop_last() =~= v.take(i as int));
            assert(v.take(i + 1).last() == v[i as int]);
        }
        let k: usize = s.items[i].parts.len();
        assert(v[i as int].parts.len() == k);
        if k > m {
            m = k;
        }
        i = i + 1;
    }
    assert(v.take(v.len() as int) =~= v);
    m
}

fn walk(
    listings: &Vec<Listing>,
    expanded: &PathSet,
    ignored_set: &PathSet,
    limit: usize,
    dir: &FilePath,
    depth: usize,
    ignored: bool,
    out: &mut Vec<Entry>,
)
    requires
        dir@.parts.len() <= limit,
    ensures
        ({
            let w = TreeWorld {
                listings: listing_views(listings@),
                expanded: expanded@,
                ignored: ignored_set@,
                limit: limit as nat,
            };
            entry_views(final(out)@) == entry_views(old(out)@) + walked(
                w,
                dir@,
                depth,
                ignored,
                shown_children(w.listings, dir@).len(),
            )
        }),
    decreases limit + 1 - dir@.parts.len(),
{
    let ghost w = TreeWorld {
        listings: listing_views(listings@),
        expanded: expanded@,
        ignored: ignored_set@,
        limit: limit as nat,
    };
    let ghost before = entry_views(out@);
    let c = children_shown(listings, dir);
    let ghost cv = shown_children(w.listings, dir@);
    let mut n: usize = 0;
    assert(child_views(c@).len() == c.len());
    assert(entry_views(out@) =~= before + walked(w, dir@, depth, ignored, 0));
    while n < c.len()
        invariant
            n <= c.len(),
            dir@.parts.len() <= limit,
            w == (TreeWorld {
                listings: listing_views(listings@),
                expanded: expanded@,
                ignored: ignored_set@,
                limit: limit as nat,
            }),
            child_views(c@) == cv,
            cv == shown_children(w.listings, dir@),
            cv.len() == c.len(),
            entry_views(out@) == before + walked(w, dir@, depth, ignored, n as nat),
        decreases c.len() - n,
    {
        let name = c[n].name.clone();
        let is_dir = c[n].is_dir;
        assert(cv[n as int] == c@[n as int]@);
        let mut parts = copy_strings(&dir.parts);
        proof {
            lemma_texts_push(parts@, name);
        }
        parts.push(name.clone());
        let p = FilePath { abs: dir.abs, parts };
        assert(p@ == child_path(dir@, name@));
        let ign = ignored || ignored_set.contains(&p);
        let e = Entry { name, path: p.copy(), is_dir, depth, ignored: ign };
        proof {
            lemma_entry_push(out@, e);
        }
        out.push(e);
        let ghost head = walked(w, dir@, depth, ignored, n as nat).push(e@);
        assert(entry_views(out@) =~= before + head);
        if is_dir && expanded.contains(&p) && p.parts.len() <= limit {
            let next: usize = if depth < usize::MAX {
                depth + 1
            } else {
                depth
            };
            walk(listings, expanded, ignored_set, limit, &p, next, ign, out);
        }
        n = n + 1;
        assert(entry_views(out@) =~= before + walked(w, dir@, depth, ignored, n as nat));
    }
}

// ── the tree ────────────────────────────────────────────────────────────────

/// The project tree.
#[derive(Debug)]
pub struct FileTree {
    pub root: FilePath,
    pub expanded: PathSet,
    pub ignored: PathSet,
    pub entries: Vec<Entry>,
    pub selected: Option<FilePath>,
    pub multi: PathSet,
    pub clipboard: Option<FilePath>,
    pub confirm_delete: Option<FilePath>,
}

/// The state of the project tree.
pub ghost struct FileTreeView {
    pub root: PathView,
    pub expanded: Set<PathView>,
    pub ignored: Set<PathView>,
    pub entries: Seq<EntryView>,
    pub selected: Option<PathView>,
    pub multi: Set<PathView>,
    pub clipboard: Option<PathView>,
    pub confirm_delete: Option<PathView>,
}

impl View for FileTree {
    type V = FileTreeView;

    open spec fn view(&self) -> FileTreeView {
        FileTreeView {
            root: self.root@,
            expanded: self.expanded@,
            ignored: self.ignored@,
            entries: entry_views(self.entries@),
            selected: opt_path(self.selected),
            multi: self.multi@,
            clipboard: opt_path(self.clipboard),
            confirm_delete: opt_path(self.confirm_delete),
        }
    }
}

/// The name of the project: that of its root, or another where it has none.
pub open spec fn root_name(root: PathView, other: Seq<char>) -> Seq<char> {
    match name_of(root) {
        Some(n) => n,
        None => other,
    }
}

/// The row of the project itself.
pub open spec fn root_entry(root: PathView) -> EntryView {
    EntryView {
        name: root_name(root, "project"@),
        path: root,
        is_dir: true,
        depth: 0,
        ignored: false,
    }
}

/// The rows of the whole tree: the project, and what is in it where it is expanded.
pub open spec fn tree_entries(w: TreeWorld, root: PathView) -> Seq<EntryView> {
    if w.expanded.contains(root) {
        seq![root_entry(root)] + walked(w, root, 1, false, shown_children(w.listings, root).len())
    } else {
        seq![root_entry(root)]
    }
}

/// What is expanded once `p` is revealed: with every directory above it up to the root.
pub open spec fn revealed(expanded: Set<PathView>, root: PathView, p: PathView) -> Set<PathView>
    decreases p.parts.len(),
{
    match parent_of(p) {
        None => expanded,
        Some(d) => if d == root {
            expanded.insert(d)
        } else {
            revealed(expanded.insert(d), root, d)
        },
    }
}

/// Revealing collapses nothing.
pub proof fn revealing_collapses_nothing(expanded: Set<PathView>, root: PathView, p: PathView, x: PathView)
    requires
        expanded.contains(x),
    ensures
        revealed(expanded, root, p).contains(x),
    decreases p.parts.len(),
{
    if let Some(d) = parent_of(p) {
        if d != root {
            revealing_collapses_nothing(expanded.insert(d), root, d, x);
        }
    }
}

/// Once revealed, the directory that a path stands in is expanded.
pub proof fn revealing_expands_the_parent(expanded: Set<PathView>, root: PathView, p: PathView)
    requires
        p.parts.len() > 0,
    ensures
        revealed(expanded, root, p).contains(parent_of(p)->0),
{
    let d = parent_of(p)->0;
    if d != root {
        revealing_collapses_nothing(expanded.insert(d), root, d, d);
    }
}

/// Whether a row is drawn as selected.
pub open spec fn tree_selects(t: FileTreeView, p: PathView) -> bool {
    if t.multi == Set::<PathView>::empty() {
        t.selected == Some(p)
    } else {
        t.multi.contains(p)
    }
}

/// The first row with a path.
pub open spec fn entry_position(v: Seq<EntryView>, p: PathView) -> Option<int>
    decreases v.len(),
{
    if v.len() == 0 {
        None
    } else {
        match entry_position(v.drop_last(), p) {
            Some(i) => Some(i),
            None => if v.last().path == p {
                Some(v.len() - 1)
            } else {
                None
            },
        }
    }
}

/// The paths of the rows `a` to `b`.
pub open spec fn entry_range(v: Seq<EntryView>, a: int, b: int) -> Set<PathView> {
    Seq::new((b - a + 1) as nat, |i: int| v[a + i].path).to_set()
}

/// The tree after a click on row `ix`: alone it selects that row, with shift all rows from
/// the anchor to it, and with the command key it adds the row or takes it out.
pub open spec fn clicked(t: FileTreeView, ix: int, shift: bool, cmd: bool) -> FileTreeView {
    if ix >= t.entries.len() {
        t
    } else {
        let p = t.entries[ix].path;
        if shift {
            let from = match t.selected {
                Some(a) => match entry_position(t.entries, a) {
                    Some(i) => i,
                    None => ix,
                },
                None => ix,
            };
            FileTreeView {
                multi: entry_range(
                    t.entries,
                    least(from, ix),
                    if from > ix {
                        from
                    } else {
                        ix
                    },
                ),
                ..t
            }
        } else if cmd {
            let seeded = if t.multi == Set::<PathView>::empty() && t.selected is Some {
                t.multi.insert(t.selected->0)
            } else {
                t.multi
            };
            FileTreeView { multi: toggled(seeded, p), selected: Some(p), ..t }
        } else {
            FileTreeView { multi: Set::empty(), selected: Some(p), ..t }
        }
    }
}

/// What a double click on row `ix` does: a directory is expanded or collapsed, and a file is to be
/// opened.
pub open spec fn entered(t: FileTreeView, ix: int, after: FileTreeView, open: Option<PathView>) -> bool {
    if ix >= t.entries.len() {
        open is None && after == t
    } else {
        let e = t.entries[ix];
        &&& open == if e.is_dir {
            None
        } else {
            Some(e.path)
        }
        &&& after == (FileTreeView {
            selected: Some(e.path),
            expanded: if e.is_dir {
                toggled(t.expanded, e.path)
            } else {
                t.expanded
            },
            ..t
        })
    }
}

/// What a key does in the tree.
#[derive(Debug)]
pub enum TreeKey {
    Open(FilePath),
    CopyReference(FilePath),
    Copied,
    Paste,
    ConfirmDelete,
    Nothing,
}

/// The path that an action of the tree is about.
pub open spec fn tree_key_path(k: TreeKey) -> Option<PathView> {
    match k {
        TreeKey::Open(p) => Some(p@),
        TreeKey::CopyReference(p) => Some(p@),
        _ => None,
    }
}

/// The first row that is a file.
pub open spec fn first_file(v: Seq<EntryView>) -> Option<PathView>
    decreases v.len(),
{
    if v.len() == 0 {
        None
    } else if !v[0].is_dir {
        Some(v[0].path)
    } else {
        first_file(v.drop_first())
    }
}

/// What the delete dialog does on a key.
#[derive(Clone, Copy, Debug, PartialEq, Eq, Structural)]
pub enum ConfirmKey {
    Delete,
    Cancel,
    Nothing,
}

/// Enter or y deletes, escape or n cancels.
pub fn confirm_key(k: &Keystroke) -> (r: ConfirmKey)
    ensures
        r == if k@.key == "enter"@ || k@.key == "y"@ {
            ConfirmKey::Delete
        } else if k@.key == "escape"@ || k@.key == "n"@ {
            ConfirmKey::Cancel
        } else {
            ConfirmKey::Nothing
        },
{
    if k.is("enter") || k.is("y") {
        ConfirmKey::Delete
    } else if k.is("escape") || k.is("n") {
        ConfirmKey::Cancel
    } else {
        ConfirmKey::Nothing
    }
}

impl FileTree {
    /// The sets hold no path twice.
    pub open spec fn wf(&self) -> bool {
        self.expanded.wf() && self.ignored.wf() && self.multi.wf()
    }

    /// The world that the rows are made from, with these directories read.
    pub open spec fn world(&self, listings: Seq<ListingView>) -> TreeWorld {
        TreeWorld {
            listings,
            expanded: self.expanded@,
            ignored: self.ignored@,
            limit: longest_path(path_views(self.expanded.items@)),
        }
    }

    /// The tree of a project: its root is expanded, nothing is selected, and there are no
    /// rows yet.
    pub fn new(root: FilePath, ignored: PathSet) -> (r: FileTree)
        requires
            ignored.wf(),
        ensures
            r.wf(),
            r@ == (FileTreeView {
                root: root@,
                expanded: set![root@],
                ignored: ignored@,
                entries: Seq::empty(),
                selected: None,
                multi: Set::empty(),
                clipboard: None,
                confirm_delete: None,
            }),
    {
        let mut expanded = PathSet::new();
        let _ = expanded.insert(root.copy());
        assert(expanded@ =~= set![root@]);
        let r = FileTree {
            root,
            expanded,
            ignored,
            entries: Vec::new(),
            selected: None,
            multi: PathSet::new(),
            clipboard: None,
            confirm_delete: None,
        };
        assert(entry_views(r.entries@) =~= Seq::<EntryView>::empty());
        r
    }

    /// The name of the project.
    pub fn project_name(&self) -> (r: String)
        ensures
            r@ == root_name(self@.root, "tide"@),
    {
        match self.root.file_name() {
            Some(n) => n,
            None => "tide".to_owned(),
        }
    }

    /// Makes the rows anew from the directories that were read.
    pub fn rebuild(&mut self, listings: &Vec<Listing>)
        requires
            old(self).wf(),
        ensures
            final(self).wf(),
            final(self)@ == (FileTreeView {
                entries: tree_entries(old(self).world(listing_views(listings@)), old(self)@.root),
                ..old(self)@
            }),
    {
        let name = match self.root.file_name() {
            Some(n) => n,
            None => "project".to_owned(),
        };
        let mut out: Vec<Entry> = Vec::new();
        let e = Entry { name, path: self.root.copy(), is_dir: true, depth: 0, ignored: false };
        out.push(e);
        assert(entry_views(out@) =~= seq![root_entry(self@.root)]);
        if self.expanded.contains(&self.root) {
            let limit = longest_of(&self.expanded);
            proof {
                let v = path_views(self.expanded.items@);
                let i = choose|i: int| 0 <= i < v.len() && v[i] == self.root@;
                lemma_longest_path(v, i);
            }
            walk(listings, &self.expanded, &self.ignored, limit, &self.root, 1, false, &mut out);
        }
        self.entries = out;
    }

    /// Whether a row is drawn as selected.
    pub fn is_tree_selected(&self, p: &FilePath) -> (r: bool)
        ensures
            r == tree_selects(self@, p@),
    {
        if self.multi.is_empty() {
            match &self.selected {
                Some(s) => s.same(p),
                None => false,
            }
        } else {
            self.multi.contains(p)
        }
    }

    fn position(&self, p: &FilePath) -> (r: Option<usize>)
        ensures
            match r {
                Some(i) => entry_position(self@.entries, p@) == Some(i as int) && i < self.entries.len(),
                None => entry_position(self@.entries, p@) is None,
            },
    {
        let ghost v = self@.entries;
        let mut i: usize = 0;
        assert(v.take(0) =~= Seq::<EntryView>::empty());
        while i < self.entries.len()
            invariant
                i <= self.entries.len(),
                v == self@.entries,
                entry_position(v.take(i as int), p@) is None,
            decreases self.entries.len() - i,
        {
            proof {
                assert(v.take(i + 1).drop_last() =~= v.take(i as int));
                assert(v.take(i + 1).last() == v[i as int]);
            }
            if self.entries[i].path.same(p) {
                proof {
                    lemma_position_stays(v, p@, i + 1);
                }
                return Some(i);
            }
            i = i + 1;
        }
        assert(v.take(v.len() as int) =~= v);
        None
    }

    /// A click on row `ix`.
    pub fn select_entry(&mut self, ix: usize, shift: bool, cmd: bool)
        requires
            old(self).wf(),
        ensures
            final(self).wf(),
            final(self)@ == clicked(old(self)@, ix as int, shift, cmd),
    {
        if ix >= self.entries.len() {
            return;
        }
        let p = self.entries[ix].path.copy();
        if shift {
            let from: usize = match &self.selected {
                Some(a) => match self.position(a) {
                    Some(i) => i,
                    None => ix,
                },
                None => ix,
            };
            let lo: usize = lesser(from, ix);
            let hi: usize = if from > ix {
                from
            } else {
                ix
            };
            let mut v: Vec<FilePath> = Vec::new();
            let ghost ev = self@.entries;
            let ghost want = Seq::new((hi - lo + 1) as nat, |i: int| ev[lo + i].path);
            let mut k: usize = lo;
            assert(path_views(v@) =~= want.take(0));
            while k <= hi
                invariant
                    lo <= k <= hi + 1,
                    hi < self.entries.len(),
                    *self == *old(self),
                    ev == self@.entries,
                    want == Seq::new((hi - lo + 1) as nat, |i: int| ev[lo + i].path),
                    path_views(v@) == want.take(k - lo),
                decreases hi + 1 - k,
            {
                let x = self.entries[k].path.copy();
                proof {
                    lemma_path_views_push(v@, x);
                    assert(want[k - lo] == x@);
                    assert(want.take(k + 1 - lo) =~= want.take(k - lo).push(x@));
                }
                v.push(x);
                k = k + 1;
            }
            assert(want.take(want.len() as int) =~= want);
            self.multi = path_set(v);
        } else if cmd {
            if self.multi.is_empty() {
                if let Some(a) = &self.selected {
                    let _ = self.multi.insert(a.copy());
                }
            }
            self.multi.toggle(&p);
            self.selected = Some(p);
        } else {
            self.multi = PathSet::new();
            self.selected = Some(p);
        }
    }

    /// A click on row `ix`: a double one expands, collapses or opens, a single one selects. Gives
    /// the file to open.
    pub fn click(&mut self, ix: usize, clicks: usize, shift: bool, cmd: bool) -> (r: Option<FilePath>)
        requires
            old(self).wf(),
        ensures
            final(self).wf(),
            if clicks < 2 {
                r is None && final(self)@ == clicked(old(self)@, ix as int, shift, cmd)
            } else {
                entered(old(self)@, ix as int, final(self)@, opt_path(r))
            },
    {
        if clicks < 2 {
            self.select_entry(ix, shift, cmd);
            None
        } else {
            self.on_entry(ix)
        }
    }

    /// A double click on row `ix`: a directory is expanded or collapsed; for a file, its path
    /// is given back so that it can be opened.
    pub fn on_entry(&mut self, ix: usize) -> (r: Option<FilePath>)
        requires
            old(self).wf(),
        ensures
            final(self).wf(),
            entered(old(self)@, ix as int, final(self)@, opt_path(r)),
    {
        if ix >= self.entries.len() {
            return None;
        }
        let p = self.entries[ix].path.copy();
        let is_dir = self.entries[ix].is_dir;
        self.selected = Some(p.copy());
        if is_dir {
            self.expanded.toggle(&p);
            None
        } else {
            Some(p)
        }
    }

    /// Expands every directory above a path, up to the root.
    pub fn reveal_in_tree(&mut self, p: &FilePath)
        requires
            old(self).wf(),
        ensures
            final(self).wf(),
            final(self)@ == (FileTreeView {
                expanded: revealed(old(self)@.expanded, old(self)@.root, p@),
                ..old(self)@
            }),
    {
        let mut dir = p.parent();
        let mut more = true;
        let mut at = p.copy();
        while more
            invariant
                self.wf(),
                more ==> opt_path(dir) == parent_of(at@),
                self@ == (FileTreeView { expanded: self@.expanded, ..old(self)@ }),
                more ==> revealed(self@.expanded, self@.root, at@) == revealed(
                    old(self)@.expanded,
                    old(self)@.root,
                    p@,
                ),
                !more ==> self@.expanded == revealed(old(self)@.expanded, old(self)@.root, p@),
            decreases at@.parts.len(), if more { 1int } else { 0int },
        {
            match dir {
                Some(d) => {
                    let next = d.parent();
                    let _ = self.expanded.insert(d.copy());
                    if d.same(&self.root) {
                        more = false;
                    }
                    at = d;
                    dir = next;
                },
                None => {
                    more = false;
                    dir = None;
                },
            }
        }
    }

    /// Selects a path and expands all above it, as when a file is opened.
    pub fn show(&mut self, p: &FilePath)
        requires
            old(self).wf(),
        ensures
            final(self).wf(),
            final(self)@ == (FileTreeView {
                selected: Some(p@),
                expanded: revealed(old(self)@.expanded, old(self)@.root, p@),
                ..old(self)@
            }),
    {
        self.selected = Some(p.copy());
        self.reveal_in_tree(p);
    }

    /// A key in the tree. `is_file` says whether the selected path is a file on disk.
    pub fn tree_key(&mut self, k: &Keystroke, is_file: bool) -> (r: TreeKey)
        requires
            old(self).wf(),
        ensures
            final(self).wf(),
            ({
                let k = k@;
                let t = old(self)@;
                let s = t.selected;
                if k.key == "f4"@ && !k.platform {
                    &&& final(self)@ == t
                    &&& if s is Some && is_file {
                        r is Open && tree_key_path(r) == s
                    } else {
                        r is Nothing
                    }
                } else if k.platform && k.shift && k.key == "c"@ {
                    &&& final(self)@ == t
                    &&& if s is Some {
                        r is CopyReference && tree_key_path(r) == s
                    } else {
                        r is Nothing
                    }
                } else if k.platform && k.key == "c"@ {
                    &&& final(self)@ == (FileTreeView {
                        clipboard: if s is Some {
                            s
                        } else {
                            t.clipboard
                        },
                        ..t
                    })
                    &&& if s is Some {
                        r is Copied
                    } else {
                        r is Nothing
                    }
                } else if k.platform {
                    &&& final(self)@ == t
                    &&& if k.key == "v"@ {
                        r is Paste
                    } else {
                        r is Nothing
                    }
                } else if k.key == "enter"@ {
                    let target = if s is Some && is_file {
                        s
                    } else {
                        first_file(t.entries)
                    };
                    if target is Some {
                        &&& final(self)@ == (FileTreeView { selected: target, ..t })
                        &&& r is Open
                        &&& tree_key_path(r) == target
                    } else {
                        final(self)@ == t && r is Nothing
                    }
                } else if k.key == "backspace"@ && s is Some {
                    &&& final(self)@ == (FileTreeView { confirm_delete: s, ..t })
                    &&& r is ConfirmDelete
                } else {
                    final(self)@ == t && r is Nothing
                }
            }),
    {
        if k.is("f4") && !k.platform {
            return match &self.selected {
                Some(p) => if is_file {
                    TreeKey::Open(p.copy())
                } else {
                    TreeKey::Nothing
                },
                None => TreeKey::Nothing,
            };
        }
        if k.platform {
            if k.shift && k.is("c") {
                return match &self.selected {
                    Some(p) => TreeKey::CopyReference(p.copy()),
                    None => TreeKey::Nothing,
                };
            }
            if k.is("c") {
                return match &self.selected {
                    Some(p) => {
                        self.clipboard = Some(p.copy());
                        TreeKey::Copied
                    },
                    None => TreeKey::Nothing,
                };
            }
            if k.is("v") {
                return TreeKey::Paste;
            }
            return TreeKey::Nothing;
        }
        if k.is("enter") {
            let target = match &self.selected {
                Some(p) => if is_file {
                    Some(p.copy())
                } else {
                    first_file_of(&self.entries)
                },
                None => first_file_of(&self.entries),
            };
            return match target {
                Some(p) => {
                    self.selected = Some(p.copy());
                    TreeKey::Open(p)
                },
                None => TreeKey::Nothing,
            };
        }
        if k.is("backspace") {
            return match &self.selected {
                Some(p) => {
                    self.confirm_delete = Some(p.copy());
                    TreeKey::ConfirmDelete
                },
                None => TreeKey::Nothing,
            };
        }
        TreeKey::Nothing
    }

    /// The directory that a paste goes into: the selected one, or the one that the selected
    /// file stands in, or the root.
    pub fn paste_target(&self, selected_is_dir: bool) -> (r: FilePath)
        ensures
            r@ == match self@.selected {
                Some(p) => if selected_is_dir {
                    p
                } else {
                    match parent_of(p) {
                        Some(d) => d,
                        None => self@.root,
                    }
                },
                None => self@.root,
            },
    {
        match &self.selected {
            Some(p) => if selected_is_dir {
                p.copy()
            } else {
                match p.parent() {
                    Some(d) => d,
                    None => self.root.copy(),
                }
            },
            None => self.root.copy(),
        }
    }

    /// Notes that something was pasted at `dest` into the directory `dir`.
    pub fn pasted(&mut self, dir: &FilePath, dest: &FilePath)
        requires
            old(self).wf(),
        ensures
            final(self).wf(),
            final(self)@ == (FileTreeView {
                selected: Some(dest@),
                expanded: revealed(old(self)@.expanded.insert(dir@), old(self)@.root, dest@),
                ..old(self)@
            }),
    {
        let _ = self.expanded.insert(dir.copy());
        self.show(dest);
    }

    /// Closes the delete dialog; gives the path back that it was about.
    pub fn take_confirmed(&mut self) -> (r: Option<FilePath>)
        ensures
            opt_path(r) == old(self)@.confirm_delete,
            final(self)@ == (FileTreeView { confirm_delete: None, ..old(self)@ }),
            old(self).wf() ==> final(self).wf(),
    {
        let r = copy_opt_path(&self.confirm_delete);
        self.confirm_delete = None;
        r
    }

    /// Forgets a path that was deleted.
    pub fn deleted(&mut self, p: &FilePath)
        requires
            old(self).wf(),
        ensures
            final(self).wf(),
            final(self)@ == (FileTreeView {
                expanded: old(self)@.expanded.remove(p@),
                selected: if old(self)@.selected == Some(p@) {
                    None
                } else {
                    old(self)@.selected
                },
                clipboard: if old(self)@.clipboard == Some(p@) {
                    None
                } else {
                    old(self)@.clipboard
                },
                ..old(self)@
            }),
    {
        let _ = self.expanded.remove(p);
        let gone = match &self.selected {
            Some(s) => s.same(p),
            None => false,
        };
        if gone {
            self.selected = None;
        }
        let cut = match &self.clipboard {
            Some(s) => s.same(p),
            None => false,
        };
        if cut {
            self.clipboard = None;
        }
    }
}

proof fn lemma_position_stays(v: Seq<EntryView>, p: PathView, k: int)
    requires
        0 <= k <= v.len(),
        entry_position(v.take(k), p) is Some,
    ensures
        entry_position(v, p) == entry_position(v.take(k), p),
    decreases v.len() - k,
{
    if k == v.len() {
        assert(v.take(k) =~= v);
    } else {
        assert(v.take(k + 1).drop_last() =~= v.take(k));
        lemma_position_stays(v, p, k + 1);
    }
}

fn first_file_of(v: &Vec<Entry>) -> (r: Option<FilePath>)
    ensures
        opt_path(r) == first_file(entry_views(v@)),
{
    let ghost ev = entry_views(v@);
    let mut i: usize = 0;
    assert(ev.skip(0) =~= ev);
    while i < v.len()
        invariant
            i <= v.len(),
            ev == entry_views(v@),
            first_file(ev) == first_file(ev.skip(i as int)),
        decreases v.len() - i,
    {
        proof {
            assert(ev.skip(i as int)[0] == ev[i as int]);
            assert(ev.skip(i as int).drop_first() =~= ev.skip(i + 1));
        }
        if !v[i].is_dir {
            return Some(v[i].path.copy());
        }
        i = i + 1;
    }
    None
}

// ── names for copies ────────────────────────────────────────────────────────

/// The file name without its extension.
pub open spec fn stem_of(p: PathView) -> Seq<char> {
    match name_of(p) {
        Some(n) => if last_char(n, '.') > 0 {
            n.take(last_char(n, '.'))
        } else {
            n
        },
        None => Seq::empty(),
    }
}

/// What is put behind the name of copy number `n`.
pub open spec fn copy_suffix(n: nat) -> Seq<char> {
    if n <= 1 {
        " copy"@
    } else {
        " copy "@ + dec(n)
    }
}

/// The name of copy number `n` of a file.
pub open spec fn copy_name(p: PathView, n: nat) -> Seq<char> {
    match extension_of(p) {
        Some(e) => stem_of(p) + copy_suffix(n) + ("."@ + e),
        None => stem_of(p) + copy_suffix(n),
    }
}

/// The directory of a path, or the empty path.
pub open spec fn dir_or_empty(p: PathView) -> PathView {
    match parent_of(p) {
        Some(d) => d,
        None => PathView { abs: false, parts: Seq::empty() },
    }
}

/// The path that is tried in round `n`: the path itself, then its copies.
pub open spec fn copy_path(p: PathView, n: nat) -> PathView {
    if n == 0 {
        p
    } else {
        joined_path(dir_or_empty(p), path_of(copy_name(p, n)))
    }
}

/// The first round whose path is free.
pub open spec fn first_free(p: PathView, taken: Set<PathView>, n: nat) -> bool {
    &&& !taken.contains(copy_path(p, n))
    &&& forall|m: nat| m < n ==> taken.contains(#[trigger] copy_path(p, m))
}

proof fn lemma_dec_injective(a: nat, b: nat)
    ensures
        dec(a) == dec(b) ==> a == b,
{
    reading_undoes_writing(a);
    reading_undoes_writing(b);
}

proof fn lemma_suffix_injective(a: nat, b: nat)
    requires
        1 <= a,
        1 <= b,
        copy_suffix(a) == copy_suffix(b),
    ensures
        a == b,
{
    reveal_strlit(" copy");
    reveal_strlit(" copy ");
    lemma_dec_injective(a, b);
    if a >= 2 {
        assert((" copy "@ + dec(a)).skip(6) =~= dec(a));
    }
    if b >= 2 {
        assert((" copy "@ + dec(b)).skip(6) =~= dec(b));
    }
}

proof fn lemma_plain_name(s: Seq<char>)
    requires
        good_part(s),
        s != seq!['.'],
    ensures
        path_of(s) == (PathView { abs: false, parts: seq![s] }),
{
    let p = PathView { abs: false, parts: seq![s] };
    assert(path_ok(p));
    reading_a_path_undoes_writing(p);
    assert(joined(p.parts, seq!['/']) == s);
}

proof fn lemma_dec_plain(n: nat)
    ensures
        !dec(n).contains('/'),
        dec(n).len() > 0,
    decreases n,
{
    let d = n % 10;
    let c = digit_char(d);
    assert(c as u32 == 48 + d);
    if n >= 10 {
        lemma_dec_plain(n / 10);
        assert forall|i: int| 0 <= i < dec(n).len() implies dec(n)[i] != '/' by {
            if i < dec(n / 10).len() {
                assert(dec(n)[i] == dec(n / 10)[i]);
                assert(dec(n / 10).contains(dec(n / 10)[i]));
            }
        }
    } else {
        assert(dec(n) == seq![digit_char(n)]);
    }
}

proof fn lemma_contains_concat(a: Seq<char>, b: Seq<char>, c: char)
    requires
        !a.contains(c),
        !b.contains(c),
    ensures
        !(a + b).contains(c),
{
    let s = a + b;
    assert forall|i: int| 0 <= i < s.len() implies s[i] != c by {
        if i < a.len() {
            assert(a.contains(a[i]));
        } else {
            assert(s[i] == b[i - a.len()]);
            assert(b.contains(b[i - a.len()]));
        }
    }
}

proof fn lemma_copy_name(p: PathView, n: nat)
    requires
        path_ok(p),
        n >= 1,
    ensures
        good_part(copy_name(p, n)),
        copy_name(p, n).len() >= 5,
        copy_path(p, n) == (PathView {
            abs: dir_or_empty(p).abs,
            parts: dir_or_empty(p).parts.push(copy_name(p, n)),
        }),
{
    reveal_strlit(" copy");
    reveal_strlit(" copy ");
    reveal_strlit(".");
    lemma_dec_plain(n);
    let suf = copy_suffix(n);
    assert(!suf.contains('/')) by {
        if n >= 2 {
            lemma_contains_concat(" copy "@, dec(n), '/');
        }
    }
    let stem = stem_of(p);
    assert(!stem.contains('/')) by {
        if let Some(nm) = name_of(p) {
            assert(good_part(p.parts[p.parts.len() - 1]));
            lemma_last_char(nm, '.');
            assert forall|i: int| 0 <= i < stem.len() implies stem[i] != '/' by {
                assert(stem[i] == nm[i]);
                assert(nm.contains(nm[i]));
            }
        }
    }
    lemma_contains_concat(stem, suf, '/');
    if let Some(e) = extension_of(p) {
        let nm = name_of(p)->0;
        assert(good_part(p.parts[p.parts.len() - 1]));
        lemma_last_char(nm, '.');
        assert(!e.contains('/')) by {
            assert forall|i: int| 0 <= i < e.len() implies e[i] != '/' by {
                assert(e[i] == nm[i + last_char(nm, '.') + 1]);
                assert(nm.contains(nm[i + last_char(nm, '.') + 1]));
            }
        }
        lemma_contains_concat("."@, e, '/');
        lemma_contains_concat(stem + suf, "."@ + e, '/');
    }
    let c = copy_name(p, n);
    assert(c.len() >= 5);
    lemma_plain_name(c);
    let d = dir_or_empty(p);
    assert(seq![c][0] == c);
    assert(d.parts + seq![c] =~= d.parts.push(c));
}

proof fn lemma_copies_differ(p: PathView, a: nat, b: nat)
    requires
        path_ok(p),
        1 <= a,
        1 <= b,
        copy_path(p, a) == copy_path(p, b),
    ensures
        a == b,
{
    lemma_copy_name(p, a);
    lemma_copy_name(p, b);
    let d = dir_or_empty(p);
    let x = copy_name(p, a);
    let y = copy_name(p, b);
    assert(d.parts.push(x).last() == x);
    assert(d.parts.push(y).last() == y);
    assert(x == y);
    let stem = stem_of(p);
    match extension_of(p) {
        Some(e) => {
            let t = "."@ + e;
            assert(x.len() == stem.len() + copy_suffix(a).len() + t.len());
            assert(y.len() == stem.len() + copy_suffix(b).len() + t.len());
            assert(x.subrange(stem.len() as int, x.len() - t.len()) =~= copy_suffix(a));
            assert(y.subrange(stem.len() as int, y.len() - t.len()) =~= copy_suffix(b));
        },
        None => {
            assert(x.skip(stem.len() as int) =~= copy_suffix(a));
            assert(y.skip(stem.len() as int) =~= copy_suffix(b));
        },
    }
    lemma_suffix_injective(a, b);
}

/// Whether `x` is the path of round `n` or of a later one.
spec fn tried_from(p: PathView, n: nat, x: PathView) -> bool {
    exists|m: nat| m >= n && #[trigger] copy_path(p, m) == x
}

/// How many of the first `k` paths are those of round `n` or of a later one.
spec fn later_taken(p: PathView, v: Seq<PathView>, n: nat, k: int) -> nat
    decreases k,
{
    if k <= 0 {
        0
    } else {
        later_taken(p, v, n, k - 1) + if tried_from(p, n, v[k - 1]) {
            1nat
        } else {
            0
        }
    }
}

proof fn lemma_later_taken(p: PathView, v: Seq<PathView>, n: nat, k: int)
    requires
        path_ok(p),
        n >= 1,
        0 <= k <= v.len(),
    ensures
        later_taken(p, v, n + 1, k) <= later_taken(p, v, n, k) <= k,
        (exists|i: int| 0 <= i < k && #[trigger] v[i] == copy_path(p, n)) ==> later_taken(
            p,
            v,
            n + 1,
            k,
        ) < later_taken(p, v, n, k),
    decreases k,
{
    if k > 0 {
        lemma_later_taken(p, v, n, k - 1);
        let x = v[k - 1];
        if tried_from(p, n + 1, x) {
            let m = choose|m: nat| m >= n + 1 && #[trigger] copy_path(p, m) == x;
            assert(m >= n && copy_path(p, m) == x);
            if x == copy_path(p, n) {
                lemma_copies_differ(p, m, n);
            }
        }
        if x == copy_path(p, n) {
            assert(n >= n && copy_path(p, n) == x);
        }
        if exists|i: int| 0 <= i < k && #[trigger] v[i] == copy_path(p, n) {
            let i = choose|i: int| 0 <= i < k && #[trigger] v[i] == copy_path(p, n);
            if i < k - 1 {
                assert(0 <= i < k - 1 && v[i] == copy_path(p, n));
            }
        }
    }
}

fn stem_text(p: &FilePath) -> (r: String)
    ensures
        r@ == stem_of(p@),
{
    match p.file_name() {
        None => String::new(),
        Some(n) => {
            let v = chars_of(n.as_str());
            proof {
                lemma_last_char(n@, '.');
            }
            let mut i: usize = v.len();
            while i > 0 && v[i - 1] != '.'
                invariant
                    i <= v.len(),
                    v@ == n@,
                    -1 <= last_char(n@, '.') < i,
                    last_char(n@, '.') >= 0 ==> n@[last_char(n@, '.')] == '.',
                    forall|j: int| last_char(n@, '.') < j < n@.len() ==> n@[j] != '.',
                decreases i,
            {
                i = i - 1;
            }
            assert(i == last_char(n@, '.') + 1);
            if i > 1 {
                let s = string_of(&v, 0, i - 1);
                assert(s@ =~= n@.take(last_char(n@, '.')));
                s
            } else {
                n
            }
        },
    }
}

fn nth_copy(p: &FilePath, n: u64) -> (r: FilePath)
    requires
        n >= 1,
    ensures
        r@ == copy_path(p@, n as nat),
{
    let stem = stem_text(p);
    let suffix = if n <= 1 {
        " copy".to_owned()
    } else {
        let d = decimal(n);
        cat(" copy ", d.as_str())
    };
    let name = match p.extension() {
        Some(e) => {
            let t = cat(".", e.as_str());
            cat3(stem.as_str(), suffix.as_str(), t.as_str())
        },
        None => cat(stem.as_str(), suffix.as_str()),
    };
    let dir = match p.parent() {
        Some(d) => d,
        None => {
            let parts: Vec<String> = Vec::new();
            assert(texts(parts@) =~= Seq::<Seq<char>>::empty());
            FilePath { abs: false, parts }
        },
    };
    dir.join_text(name.as_str())
}

/// A path that is not taken: the path itself, or its first free copy.
pub fn unique_dest(dest: &FilePath, taken: &PathSet) -> (r: FilePath)
    requires
        path_ok(dest@),
        taken.items.len() < usize::MAX - 2,
    ensures
        !taken@.contains(r@),
        exists|n: nat| first_free(dest@, taken@, n) && r@ == #[trigger] copy_path(dest@, n),
{
    if !taken.contains(dest) {
        assert(first_free(dest@, taken@, 0));
        return dest.copy();
    }
    let ghost v = path_views(taken.items@);
    let mut n: u64 = 1;
    proof {
        lemma_later_taken(dest@, v, 1, v.len() as int);
        assert(copy_path(dest@, 0) == dest@);
    }
    loop
        invariant
            1 <= n,
            path_ok(dest@),
            v == path_views(taken.items@),
            v.len() < usize::MAX - 2,
            n - 1 + later_taken(dest@, v, n as nat, v.len() as int) <= v.len(),
            forall|m: nat| m < n ==> taken@.contains(#[trigger] copy_path(dest@, m)),
        decreases later_taken(dest@, v, n as nat, v.len() as int),
    {
        let c = nth_copy(dest, n);
        if !taken.contains(&c) {
            assert(first_free(dest@, taken@, n as nat));
            return c;
        }
        proof {
            assert(v.contains(c@));
            let i = choose|i: int| 0 <= i < v.len() && v[i] == c@;
            assert(v[i] == copy_path(dest@, n as nat));
            lemma_later_taken(dest@, v, n as nat, v.len() as int);
        }
        n = n + 1;
    }
}

proof fn lemma_walked_below(w: TreeWorld, dir: PathView, depth: usize, ignored: bool, n: nat, i: int)
    requires
        0 <= i < walked(w, dir, depth, ignored, n).len(),
    ensures
        ({
            let e = walked(w, dir, depth, ignored, n)[i];
            &&& under(e.path, dir)
            &&& e.path != dir
            &&& ignored ==> e.ignored
            &&& parent_of(e.path) is Some
            &&& parent_of(e.path) == Some(dir) || w.expanded.contains(parent_of(e.path)->0)
        }),
    decreases w.limit + 1 - dir.parts.len(), n,
{
    let c = shown_children(w.listings, dir);
    let x = c[n - 1];
    let p = child_path(dir, x.name);
    let ign = ignored || w.ignored.contains(p);
    let before = walked(w, dir, depth, ignored, (n - 1) as nat);
    if i < before.len() {
        lemma_walked_below(w, dir, depth, ignored, (n - 1) as nat, i);
    } else if i == before.len() {
        assert(p.parts.take(dir.parts.len() as int) =~= dir.parts);
        assert(p.parts.drop_last() =~= dir.parts);
    } else {
        let inner = walked(w, p, deeper(depth), ign, shown_children(w.listings, p).len());
        let k = i - before.len() - 1;
        assert(walked(w, dir, depth, ignored, n)[i] == inner[k]);
        lemma_walked_below(w, p, deeper(depth), ign, shown_children(w.listings, p).len(), k);
        let e = inner[k];
        assert(p.parts.take(dir.parts.len() as int) =~= dir.parts);
        assert(e.path.parts.take(dir.parts.len() as int) =~= e.path.parts.take(
            p.parts.len() as int,
        ).take(dir.parts.len() as int));
    }
}

/// Every row of the tree is the root or lies below it, in an expanded directory.
pub proof fn rows_lie_in_expanded_directories(w: TreeWorld, root: PathView, i: int)
    requires
        0 <= i < tree_entries(w, root).len(),
    ensures
        ({
            let p = tree_entries(w, root)[i].path;
            &&& under(p, root)
            &&& p == root || (parent_of(p) is Some && w.expanded.contains(parent_of(p)->0))
        }),
{
    if i == 0 {
        assert(root.parts.take(root.parts.len() as int) =~= root.parts);
    } else {
        lemma_walked_below(w, root, 1, false, shown_children(w.listings, root).len(), i - 1);
    }
}

// ── what the tree lists ─────────────────────────────────────────────────────

/// The tree lists everything in a directory but git's own folder and the finder's file, directories
/// before files, each by its name in lower case.
pub proof fn a_directory_lists_its_entries(v: Seq<ListingView>, dir: PathView, c: ChildView)
    ensures
        shown_children(v, dir).contains(c) <==> listed(v, dir).contains(c) && c.name != ".git"@ && c.name != ".DS_Store"@,
        forall|i: int, j: int|
            #![trigger shown_children(v, dir)[i], shown_children(v, dir)[j]]
            0 <= i < j < shown_children(v, dir).len() ==> {
                let a = shown_children(v, dir)[i];
                let b = shown_children(v, dir)[j];
                &&& b.is_dir ==> a.is_dir
                &&& a.is_dir == b.is_dir ==> !text_less(lower(b.name), lower(a.name))
            },
{
    let f = |c: ChildView|
        if tree_hides(c.name) {
            None
        } else {
            Some(c)
        };
    let less = |a: ChildView, b: ChildView| child_less(a, b);
    let w = filter_map(listed(v, dir), f);
    lemma_kept_children(listed(v, dir), c);
    assert(can_sort(less)) by {
        assert forall|a: ChildView, b: ChildView| #[trigger] less(a, b) implies !less(b, a) by {
            text_less_strict(lower(a.name), lower(b.name));
        }
        assert forall|a: ChildView, b: ChildView, c: ChildView| #![trigger less(a, b), less(b, c)] !less(a, b) && !less(b, c) implies !less(a, c) by {
            text_less_total(lower(a.name), lower(b.name));
            text_less_total(lower(b.name), lower(c.name));
            if less(a, c) && a.is_dir == c.is_dir && a.is_dir == b.is_dir {
                if lower(a.name) != lower(b.name) && lower(b.name) != lower(c.name) {
                    text_less_transitive(lower(c.name), lower(b.name), lower(a.name));
                    text_less_strict(lower(a.name), lower(c.name));
                }
            }
        }
    }
    sorting_by_orders(w, less);
    sorting_by_keeps_members(w, less, c);
    let r = shown_children(v, dir);
    assert(r == sorted_by(w, less));
    assert forall|i: int, j: int| #![trigger r[i], r[j]] 0 <= i < j < r.len() implies {
        &&& r[j].is_dir ==> r[i].is_dir
        &&& r[i].is_dir == r[j].is_dir ==> !text_less(lower(r[j].name), lower(r[i].name))
    } by {
        assert(!less(r[j], r[i]));
    }
}

proof fn lemma_kept_children(v: Seq<ChildView>, c: ChildView)
    ensures
        filter_map(
            v,
            |c: ChildView|
                if tree_hides(c.name) {
                    None
                } else {
                    Some(c)
                },
        ).contains(c) <==> v.contains(c) && !tree_hides(c.name),
    decreases v.len(),
{
    let f = |c: ChildView|
        if tree_hides(c.name) {
            None
        } else {
            Some(c)
        };
    let r = filter_map(v, f);
    if v.len() > 0 {
        let t = v.drop_last();
        let w = filter_map(t, f);
        let x = v.last();
        lemma_kept_children(t, c);
        assert(v.contains(c) <==> t.contains(c) || c == x) by {
            if t.contains(c) {
                let k = choose|k: int| 0 <= k < t.len() && t[k] == c;
                assert(v[k] == c);
            }
            assert(v[v.len() - 1] == x);
            if v.contains(c) && c != x {
                let k = choose|k: int| 0 <= k < v.len() && v[k] == c;
                assert(t[k] == c);
            }
        }
        if !tree_hides(x.name) {
            assert(r == w.push(x));
            assert(r.contains(c) <==> w.contains(c) || c == x) by {
                if w.contains(c) {
                    let k = choose|k: int| 0 <= k < w.len() && w[k] == c;
                    assert(r[k] == c);
                }
                assert(r[r.len() - 1] == x);
                if r.contains(c) && c != x {
                    let k = choose|k: int| 0 <= k < r.len() && r[k] == c;
                    assert(w[k] == c);
                }
            }
        } else {
            assert(r == w);
        }
    }
}

/// Every entry of an expanded directory has a row, one level deeper, with its name and its path;
/// it is dimmed where git ignores it or something above it.
pub proof fn entries_of_a_directory_have_rows(w: TreeWorld, dir: PathView, depth: usize, ignored: bool, n: nat, k: int)
    requires
        0 <= k < n <= shown_children(w.listings, dir).len(),
    ensures
        ({
            let c = shown_children(w.listings, dir)[k];
            let p = PathView { abs: dir.abs, parts: dir.parts.push(c.name) };
            walked(w, dir, depth, ignored, n).contains(
                EntryView { name: c.name, path: p, is_dir: c.is_dir, depth, ignored: ignored || w.ignored.contains(p) },
            )
        }),
    decreases n,
{
    let c = shown_children(w.listings, dir)[k];
    let p = PathView { abs: dir.abs, parts: dir.parts.push(c.name) };
    let e = EntryView { name: c.name, path: p, is_dir: c.is_dir, depth, ignored: ignored || w.ignored.contains(p) };
    let r = walked(w, dir, depth, ignored, n);
    let a = walked(w, dir, depth, ignored, (n - 1) as nat);
    if k < n - 1 {
        entries_of_a_directory_have_rows(w, dir, depth, ignored, (n - 1) as nat, k);
        let i = choose|i: int| 0 <= i < a.len() && a[i] == e;
        assert(r[i] == e);
    } else {
        assert(r[a.len() as int] == e);
    }
}

/// The tree begins with the project; where it is expanded the entries of its root follow, and else
/// nothing does.
pub proof fn the_tree_begins_with_the_project(w: TreeWorld, root: PathView)
    ensures
        tree_entries(w, root)[0].path == root && tree_entries(w, root)[0].depth == 0 && tree_entries(w, root)[0].is_dir,
        !w.expanded.contains(root) ==> tree_entries(w, root).len() == 1,
        w.expanded.contains(root) ==> tree_entries(w, root).skip(1) == walked(w, root, 1, false, shown_children(w.listings, root).len()),
        name_of(root) is Some ==> tree_entries(w, root)[0].name == name_of(root)->0,
{
    let r = walked(w, root, 1, false, shown_children(w.listings, root).len());
    assert((seq![root_entry(root)] + r).skip(1) =~= r);
}

/// The finder takes files and enters directories, but not build output, git's folder or hidden
/// directories, and it ends at fifty thousand files.
pub proof fn the_finder_passes_over_noise(name: Seq<char>, files: int)
    requires
        0 <= files < 50_000,
    ensures
        name == "node_modules"@ || name == ".git"@ || name == "target"@ || name == "dist"@ || name == "build"@ || name == ".DS_Store"@ ==> visit_of(name, true, files)
            == Visit::Skip && visit_of(name, false, files) == Visit::Skip,
        name.len() > 0 && name[0] == '.' ==> visit_of(name, true, files) == Visit::Skip,
        !(name == "node_modules"@ || name == ".git"@ || name == "target"@ || name == "dist"@ || name == "build"@ || name == ".DS_Store"@) ==> visit_of(name, false, files)
            == Visit::Take && (name.len() > 0 && name[0] != '.' ==> visit_of(name, true, files) == Visit::Enter),
        visit_of(name, true, 50_000) == Visit::Stop && visit_of(name, false, 50_000) == Visit::Stop,
{
}

/// After a plain click one row is selected; after a click with shift all rows from the anchor to the
/// clicked one are, both of them too; with the command key the clicked row is turned round and
/// the others stay.
pub proof fn clicks_select_rows(t: FileTreeView, ix: int, a: int, k: int, p: PathView)
    requires
        0 <= ix < t.entries.len(),
        0 <= a < t.entries.len(),
        0 <= k < t.entries.len(),
    ensures
        tree_selects(clicked(t, ix, false, false), p) <==> p == t.entries[ix].path,
        t.selected == Some(t.entries[a].path) && entry_position(t.entries, t.entries[a].path) == Some(a) && (a <= k <= ix || ix <= k <= a) ==> tree_selects(
            clicked(t, ix, true, false),
            t.entries[k].path,
        ),
        t.selected == Some(t.entries[a].path) && entry_position(t.entries, t.entries[a].path) == Some(a) && tree_selects(clicked(t, ix, true, false), p)
            ==> exists|m: int| (a <= m <= ix || ix <= m <= a) && 0 <= m < t.entries.len() && (#[trigger] t.entries[m]).path == p,
        t.multi.contains(p) && p != t.entries[ix].path ==> tree_selects(clicked(t, ix, false, true), p),
        t.multi != Set::<PathView>::empty() ==> (clicked(t, ix, false, true).multi.contains(t.entries[ix].path) <==> !t.multi.contains(t.entries[ix].path)),
        clicked(t, ix, true, false).selected == t.selected && clicked(t, ix, false, true).selected == Some(t.entries[ix].path),
{
    let lo = least(a, ix);
    let hi = if a > ix {
        a
    } else {
        ix
    };
    let s = Seq::new((hi - lo + 1) as nat, |i: int| t.entries[lo + i].path);
    let r = entry_range(t.entries, lo, hi);
    assert(r == s.to_set());
    if t.selected == Some(t.entries[a].path) && entry_position(t.entries, t.entries[a].path) == Some(a) {
        assert(clicked(t, ix, true, false).multi == r);
        assert(s[0] == t.entries[lo].path);
        assert(s.contains(s[0]));
        assert(r.contains(t.entries[lo].path));
        assert(r != Set::<PathView>::empty());
        if a <= k <= ix || ix <= k <= a {
            assert(s[k - lo] == t.entries[k].path);
            assert(s.contains(t.entries[k].path));
        }
        if r.contains(p) {
            let i = choose|i: int| 0 <= i < s.len() && s[i] == p;
            assert(t.entries[lo + i].path == p);
        }
    }
    if t.multi.contains(p) {
        assert(t.multi != Set::<PathView>::empty());
        if p != t.entries[ix].path {
            assert(clicked(t, ix, false, true).multi.contains(p));
        }
    }
}

/// The first file of the tree is a row that is no directory, and all rows before it are.
pub proof fn the_first_file_comes_first(v: Seq<EntryView>, i: int)
    requires
        0 <= i < v.len(),
        !v[i].is_dir,
        forall|j: int| 0 <= j < i ==> (#[trigger] v[j]).is_dir,
    ensures
        first_file(v) == Some(v[i].path),
    decreases i,
{
    if i > 0 {
        let w = v.drop_first();
        assert(v[0].is_dir);
        assert forall|j: int| 0 <= j < i - 1 implies (#[trigger] w[j]).is_dir by {
            assert(w[j] == v[j + 1]);
        }
        assert(w[i - 1] == v[i]);
        the_first_file_comes_first(w, i - 1);
    }
}

/// A copy has " copy" in its name, from the second one on with its number, before the extension.
pub proof fn copies_are_named_after_the_file(dir: PathView, stem: Seq<char>, ext: Seq<char>, name: Seq<char>, n: nat)
    requires
        stem.len() > 0,
        ext.len() > 0,
        !ext.contains('.'),
        name.len() > 0,
        !name.contains('.'),
        n >= 2,
    ensures
        ({
            let p = PathView { abs: dir.abs, parts: dir.parts.push(stem + seq!['.'] + ext) };
            let q = PathView { abs: dir.abs, parts: dir.parts.push(name) };
            &&& copy_name(p, 1) == stem + " copy"@ + ("."@ + ext)
            &&& copy_name(p, n) == stem + (" copy "@ + dec(n)) + ("."@ + ext)
            &&& copy_name(q, 1) == name + " copy"@
            &&& copy_name(q, n) == name + (" copy "@ + dec(n))
            &&& copy_path(p, 0) == p
        }),
{
    a_path_is_a_directory_and_a_name(dir, stem, ext, name);
    the_last_place_is_the_last(stem, '.', ext);
    the_last_place_is_the_last(stem, '.', name);
    let m = stem + seq!['.'] + ext;
    assert(m.take(stem.len() as int) =~= stem);
}

/// A double click opens a file, and expands or collapses a directory; the row is selected either way,
/// and no other directory changes.
pub proof fn a_double_click_opens(t: FileTreeView, ix: int, after: FileTreeView, open: Option<PathView>, q: PathView)
    requires
        0 <= ix < t.entries.len(),
        entered(t, ix, after, open),
    ensures
        after.selected == Some(t.entries[ix].path),
        !t.entries[ix].is_dir ==> open == Some(t.entries[ix].path) && after.expanded == t.expanded,
        t.entries[ix].is_dir ==> open is None,
        t.entries[ix].is_dir ==> (after.expanded.contains(t.entries[ix].path) <==> !t.expanded.contains(t.entries[ix].path)),
        q != t.entries[ix].path ==> (after.expanded.contains(q) <==> t.expanded.contains(q)),
{
}

/// A copy has the first name that is free.
pub proof fn a_copy_has_a_free_name(p: PathView, taken: Set<PathView>, n: nat)
    requires
        first_free(p, taken, n),
    ensures
        !taken.contains(copy_path(p, n)),
        forall|m: nat| m < n ==> taken.contains(#[trigger] copy_path(p, m)),
        n > 0 ==> taken.contains(copy_path(p, 0)),
{
}

} // verus!
