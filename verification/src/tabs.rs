//! Lists of which one item is active: editor tabs and terminals.
use vstd::prelude::*;
use crate::path::{FilePath, PathView, opt_path, path_of, under};
use crate::text::{cat, dec, decimal, filter_map, lemma_filter_map_ends, lemma_filter_map_step};

verus! {

/// A list and the place of its active item.
#[derive(Debug)]
pub struct ActiveList<T> {
    pub items: Vec<T>,
    pub active: usize,
}

/// The place of the active item after item `ix` of `n` was closed.
pub open spec fn active_after_close(active: int, ix: int, n: int) -> int {
    if active >= n - 1 && n - 1 > 0 {
        n - 2
    } else if ix < active {
        active - 1
    } else {
        active
    }
}

impl<T> ActiveList<T> {
    /// The active place is in the list, unless the list is empty.
    pub open spec fn wf(&self) -> bool {
        self.items@.len() > 0 ==> self.active < self.items@.len()
    }

    /// The active item.
    pub open spec fn current(&self) -> Option<T> {
        if self.active < self.items@.len() {
            Some(self.items@[self.active as int])
        } else {
            None
        }
    }

    /// An empty list.
    pub fn new() -> (r: ActiveList<T>)
        ensures
            r.items@ == Seq::<T>::empty(),
            r.active == 0,
            r.wf(),
    {
        ActiveList { items: Vec::new(), active: 0 }
    }

    /// Adds an item and makes it the active one.
    pub fn open(&mut self, item: T)
        ensures
            final(self).items@ == old(self).items@.push(item),
            final(self).active == old(self).items@.len(),
            final(self).wf(),
    {
        self.items.push(item);
        self.active = self.items.len() - 1;
    }

    /// Makes item `ix` active; says whether there is one.
    pub fn switch(&mut self, ix: usize) -> (r: bool)
        ensures
            r == (ix < old(self).items@.len()),
            final(self).items == old(self).items,
            final(self).active == if r {
                ix
            } else {
                old(self).active
            },
            old(self).wf() ==> final(self).wf(),
    {
        if ix < self.items.len() {
            self.active = ix;
            true
        } else {
            false
        }
    }

    /// Takes item `ix` out and gives it back; the active place follows its item, or the
    /// last item where it was the last.
    pub fn close(&mut self, ix: usize) -> (r: Option<T>)
        requires
            old(self).wf(),
        ensures
            final(self).wf(),
            match r {
                Some(t) => {
                    &&& ix < old(self).items@.len()
                    &&& t == old(self).items@[ix as int]
                    &&& final(self).items@ == old(self).items@.remove(ix as int)
                    &&& final(self).active == active_after_close(
                        old(self).active as int,
                        ix as int,
                        old(self).items@.len() as int,
                    )
                },
                None => ix >= old(self).items@.len() && *final(self) == *old(self),
            },
    {
        if ix >= self.items.len() {
            return None;
        }
        let t = self.items.remove(ix);
        let n: usize = self.items.len();
        if self.active >= n && n > 0 {
            self.active = n - 1;
        } else if ix < self.active {
            self.active = self.active - 1;
        }
        Some(t)
    }

    /// Keeps the active item alone; gives the others back in their order.
    pub fn close_others(&mut self) -> (r: Vec<T>)
        requires
            old(self).wf(),
        ensures
            final(self).wf(),
            if old(self).items@.len() == 0 {
                r@ == Seq::<T>::empty() && *final(self) == *old(self)
            } else {
                &&& r@ == old(self).items@.remove(old(self).active as int)
                &&& final(self).items@ == seq![old(self).items@[old(self).active as int]]
                &&& final(self).active == 0
            },
    {
        let mut rest: Vec<T> = Vec::new();
        if self.items.len() == 0 {
            return rest;
        }
        let keep = self.items.remove(self.active);
        let ghost left = self.items@;
        rest.append(&mut self.items);
        assert(rest@ =~= left);
        self.items.push(keep);
        assert(self.items@ =~= seq![keep]);
        self.active = 0;
        rest
    }
}

/// Closing an item leaves another active item active.
pub proof fn closing_keeps_the_active_item<T>(items: Seq<T>, active: int, ix: int)
    requires
        0 <= active < items.len(),
        0 <= ix < items.len(),
        ix != active,
    ensures
        0 <= active_after_close(active, ix, items.len() as int) < items.len() - 1,
        items.remove(ix)[active_after_close(active, ix, items.len() as int)] == items[active],
{
}

/// Closing the active item makes its right neighbour active, or its left one where it was
/// the last.
pub proof fn closing_the_active_item_moves_on<T>(items: Seq<T>, active: int)
    requires
        0 <= active < items.len(),
        items.len() > 1,
    ensures
        items.remove(active)[active_after_close(active, active, items.len() as int)] == if active
            + 1 < items.len() {
            items[active + 1]
        } else {
            items[active - 1]
        },
{
}

// ── editor tabs ─────────────────────────────────────────────────────────────

/// An open tab: its path, whether it is a scratch buffer, and the number of its editor.
#[derive(Debug)]
pub struct Tab {
    pub path: FilePath,
    pub scratch: bool,
    pub editor: usize,
}

/// What a tab shows.
pub ghost struct TabView {
    pub path: PathView,
    pub scratch: bool,
    pub editor: usize,
}

impl View for Tab {
    type V = TabView;

    open spec fn view(&self) -> TabView {
        TabView { path: self.path@, scratch: self.scratch, editor: self.editor }
    }
}

/// What a list of tabs shows.
pub open spec fn tab_views(v: Seq<Tab>) -> Seq<TabView> {
    Seq::new(v.len(), |i: int| v[i]@)
}

/// The editor's tabs.
#[derive(Debug)]
pub struct Tabs {
    pub list: ActiveList<Tab>,
    pub scratch_count: usize,
}

/// What opening a file leads to: a tab that was there, or a new one.
#[derive(Clone, Copy, Debug, PartialEq, Eq, Structural)]
pub enum Opened {
    Existing(usize),
    Fresh(usize),
}

/// What opening a file does to the tabs: its first tab becomes active, or a new one is added
/// with the given editor.
pub open spec fn opened(before: Tabs, after: Tabs, path: PathView, editor: usize, r: Opened) -> bool {
    &&& after.scratch_count == before.scratch_count
    &&& match r {
        Opened::Existing(i) => {
            &&& i < before.list.items@.len()
            &&& before.list.items@[i as int].path@ == path
            &&& forall|j: int| 0 <= j < i ==> (#[trigger] before.list.items@[j]).path@ != path
            &&& after.list.items@ == before.list.items@
            &&& after.list.active == i
        },
        Opened::Fresh(i) => {
            &&& i == before.list.items@.len()
            &&& forall|j: int| 0 <= j < i ==> (#[trigger] before.list.items@[j]).path@ != path
            &&& tab_views(after.list.items@) == tab_views(before.list.items@).push(
                TabView { path, scratch: false, editor },
            )
            &&& after.list.active == i
        },
    }
}

/// The path that labels scratch buffer `n`.
pub open spec fn scratch_path(n: nat) -> PathView {
    path_of("scratch "@ + dec(n))
}

impl Tabs {
    /// The active place is in the list, unless there is no tab.
    pub open spec fn wf(&self) -> bool {
        self.list.wf()
    }

    /// No tabs.
    pub fn new() -> (r: Tabs)
        ensures
            r.list.items@ == Seq::<Tab>::empty(),
            r.list.active == 0,
            r.scratch_count == 0,
            r.wf(),
    {
        Tabs { list: ActiveList::new(), scratch_count: 0 }
    }

    /// The path of the active tab.
    pub fn active_path(&self) -> (r: Option<FilePath>)
        ensures
            opt_path(r) == match self.list.current() {
                Some(t) => Some(t.path@),
                None => None,
            },
    {
        if self.list.active < self.list.items.len() {
            Some(self.list.items[self.list.active].path.copy())
        } else {
            None
        }
    }

    /// The editor to save when tab `ix` is left: none for a scratch buffer, which is never
    /// written to disk.
    pub fn saved_on_leave(&self, ix: usize) -> (r: Option<usize>)
        ensures
            r == if ix < self.list.items@.len() && !self.list.items@[ix as int].scratch {
                Some(self.list.items@[ix as int].editor)
            } else {
                None
            },
    {
        if ix < self.list.items.len() && !self.list.items[ix].scratch {
            Some(self.list.items[ix].editor)
        } else {
            None
        }
    }

    /// The first tab with a path.
    pub fn position(&self, path: &FilePath) -> (r: Option<usize>)
        ensures
            match r {
                Some(i) => i < self.list.items@.len() && self.list.items@[i as int].path@ == path@
                    && forall|j: int| 0 <= j < i ==> (#[trigger] self.list.items@[j]).path@ != path@,
                None => forall|j: int|
                    0 <= j < self.list.items@.len() ==> (#[trigger] self.list.items@[j]).path@ != path@,
            },
    {
        let mut i: usize = 0;
        while i < self.list.items.len()
            invariant
                i <= self.list.items.len(),
                forall|j: int| 0 <= j < i ==> (#[trigger] self.list.items@[j]).path@ != path@,
            decreases self.list.items.len() - i,
        {
            if self.list.items[i].path.same(path) {
                return Some(i);
            }
            i = i + 1;
        }
        None
    }

    /// Opens a file: switches to its first tab where it is open, else adds a tab with a new
    /// editor.
    pub fn open_file(&mut self, path: &FilePath, editor: usize) -> (r: Opened)
        ensures
            final(self).wf(),
            opened(*old(self), *final(self), path@, editor, r),
    {
        match self.position(path) {
            Some(i) => {
                let _ = self.list.switch(i);
                Opened::Existing(i)
            },
            None => {
                let n: usize = self.list.items.len();
                let ghost before = self.list.items@;
                let t = Tab { path: path.copy(), scratch: false, editor };
                self.list.open(t);
                assert(tab_views(before.push(t)) =~= tab_views(before).push(t@));
                Opened::Fresh(n)
            },
        }
    }

    /// Adds a scratch buffer, numbered on from the last one.
    pub fn new_scratch(&mut self, editor: usize)
        requires
            old(self).scratch_count < usize::MAX,
        ensures
            final(self).wf(),
            final(self).scratch_count == old(self).scratch_count + 1,
            tab_views(final(self).list.items@) == tab_views(old(self).list.items@).push(
                TabView {
                    path: scratch_path(final(self).scratch_count as nat),
                    scratch: true,
                    editor,
                },
            ),
            final(self).list.active == old(self).list.items@.len(),
    {
        self.scratch_count = self.scratch_count + 1;
        let d = decimal(self.scratch_count as u64);
        let name = cat("scratch ", d.as_str());
        let ghost before = self.list.items@;
        let t = Tab { path: FilePath::parse(name.as_str()), scratch: true, editor };
        self.list.open(t);
        assert(tab_views(before.push(t)) =~= tab_views(before).push(t@));
    }

    /// Drops the tabs of a deleted file or of the files under a deleted folder, without
    /// saving them.
    pub fn drop_under(&mut self, path: &FilePath)
        ensures
            final(self).wf(),
            final(self).scratch_count == old(self).scratch_count,
            final(self).list.items@ == filter_map(
                old(self).list.items@,
                |t: Tab|
                    if under(t.path@, path@) {
                        None
                    } else {
                        Some(t)
                    },
            ),
            final(self).list.active == if old(self).list.active >= final(self).list.items@.len() {
                if final(self).list.items@.len() > 0 {
                    (final(self).list.items@.len() - 1) as usize
                } else {
                    0
                }
            } else {
                old(self).list.active
            },
    {
        let ghost all = self.list.items@;
        let ghost f = |t: Tab|
            if under(t.path@, path@) {
                None
            } else {
                Some(t)
            };
        let mut k: usize = 0;
        let mut done: Ghost<int> = Ghost(0);
        proof {
            lemma_filter_map_ends(all, f);
            assert(all.skip(0) =~= all);
            assert(self.list.items@.take(0) =~= Seq::<Tab>::empty());
        }
        while k < self.list.items.len()
            invariant
                0 <= done@ <= all.len(),
                k <= self.list.items.len(),
                f == (|t: Tab|
                    if under(t.path@, path@) {
                        None
                    } else {
                        Some(t)
                    }),
                self.list.items@.take(k as int) == filter_map(all.take(done@), f),
                self.list.items@.skip(k as int) == all.skip(done@),
                self.scratch_count == old(self).scratch_count,
                self.list.active == old(self).list.active,
            decreases self.list.items.len() - k,
        {
            let ghost items = self.list.items@;
            let ghost d = done@;
            proof {
                assert(items.skip(k as int)[0] == items[k as int]);
                assert(items.skip(k as int).len() > 0);
                assert(all.skip(d).len() == all.len() - d);
                assert(all.skip(d)[0] == all[d]);
                lemma_filter_map_step(all, f, d);
            }
            if self.list.items[k].path.starts_with(path) {
                let _ = self.list.items.remove(k);
                proof {
                    done@ = d + 1;
                    assert(self.list.items@.take(k as int) =~= items.take(k as int));
                    assert(self.list.items@.skip(k as int) =~= items.skip(k as int).drop_first());
                    assert(all.skip(d).drop_first() =~= all.skip(d + 1));
                }
            } else {
                proof {
                    done@ = d + 1;
                    assert(items.take(k + 1) =~= items.take(k as int).push(items[k as int]));
                    assert(items.skip(k + 1) =~= items.skip(k as int).drop_first());
                    assert(all.skip(d).drop_first() =~= all.skip(d + 1));
                }
                k = k + 1;
            }
        }
        proof {
            let items = self.list.items@;
            assert(items.skip(k as int).len() == 0);
            assert(all.skip(done@).len() == 0);
            assert(items.take(k as int) =~= items);
            assert(all.take(done@) =~= all);
        }
        let n: usize = self.list.items.len();
        if self.list.active >= n {
            self.list.active = if n > 0 {
                n - 1
            } else {
                0
            };
        }
    }
}

/// Opening a file makes a tab of it active and keeps the tabs that were there in their places; a
/// file that has a tab gets no second one.
pub proof fn opening_shows_the_file(before: Tabs, after: Tabs, path: PathView, editor: usize, r: Opened, k: int)
    requires
        opened(before, after, path, editor, r),
        0 <= k < before.list.items@.len(),
    ensures
        after.list.active < after.list.items@.len(),
        after.list.items@[after.list.active as int].path@ == path,
        after.list.items@[k].path@ == before.list.items@[k].path@,
        after.list.items@[k].editor == before.list.items@[k].editor,
        before.list.items@[k].path@ == path ==> after.list.items@.len() == before.list.items@.len(),
        after.list.items@.len() <= before.list.items@.len() + 1,
        after.list.items@.len() == before.list.items@.len() + 1 ==> !after.list.items@.last().scratch && after.list.items@.last().editor == editor,
        after.scratch_count == before.scratch_count,
{
    if let Opened::Fresh(i) = r {
        let a = tab_views(after.list.items@);
        let b = tab_views(before.list.items@);
        assert(a.len() == after.list.items@.len());
        assert(a[k] == b[k]);
        assert(a[i as int] == (TabView { path, scratch: false, editor }));
    }
}

/// Scratch buffers go by their number.
pub proof fn scratch_buffers_are_numbered(n: nat)
    ensures
        scratch_path(n) == path_of("scratch "@ + dec(n)),
{
}

} // verus!
