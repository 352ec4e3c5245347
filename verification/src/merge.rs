//! The window in which a file in conflict is merged by hand.
use vstd::prelude::*;
use crate::path::{FilePath, PathView, rel_text};
use crate::text::cat;

verus! {

/// A file in conflict: what each side has of it, and what is made of the two.
#[derive(Debug)]
pub struct MergeWindow {
    pub root: FilePath,
    pub path: FilePath,
    pub ours: String,
    pub result: String,
    pub theirs: String,
}

/// A file in conflict as plain values.
pub ghost struct MergeView {
    pub root: PathView,
    pub path: PathView,
    pub ours: Seq<char>,
    pub result: Seq<char>,
    pub theirs: Seq<char>,
}

impl View for MergeWindow {
    type V = MergeView;

    open spec fn view(&self) -> MergeView {
        MergeView {
            root: self.root@,
            path: self.path@,
            ours: self.ours@,
            result: self.result@,
            theirs: self.theirs@,
        }
    }
}

/// What resolving a conflict does: this text is written to this path, and the path, as the
/// repository names it, is staged.
#[derive(Debug)]
pub struct Resolved {
    pub path: FilePath,
    pub text: String,
    pub stage: String,
}

impl MergeWindow {
    /// A window on a file, with the text as it is on disk.
    pub fn new(root: FilePath, path: FilePath, ours: String, theirs: String, result: String) -> (r: MergeWindow)
        ensures
            r@ == (MergeView {
                root: root@,
                path: path@,
                ours: ours@,
                result: result@,
                theirs: theirs@,
            }),
    {
        MergeWindow { root, path, ours, result, theirs }
    }

    /// The title of the window.
    pub fn title(&self) -> (r: String)
        ensures
            r@ == "Merge — "@ + rel_text(self@.root, self@.path),
    {
        let rel = self.root.rel(&self.path);
        cat("Merge — ", rel.as_str())
    }

    /// Takes all of one side.
    pub fn take_side(&mut self, theirs: bool)
        ensures
            final(self)@ == (MergeView {
                result: if theirs {
                    old(self)@.theirs
                } else {
                    old(self)@.ours
                },
                ..old(self)@
            }),
    {
        self.result = if theirs {
            self.theirs.clone()
        } else {
            self.ours.clone()
        };
    }

    /// The text was edited by hand.
    pub fn edited(&mut self, text: String)
        ensures
            final(self)@ == (MergeView { result: text@, ..old(self)@ }),
    {
        self.result = text;
    }

    /// What resolving the conflict with the text as it stands does.
    pub fn resolve(&self) -> (r: Resolved)
        ensures
            r.path@ == self@.path,
            r.text@ == self@.result,
            r.stage@ == rel_text(self@.root, self@.path),
    {
        Resolved {
            path: self.path.copy(),
            text: self.result.clone(),
            stage: self.root.rel(&self.path),
        }
    }
}

} // verus!
