//! What a window knows of its repository: the state of its files, its branch and its pull
//! request.
use vstd::prelude::*;
use crate::git::{GitState, GitStatus};
use crate::path::PathView;
use crate::pr::PrLink;
use crate::text::same;

verus! {

/// What is known of a repository.
#[derive(Debug)]
pub struct Repo {
    pub status: GitStatus,
    pub branch: String,
    pub parent: Option<String>,
    pub pr_link: Option<PrLink>,
    pub pr_link_branch: String,
    pub mem_mb: u64,
}

/// The branch by which a window goes.
pub open spec fn branch_name(s: Repo) -> Seq<char> {
    if s.branch@ == "HEAD"@ && s.pr_link is Some && (s.pr_link->0).head@.len() > 0 {
        (s.pr_link->0).head@
    } else {
        s.branch@
    }
}

impl Repo {
    /// No path is held twice among the changed files.
    pub open spec fn wf(&self) -> bool {
        self.status.wf()
    }

    /// Nothing is known yet.
    pub fn new() -> (r: Repo)
        ensures
            r.wf(),
            r.status@ == Map::<PathView, GitState>::empty(),
            r.branch@.len() == 0,
            r.parent is None,
            r.pr_link is None,
            r.pr_link_branch@.len() == 0,
            r.mem_mb == 0,
    {
        let branch = String::new();
        let pr_link_branch = String::new();
        assert(branch@ =~= Seq::<char>::empty());
        assert(pr_link_branch@ =~= Seq::<char>::empty());
        Repo {
            status: GitStatus::new(),
            branch,
            parent: None,
            pr_link: None,
            pr_link_branch,
            mem_mb: 0,
        }
    }

    /// Whether the pull request of a branch has to be asked for: the branch is not the one
    /// that was asked for last.
    pub fn pr_outdated(&self, branch: &str) -> (r: bool)
        ensures
            r == (branch@ != self.pr_link_branch@),
    {
        !same(branch, self.pr_link_branch.as_str())
    }

    /// Takes in what a look at the repository found. `pr` is the pull request and the parent of
    /// the branch, where they were asked for.
    pub fn polled(&mut self, status: GitStatus, branch: String, mem_mb: u64, pr: Option<(Option<PrLink>, Option<String>)>)
        requires
            status.wf(),
        ensures
            final(self).wf(),
            final(self).pr_link_branch@ == if pr is Some {
                branch@
            } else {
                old(self).pr_link_branch@
            },
            *final(self) == (Repo {
                status,
                branch,
                mem_mb,
                parent: match pr {
                    Some(p) => p.1,
                    None => old(self).parent,
                },
                pr_link: match pr {
                    Some(p) => p.0,
                    None => old(self).pr_link,
                },
                pr_link_branch: final(self).pr_link_branch,
            }),
    {
        self.status = status;
        self.mem_mb = mem_mb;
        if let Some(p) = pr {
            self.pr_link = p.0;
            self.parent = p.1;
            self.pr_link_branch = branch.clone();
        }
        self.branch = branch;
    }

    /// The pull request was asked for once more.
    pub fn pr_refreshed(&mut self, link: Option<PrLink>, branch: String)
        ensures
            *final(self) == (Repo { pr_link: link, pr_link_branch: branch, ..*old(self) }),
    {
        self.pr_link = link;
        self.pr_link_branch = branch;
    }

    /// The files were looked at once more.
    pub fn status_refreshed(&mut self, status: GitStatus)
        requires
            status.wf(),
        ensures
            final(self).wf(),
            *final(self) == (Repo { status, ..*old(self) }),
    {
        self.status = status;
    }

    /// The branch by which the window goes: in a detached head, that of the pull request.
    pub fn branch_label(&self) -> (r: String)
        ensures
            r@ == branch_name(*self),
    {
        if same(self.branch.as_str(), "HEAD") {
            if let Some(l) = &self.pr_link {
                if !l.head.as_str().is_empty() {
                    return l.head.clone();
                }
            }
        }
        self.branch.clone()
    }
}

/// A branch goes by its name; without one, in a checkout of a pull request, by the branch of that
/// request.
pub proof fn a_branch_goes_by_its_name(s: Repo)
    ensures
        s.branch@ != "HEAD"@ ==> branch_name(s) == s.branch@,
        s.branch@ == "HEAD"@ && s.pr_link is None ==> branch_name(s) == "HEAD"@,
        s.branch@ == "HEAD"@ && s.pr_link is Some && (s.pr_link->0).head@.len() > 0 ==> branch_name(s) == (s.pr_link->0).head@,
{
}

} // verus!
