//! The per-root scan and watcher lifecycle: one scanning flag and one
//! watcher-paused flag per declared root, and a global scanning flag that is
//! always the disjunction of the per-root flags.

use vstd::prelude::*;
use crate::text::str_eq;
use vstd::string::StringExecFns;

verus! {

/// One root's lifecycle bits.
pub struct RootState {
    pub path: String,
    pub scanning: bool,
    pub paused: bool,
    pub watching: bool,
}

/// Whether any root in `roots` is scanning.
pub open spec fn spec_any_scanning(roots: Seq<RootState>) -> bool {
    exists|i: int| 0 <= i < roots.len() && (#[trigger] roots[i]).scanning
}

/// Whether some root carries `p`.
pub open spec fn spec_has_root(roots: Seq<RootState>, p: Seq<char>) -> bool {
    exists|i: int| 0 <= i < roots.len() && #[trigger] roots[i].path@ == p
}

pub struct Supervisor {
    pub roots: Vec<RootState>,
    pub global_scanning: bool,
}

impl Supervisor {
    /// The supervisor's invariant: roots are unique and the global flag is
    /// exactly the disjunction of the per-root scanning flags.
    pub open spec fn wf(self) -> bool {
        &&& (forall|i: int, j: int|
            0 <= i < j < self.roots@.len() ==> #[trigger] self.roots@[i].path@
                != #[trigger] self.roots@[j].path@)
        &&& self.global_scanning == spec_any_scanning(self.roots@)
    }

    pub fn new() -> (r: Supervisor)
        ensures
            r.wf(),
            r.roots@.len() == 0,
            !r.global_scanning,
    {
        Supervisor { roots: Vec::new(), global_scanning: false }
    }

    fn find_root(&self, path: &str) -> (r: Option<usize>)
        ensures
            match r {
                Some(i) => i < self.roots@.len() && self.roots@[i as int].path@ == path@,
                None => !spec_has_root(self.roots@, path@),
            },
    {
        let mut i: usize = 0;
        while i < self.roots.len()
            invariant
                i <= self.roots@.len(),
                forall|k: int| 0 <= k < i ==> #[trigger] self.roots@[k].path@ != path@,
            decreases self.roots@.len() - i,
        {
            if str_eq(self.roots[i].path.as_str(), path) {
                return Some(i);
            }
            i = i + 1;
        }
        None
    }

    fn recompute_global(&mut self)
        ensures
            final(self).roots@ == old(self).roots@,
            final(self).global_scanning == spec_any_scanning(old(self).roots@),
    {
        let mut any = false;
        let mut i: usize = 0;
        while i < self.roots.len()
            invariant
                self.roots@ == old(self).roots@,
                self.global_scanning == old(self).global_scanning,
                i <= self.roots@.len(),
                any == exists|k: int| 0 <= k < i && (#[trigger] self.roots@[k]).scanning,
            decreases self.roots@.len() - i,
        {
            if self.roots[i].scanning {
                any = true;
            }
            i = i + 1;
        }
        self.global_scanning = any;
    }

    /// Begin scanning a root: refused (false) while that root is already
    /// scanning.  Starting a scan resumes its watcher and raises the global
    /// flag.
    pub fn start_scan(&mut self, path: &str) -> (r: bool)
        requires
            old(self).wf(),
        ensures
            final(self).wf(),
            r == !(exists|i: int|
                0 <= i < old(self).roots@.len() && #[trigger] old(self).roots@[i].path@ == path@
                    && old(self).roots@[i].scanning),
            r ==> spec_has_root(final(self).roots@, path@) && final(self).global_scanning,
            r ==> exists|i: int|
                0 <= i < final(self).roots@.len() && #[trigger] final(self).roots@[i].path@
                    == path@ && final(self).roots@[i].scanning && !final(self).roots@[i].paused
                    && final(self).roots@[i].watching,
    {
        match self.find_root(path) {
            Some(i) => {
                if self.roots[i].scanning {
                    proof {
                        assert(old(self).roots@[i as int].path@ == path@ && old(
                            self,
                        ).roots@[i as int].scanning);
                    }
                    return false;
                }
                let ghost prev = self.roots@;
                let rs = RootState {
                    path: self.roots[i].path.clone(),
                    scanning: true,
                    paused: false,
                    watching: true,
                };
                self.roots.set(i, rs);
                self.global_scanning = true;
                proof {
                    assert(self.roots@[i as int].path@ == path@);
                    assert(self.roots@[i as int].scanning && !self.roots@[i as int].paused
                        && self.roots@[i as int].watching);
                    assert(spec_any_scanning(self.roots@));
                    assert(spec_has_root(self.roots@, path@));
                    assert forall|a: int, b: int| 0 <= a < b < self.roots@.len() implies #[trigger] self.roots@[a].path@
                        != #[trigger] self.roots@[b].path@ by {
                        assert(prev[a].path@ != prev[b].path@);
                    }
                    assert forall|j: int|
                        0 <= j < old(self).roots@.len() && #[trigger] old(self).roots@[j].path@
                            == path@ implies !old(self).roots@[j].scanning by {
                        assert(old(self).roots@[j].path@ == old(self).roots@[i as int].path@);
                    }
                }
                true
            },
            None => {
                let rs = RootState {
                    path: String::from_str(path),
                    scanning: true,
                    paused: false,
                    watching: true,
                };
                let ghost prev = self.roots@;
                self.roots.push(rs);
                self.global_scanning = true;
                proof {
                    assert(self.roots@[prev.len() as int].path@ == path@);
                    assert(self.roots@[prev.len() as int].scanning && !self.roots@[prev.len() as int].paused
                        && self.roots@[prev.len() as int].watching);
                    assert(spec_any_scanning(self.roots@));
                    assert(spec_has_root(self.roots@, path@));
                    assert forall|a: int, b: int| 0 <= a < b < self.roots@.len() implies #[trigger] self.roots@[a].path@
                        != #[trigger] self.roots@[b].path@ by {
                        if b < prev.len() {
                            assert(prev[a].path@ != prev[b].path@);
                        } else {
                            assert(self.roots@[b].path@ == path@);
                            assert(prev[a].path@ != path@);
                        }
                    }
                }
                true
            },
        }
    }

    /// A root's full scan finished: clear its scanning flag (the watcher
    /// stays) and settle the global flag.
    pub fn finish_root_scan(&mut self, path: &str)
        requires
            old(self).wf(),
        ensures
            final(self).wf(),
            forall|i: int|
                0 <= i < final(self).roots@.len() && #[trigger] final(self).roots@[i].path@
                    == path@ ==> !final(self).roots@[i].scanning,
    {
        match self.find_root(path) {
            Some(i) => {
                let ghost prev = self.roots@;
                let rs = RootState {
                    path: self.roots[i].path.clone(),
                    scanning: false,
                    paused: self.roots[i].paused,
                    watching: self.roots[i].watching,
                };
                self.roots.set(i, rs);
                self.recompute_global();
                proof {
                    assert forall|a: int, b: int| 0 <= a < b < self.roots@.len() implies #[trigger] self.roots@[a].path@
                        != #[trigger] self.roots@[b].path@ by {
                        assert(prev[a].path@ != prev[b].path@);
                    }
                    assert forall|j: int|
                        0 <= j < self.roots@.len() && #[trigger] self.roots@[j].path@ == path@
                            implies !self.roots@[j].scanning by {
                        if j != i as int {
                            assert(prev[j].path@ == prev[i as int].path@);
                        }
                    }
                }
            },
            None => {
                self.recompute_global();
            },
        }
    }

    /// Pause a root: scanning stops and its watcher drops events.
    pub fn pause(&mut self, path: &str)
        requires
            old(self).wf(),
        ensures
            final(self).wf(),
            forall|i: int|
                0 <= i < final(self).roots@.len() && #[trigger] final(self).roots@[i].path@
                    == path@ ==> !final(self).roots@[i].scanning && final(self).roots@[i].paused,
    {
        match self.find_root(path) {
            Some(i) => {
                let ghost prev = self.roots@;
                let rs = RootState {
                    path: self.roots[i].path.clone(),
                    scanning: false,
                    paused: true,
                    watching: self.roots[i].watching,
                };
                self.roots.set(i, rs);
                self.recompute_global();
                proof {
                    assert forall|a: int, b: int| 0 <= a < b < self.roots@.len() implies #[trigger] self.roots@[a].path@
                        != #[trigger] self.roots@[b].path@ by {
                        assert(prev[a].path@ != prev[b].path@);
                    }
                    assert forall|j: int|
                        0 <= j < self.roots@.len() && #[trigger] self.roots@[j].path@ == path@
                            implies !self.roots@[j].scanning && self.roots@[j].paused by {
                        if j != i as int {
                            assert(prev[j].path@ == prev[i as int].path@);
                        }
                    }
                }
            },
            None => {
                let ghost prev = self.roots@;
                let rs = RootState {
                    path: String::from_str(path),
                    scanning: false,
                    paused: true,
                    watching: false,
                };
                self.roots.push(rs);
                self.recompute_global();
                proof {
                    assert forall|a: int, b: int| 0 <= a < b < self.roots@.len() implies #[trigger] self.roots@[a].path@
                        != #[trigger] self.roots@[b].path@ by {
                        if b < prev.len() {
                            assert(prev[a].path@ != prev[b].path@);
                        } else {
                            assert(self.roots@[b].path@ == path@);
                            assert(prev[a].path@ != path@);
                        }
                    }
                    assert(spec_any_scanning(self.roots@) == spec_any_scanning(prev)) by {
                        if spec_any_scanning(self.roots@) {
                            let w = choose|w: int|
                                0 <= w < self.roots@.len() && (#[trigger] self.roots@[w]).scanning;
                            assert(w < prev.len());
                            assert(prev[w].scanning);
                        }
                        if spec_any_scanning(prev) {
                            let w = choose|w: int|
                                0 <= w < prev.len() && (#[trigger] prev[w]).scanning;
                            assert(self.roots@[w].scanning);
                        }
                    }
                }
            },
        }
    }

    /// Resume a root's watcher.
    pub fn resume(&mut self, path: &str)
        requires
            old(self).wf(),
        ensures
            final(self).wf(),
            forall|i: int|
                0 <= i < final(self).roots@.len() && #[trigger] final(self).roots@[i].path@
                    == path@ ==> !final(self).roots@[i].paused,
    {
        match self.find_root(path) {
            Some(i) => {
                let ghost prev = self.roots@;
                let rs = RootState {
                    path: self.roots[i].path.clone(),
                    scanning: self.roots[i].scanning,
                    paused: false,
                    watching: self.roots[i].watching,
                };
                self.roots.set(i, rs);
                proof {
                    assert forall|a: int, b: int| 0 <= a < b < self.roots@.len() implies #[trigger] self.roots@[a].path@
                        != #[trigger] self.roots@[b].path@ by {
                        assert(prev[a].path@ != prev[b].path@);
                    }
                    assert(spec_any_scanning(self.roots@) == spec_any_scanning(prev)) by {
                        if spec_any_scanning(self.roots@) {
                            let w = choose|w: int|
                                0 <= w < self.roots@.len() && (#[trigger] self.roots@[w]).scanning;
                            assert(prev[w].scanning);
                        }
                        if spec_any_scanning(prev) {
                            let w = choose|w: int|
                                0 <= w < prev.len() && (#[trigger] prev[w]).scanning;
                            assert(self.roots@[w].scanning);
                        }
                    }
                    assert forall|j: int|
                        0 <= j < self.roots@.len() && #[trigger] self.roots@[j].path@ == path@
                            implies !self.roots@[j].paused by {
                        if j != i as int {
                            assert(prev[j].path@ == prev[i as int].path@);
                        }
                    }
                }
            },
            None => {},
        }
    }

    /// Drop a root from supervision entirely.
    pub fn remove(&mut self, path: &str)
        requires
            old(self).wf(),
        ensures
            final(self).wf(),
            !spec_has_root(final(self).roots@, path@),
    {
        match self.find_root(path) {
            Some(i) => {
                let ghost prev = self.roots@;
                self.roots.remove(i);
                self.recompute_global();
                proof {
                    assert forall|a: int, b: int| 0 <= a < b < self.roots@.len() implies #[trigger] self.roots@[a].path@
                        != #[trigger] self.roots@[b].path@ by {
                        let ao = if a < i as int {
                            a
                        } else {
                            a + 1
                        };
                        let bo = if b < i as int {
                            b
                        } else {
                            b + 1
                        };
                        assert(prev[ao].path@ != prev[bo].path@);
                    }
                    if spec_has_root(self.roots@, path@) {
                        let w = choose|w: int|
                            0 <= w < self.roots@.len() && #[trigger] self.roots@[w].path@
                                == path@;
                        let ow = if w < i as int {
                            w
                        } else {
                            w + 1
                        };
                        assert(prev[ow].path@ == path@);
                        assert(prev[ow].path@ == prev[i as int].path@);
                    }
                }
            },
            None => {},
        }
    }

    /// One root's lifecycle bits, as the status endpoint reports them.
    pub fn status(&self, path: &str) -> (r: (bool, bool, bool))
        requires
            self.wf(),
        ensures
            match self.root_index(path@) {
                Some(i) => r.0 == self.roots@[i].scanning && r.1 == self.roots@[i].paused && r.2
                    == self.roots@[i].watching,
                None => r == (false, false, false),
            },
    {
        match self.find_root(path) {
            Some(i) => {
                proof {
                    match self.root_index(path@) {
                        Some(j) => {
                            assert(self.roots@[j].path@ == self.roots@[i as int].path@);
                            assert(self.roots@[j] == self.roots@[i as int]) by {
                                lemma_root_index_unique(*self, path@, j, i as int);
                            }
                        },
                        None => {
                            assert(spec_has_root(self.roots@, path@));
                        },
                    }
                }
                (self.roots[i].scanning, self.roots[i].paused, self.roots[i].watching)
            },
            None => (false, false, false),
        }
    }

    /// The index of the root carrying `p`, if any.
    pub open spec fn root_index(self, p: Seq<char>) -> Option<int> {
        if spec_has_root(self.roots@, p) {
            Some(choose|i: int| 0 <= i < self.roots@.len() && #[trigger] self.roots@[i].path@ == p)
        } else {
            None
        }
    }

    /// Whether any root is scanning, as the conflict checks use it.
    pub fn any_scanning(&self) -> (r: bool)
        requires
            self.wf(),
        ensures
            r == self.global_scanning,
            r == spec_any_scanning(self.roots@),
    {
        self.global_scanning
    }
}

/// Two root indices carrying the same path are the same index.
proof fn lemma_root_index_unique(s: Supervisor, p: Seq<char>, i: int, j: int)
    requires
        forall|a: int, b: int|
            0 <= a < b < s.roots@.len() ==> #[trigger] s.roots@[a].path@ != #[trigger] s.roots@[b].path@,
        0 <= i < s.roots@.len(),
        0 <= j < s.roots@.len(),
        s.roots@[i].path@ == p,
        s.roots@[j].path@ == p,
    ensures
        i == j,
{
}

/// While any per-root scanning flag is set, the global scanning flag is
/// set.
pub proof fn lemma_root_scanning_implies_global(s: Supervisor, i: int)
    requires
        s.wf(),
        0 <= i < s.roots@.len(),
        s.roots@[i].scanning,
    ensures
        s.global_scanning,
{
}

} // verus!
