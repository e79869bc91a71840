//! One operation at a time on each device's working directory.
use vstd::prelude::*;

use crate::error::{CradleError, ErrorView};
use crate::paths::{components, join, joined, same_path};

verus! {

/// The working directories that operations of this process hold.
#[derive(Debug)]
pub struct LockRegistry {
    held: Vec<String>,
}

/// A hold on a working directory that is not yet backed by its lock file.
#[derive(Debug)]
pub struct PendingLock {
    pub key: String,
    /// The file to lock against other processes.
    pub lock_path: String,
}

/// A hold on a working directory.
#[derive(Debug)]
pub struct WorkingSetLock {
    pub key: String,
}

impl LockRegistry {
    /// The paths that are held, each as its components.
    pub closed spec fn holds(&self) -> Set<Seq<Seq<char>>> {
        Set::new(|p: Seq<Seq<char>>| exists|i: int| #[trigger] self.held_at(i, p))
    }

    /// Whether the path with components `p` is held in place `i`.
    spec fn held_at(&self, i: int, p: Seq<Seq<char>>) -> bool {
        0 <= i < self.held@.len() && components(self.held@[i]@) == p
    }

    /// Whether no path is held twice.
    pub closed spec fn wf(&self) -> bool {
        forall|i: int, j: int|
            #![trigger self.held@[i], self.held@[j]]
            0 <= i < j < self.held@.len() ==> components(self.held@[i]@) != components(
                self.held@[j]@,
            )
    }

    /// A registry in which nothing is held.
    pub fn new() -> (r: LockRegistry)
        ensures
            r.wf(),
            r.holds() == Set::<Seq<Seq<char>>>::empty(),
    {
        let r = LockRegistry { held: Vec::new() };
        assert(r.holds() =~= Set::empty());
        r
    }

    /// The place in which `key` is held.
    fn place(&self, key: &str) -> (r: Option<usize>)
        ensures
            match r {
                Some(i) => self.held_at(i as int, components(key@)),
                None => !self.holds().contains(components(key@)),
            },
    {
        let mut i: usize = 0;
        while i < self.held.len()
            invariant
                i <= self.held@.len(),
                forall|k: int| 0 <= k < i ==> !#[trigger] self.held_at(k, components(key@)),
            decreases self.held@.len() - i,
        {
            if same_path(self.held[i].as_str(), key) {
                return Some(i);
            }
            assert(!self.held_at(i as int, components(key@)));
            i = i + 1;
        }
        None
    }

    /// Takes hold of a device's working directory within this process, unless
    /// an operation holds it already.
    pub fn begin(&mut self, working_root: &str, udid: &str) -> (r: Result<PendingLock, CradleError>)
        requires
            old(self).wf(),
        ensures
            final(self).wf(),
            ({
                let key = joined(working_root@, udid@);
                match r {
                    Ok(p) => {
                        &&& !old(self).holds().contains(components(key))
                        &&& final(self).holds() == old(self).holds().insert(components(key))
                        &&& p.key@ == key
                        &&& p.lock_path@ == joined(working_root@, "."@ + udid@ + ".lock"@)
                    },
                    Err(e) => {
                        &&& old(self).holds().contains(components(key))
                        &&& final(self).holds() == old(self).holds()
                        &&& e@ == ErrorView::Other(
                            "another Cradle operation is already running against "@ + key
                                + " — wait for it to finish first"@,
                        )
                    },
                }
            }),
    {
        let key = join(working_root, udid);
        if self.place(key.as_str()).is_some() {
            return Err(
                CradleError::Other(
                    "another Cradle operation is already running against ".to_owned().concat(
                        key.as_str(),
                    ).concat(" — wait for it to finish first"),
                ),
            );
        }
        let ghost before = *self;
        self.held.push(key.clone());
        proof {
            let n = before.held@.len() as int;
            let path = components(key@);
            assert(self.held_at(n, path));
            assert forall|i: int, j: int|
                #![trigger self.held@[i], self.held@[j]]
                0 <= i < j < self.held@.len() implies components(self.held@[i]@) != components(
                self.held@[j]@,
            ) by {
                if j == n {
                    assert(!before.held_at(i, path));
                }
            }
            assert forall|p: Seq<Seq<char>>| #[trigger] self.holds().contains(p) <==> before.holds().insert(
                path,
            ).contains(p) by {
                if before.holds().contains(p) {
                    let i = choose|i: int| #[trigger] before.held_at(i, p);
                    assert(self.held_at(i, p));
                }
                if self.holds().contains(p) && p != path {
                    let i = choose|i: int| #[trigger] self.held_at(i, p);
                    assert(before.held_at(i, p));
                }
            }
            assert(self.holds() =~= before.holds().insert(path));
        }
        let lock_path = join(working_root, ".".to_owned().concat(udid).concat(".lock").as_str());
        Ok(PendingLock { key, lock_path })
    }

    /// Lets go of a path.
    fn drop_key(&mut self, key: &str)
        requires
            old(self).wf(),
        ensures
            final(self).wf(),
            final(self).holds() == old(self).holds().remove(components(key@)),
    {
        let ghost before = *self;
        let ghost path = components(key@);
        match self.place(key) {
            Some(at) => {
                self.held.remove(at);
                proof {
                    assert forall|p: Seq<Seq<char>>| #[trigger] self.holds().contains(p)
                        <==> before.holds().remove(path).contains(p) by {
                        if before.holds().contains(p) && p != path {
                            let i = choose|i: int| #[trigger] before.held_at(i, p);
                            assert(self.held_at(
                                if i < at {
                                    i
                                } else {
                                    i - 1
                                },
                                p,
                            ));
                        }
                        if self.holds().contains(p) {
                            let i = choose|i: int| #[trigger] self.held_at(i, p);
                            let j = if i < at {
                                i
                            } else {
                                i + 1
                            };
                            assert(before.held_at(j, p));
                            assert(before.held@[j] == self.held@[i]);
                            if j < at {
                                assert(components(before.held@[j]@) != components(
                                    before.held@[at as int]@,
                                ));
                            } else {
                                assert(components(before.held@[at as int]@) != components(
                                    before.held@[j]@,
                                ));
                            }
                        }
                    }
                    assert(self.holds() =~= before.holds().remove(path));
                }
            },
            None => {
                assert(before.holds().remove(path) =~= before.holds());
            },
        }
    }

    /// Takes in that the lock file is open and locked: the hold is complete.
    pub fn locked(&self, pending: PendingLock) -> (lock: WorkingSetLock)
        ensures
            lock.key@ == pending.key@,
    {
        WorkingSetLock { key: pending.key }
    }

    /// Takes in that the lock file could not be opened: the hold is given up.
    pub fn open_failed(&mut self, pending: PendingLock, words: String) -> (e: CradleError)
        requires
            old(self).wf(),
        ensures
            final(self).wf(),
            final(self).holds() == old(self).holds().remove(components(pending.key@)),
            e@ == ErrorView::Io(words@),
    {
        self.drop_key(pending.key.as_str());
        CradleError::Io(words)
    }

    /// Takes in that another process has the lock file locked: the hold is
    /// given up.
    pub fn lock_refused(&mut self, pending: PendingLock, words: String) -> (e: CradleError)
        requires
            old(self).wf(),
        ensures
            final(self).wf(),
            final(self).holds() == old(self).holds().remove(components(pending.key@)),
            e@ == ErrorView::Other(
                "another Cradle process is already running against "@ + pending.key@ + " ("@ + words@
                    + ") — if it crashed rather than actually being busy, no cleanup is needed: this lock releases automatically once that process exits"@,
            ),
    {
        self.drop_key(pending.key.as_str());
        CradleError::Other(
            "another Cradle process is already running against ".to_owned().concat(
                pending.key.as_str(),
            ).concat(" (").concat(words.as_str()).concat(
                ") — if it crashed rather than actually being busy, no cleanup is needed: this lock releases automatically once that process exits",
            ),
        )
    }

    /// Lets go of a working directory.
    pub fn release(&mut self, lock: WorkingSetLock)
        requires
            old(self).wf(),
        ensures
            final(self).wf(),
            final(self).holds() == old(self).holds().remove(components(lock.key@)),
    {
        self.drop_key(lock.key.as_str());
    }
}

/// Taking hold of a path that is free and letting go of it again leaves what is
/// held as it was, whichever way the hold ended.
pub proof fn law_hold_and_release(held: Set<Seq<Seq<char>>>, path: Seq<Seq<char>>)
    requires
        !held.contains(path),
    ensures
        held.insert(path).remove(path) == held,
        held.insert(path).contains(path),
{
    assert(held.insert(path).remove(path) =~= held);
}

} // verus!
