//! Command registry: a lookup table from declared command ids to the
//! instance that exports them. It holds no ownership over instances;
//! bindings are added at registration and dropped when an instance is
//! disposed.

use vstd::prelude::*;
use crate::manifest::{CommandManifest, ExtensionManifest};
use crate::text::str_eq;

verus! {

/// A resolved binding from a command id to a running instance's
/// generic dispatch export.
#[derive(Debug, Clone, PartialEq, Eq)]
pub struct CommandHandle {
    pub command: String,
    pub instance: u64,
}

#[derive(Debug, Clone, Copy, PartialEq, Eq, Structural)]
pub enum RegistryError {
    /// A command id is already bound by a loaded extension.
    CommandCollision,
}

pub struct CommandRegistry {
    bindings: Vec<CommandHandle>,
}

/// The id of binding `k` in `bs`.
pub open spec fn binding_id(bs: Seq<CommandHandle>, k: int) -> Seq<char> {
    bs[k].command@
}

/// Whether `id` is bound in `bs`.
pub open spec fn spec_bound(bs: Seq<CommandHandle>, id: Seq<char>) -> bool {
    exists|k: int| 0 <= k < bs.len() && binding_id(bs, k) == id
}

/// The ids declared by the manifest's command entries.
pub open spec fn spec_declared_ids(cmds: Seq<CommandManifest>) -> Seq<Seq<char>> {
    cmds.map_values(|c: CommandManifest| c.command@)
}

/// The manifest's declared ids agree with its command entries.
pub open spec fn m_cmds_match(
    manifest: ExtensionManifest,
    ids: Seq<Seq<char>>,
    cmds: Seq<CommandManifest>,
) -> bool {
    &&& ids == declared_ids(manifest)
    &&& ids == spec_declared_ids(cmds)
    &&& ids.len() == cmds.len()
}

/// The command ids a manifest declares, in order.
pub open spec fn declared_ids(manifest: ExtensionManifest) -> Seq<Seq<char>> {
    match manifest.contributes.commands {
        None => Seq::empty(),
        Some(cmds) => spec_declared_ids(cmds@),
    }
}

impl CommandRegistry {
    /// All bound command ids are pairwise distinct.
    pub open spec fn wf(self) -> bool {
        forall|k1: int, k2: int|
            0 <= k1 < k2 < self@.len() ==> binding_id(self@, k1) != binding_id(self@, k2)
    }

    pub closed spec fn view(self) -> Seq<CommandHandle> {
        self.bindings@
    }

    pub fn new() -> (r: CommandRegistry)
        ensures
            r.wf(),
            r@ == Seq::<CommandHandle>::empty(),
    {
        CommandRegistry { bindings: Vec::new() }
    }

    fn find(&self, id: &str) -> (r: Option<usize>)
        ensures
            match r {
                Some(k) => 0 <= k < self@.len() && binding_id(self@, k as int) == id@,
                None => !spec_bound(self@, id@),
            },
    {
        let mut k: usize = 0;
        while k < self.bindings.len()
            invariant
                k <= self@.len(),
                forall|j: int| 0 <= j < k ==> binding_id(self@, j) != id@,
            decreases self@.len() - k,
        {
            if str_eq(self.bindings[k].command.as_str(), id) {
                return Some(k);
            }
            k += 1;
        }
        None
    }

    /// Whether a command id is currently bound.
    pub fn is_bound(&self, id: &str) -> (r: bool)
        ensures
            r == spec_bound(self@, id@),
    {
        self.find(id).is_some()
    }

    /// Binds each command id declared by `manifest` to `instance`.
    /// Fails with `CommandCollision`, changing nothing, exactly when
    /// some declared id is already bound by a loaded extension.
    ///
    /// Requires the manifest's ids to be pairwise distinct, which
    /// validation guarantees for every valid manifest.
    pub fn register(&mut self, manifest: &ExtensionManifest, instance: u64) -> (r: Result<
        (),
        RegistryError,
    >)
        requires
            old(self).wf(),
            forall|k1: int, k2: int|
                0 <= k1 < k2 < declared_ids(*manifest).len() ==> declared_ids(*manifest)[k1]
                    != declared_ids(*manifest)[k2],
        ensures
            final(self).wf(),
            match r {
                Ok(()) => {
                    &&& !(exists|k: int|
                        0 <= k < declared_ids(*manifest).len()
                            && spec_bound(old(self)@, declared_ids(*manifest)[k]))
                    &&& final(self)@.len() == old(self)@.len() + declared_ids(*manifest).len()
                    &&& forall|j: int|
                        0 <= j < old(self)@.len() ==> final(self)@[j] == old(self)@[j]
                    &&& forall|k: int|
                        0 <= k < declared_ids(*manifest).len() ==> binding_id(
                            final(self)@,
                            old(self)@.len() + k,
                        ) == declared_ids(*manifest)[k] && final(self)@[old(self)@.len()
                            + k].instance == instance
                },
                Err(RegistryError::CommandCollision) => {
                    &&& final(self)@ == old(self)@
                    &&& exists|k: int|
                        0 <= k < declared_ids(*manifest).len() && spec_bound(
                            old(self)@,
                            declared_ids(*manifest)[k],
                        )
                },
            },
    {
        let cmds: &Vec<CommandManifest> = match &manifest.contributes.commands {
            None => {
                proof {
                    assert(declared_ids(*manifest) =~= Seq::<Seq<char>>::empty());
                }
                return Ok(());
            },
            Some(cmds) => cmds,
        };
        let ghost ids = declared_ids(*manifest);
        let mut k: usize = 0;
        while k < cmds.len()
            invariant
                k <= cmds@.len(),
                self@ == old(self)@,
                old(self).wf(),
                m_cmds_match(*manifest, ids, cmds@),
                forall|j: int| 0 <= j < k ==> !spec_bound(self@, ids[j]),
            decreases cmds@.len() - k,
        {
            proof {
                assert(ids[k as int] == cmds@[k as int].command@);
            }
            if self.is_bound(cmds[k].command.as_str()) {
                proof {
                    assert(spec_bound(old(self)@, ids[k as int]));
                }
                return Err(RegistryError::CommandCollision);
            }
            k += 1;
        }
        let ghost before = self@;
        let mut k: usize = 0;
        while k < cmds.len()
            invariant
                k <= cmds@.len(),
                m_cmds_match(*manifest, ids, cmds@),
                forall|k1: int, k2: int| 0 <= k1 < k2 < ids.len() ==> ids[k1] != ids[k2],
                forall|j: int| 0 <= j < ids.len() ==> !spec_bound(before, ids[j]),
                self@.len() == before.len() + k,
                forall|j: int| 0 <= j < before.len() ==> self@[j] == before[j],
                forall|j: int|
                    0 <= j < k ==> binding_id(self@, before.len() + j) == ids[j] && self@[before.len()
                        + j].instance == instance,
                self.wf(),
            decreases cmds@.len() - k,
        {
            let handle = CommandHandle {
                command: cmds[k].command.clone(),
                instance,
            };
            let ghost pre = self@;
            proof {
                assert(ids[k as int] == cmds@[k as int].command@);
                assert(handle.command@ == ids[k as int]);
                assert forall|j: int| 0 <= j < pre.len() implies binding_id(pre, j)
                    != ids[k as int] by {
                    if j < before.len() {
                        assert(binding_id(pre, j) == binding_id(before, j));
                        if binding_id(before, j) == ids[k as int] {
                            assert(spec_bound(before, ids[k as int]));
                        }
                    } else {
                        assert(binding_id(pre, j) == ids[j - before.len()]);
                    }
                }
            }
            self.bindings.push(handle);
            proof {
                assert(self@ == pre.push(handle));
                assert forall|k1: int, k2: int| 0 <= k1 < k2 < self@.len() implies binding_id(
                    self@,
                    k1,
                ) != binding_id(self@, k2) by {
                    assert(binding_id(self@, k1) == binding_id(pre, k1));
                    if k2 == self@.len() - 1 {
                        assert(binding_id(self@, k2) == handle.command@);
                    } else {
                        assert(binding_id(self@, k2) == binding_id(pre, k2));
                    }
                }
            }
            k += 1;
        }
        Ok(())
    }

    /// Looks a command id up; `None` exactly when it is not bound.
    pub fn resolve(&self, id: &str) -> (r: Option<CommandHandle>)
        ensures
            match r {
                Some(h) => spec_bound(self@, id@) && h.command@ == id@ && (exists|k: int|
                    0 <= k < self@.len() && self@[k] == h),
                None => !spec_bound(self@, id@),
            },
    {
        match self.find(id) {
            None => None,
            Some(k) => {
                let h = &self.bindings[k];
                Some(CommandHandle { command: h.command.clone(), instance: h.instance })
            },
        }
    }

    /// Removes every binding owned by `instance`, keeping the others
    /// in order.
    pub fn dispose(&mut self, instance: u64)
        requires
            old(self).wf(),
        ensures
            final(self).wf(),
            final(self)@ == old(self)@.filter(|h: CommandHandle| h.instance != instance),
    {
        let mut kept: Vec<CommandHandle> = Vec::new();
        let mut k: usize = 0;
        while k < self.bindings.len()
            invariant
                k <= self.bindings@.len(),
                kept@ == self.bindings@.take(k as int).filter(
                    |h: CommandHandle| h.instance != instance,
                ),
            decreases self.bindings@.len() - k,
        {
            let h = &self.bindings[k];
            proof {
                assert(self.bindings@.take(k as int + 1).drop_last() =~= self.bindings@.take(
                    k as int,
                ));
                reveal(Seq::filter);
            }
            if h.instance != instance {
                kept.push(CommandHandle { command: h.command.clone(), instance: h.instance });
            }
            k += 1;
        }
        proof {
            assert(self.bindings@.take(self.bindings@.len() as int) =~= self.bindings@);
        }
        self.bindings = kept;
        proof {
            lemma_filter_keeps_distinct(
                old(self)@,
                instance,
                old(self)@.filter(|h: CommandHandle| h.instance != instance),
            );
        }
    }
}

/// Filtering bindings preserves pairwise-distinct ids.
proof fn lemma_filter_keeps_distinct(bs: Seq<CommandHandle>, instance: u64, f: Seq<CommandHandle>)
    requires
        f == bs.filter(|h: CommandHandle| h.instance != instance),
        forall|k1: int, k2: int|
            0 <= k1 < k2 < bs.len() ==> binding_id(bs, k1) != binding_id(bs, k2),
    ensures
        forall|k1: int, k2: int|
            0 <= k1 < k2 < f.len() ==> binding_id(f, k1) != binding_id(f, k2),
{
    assert forall|k1: int, k2: int| 0 <= k1 < k2 < f.len() implies binding_id(f, k1)
        != binding_id(f, k2) by {
        let pred = |h: CommandHandle| h.instance != instance;
        lemma_filter_pair(bs, pred, k1, k2);
        let (j1, j2) = choose|j1: int, j2: int|
            0 <= j1 < j2 < bs.len() && bs[j1] == #[trigger] bs.filter(pred)[k1] && bs[j2]
                == #[trigger] bs.filter(pred)[k2];
        assert(binding_id(bs, j1) != binding_id(bs, j2));
        assert(f[k1] == bs[j1] && f[k2] == bs[j2]);
    }
}

/// Two positions of a filtered sequence come from two distinct
/// positions of the original, in order.
proof fn lemma_filter_pair<A>(s: Seq<A>, pred: spec_fn(A) -> bool, k1: int, k2: int)
    requires
        0 <= k1 < k2 < s.filter(pred).len(),
    ensures
        exists|j1: int, j2: int|
            0 <= j1 < j2 < s.len() && s[j1] == #[trigger] s.filter(pred)[k1] && s[j2]
                == #[trigger] s.filter(pred)[k2],
    decreases s.len(),
{
    reveal(Seq::filter);
    if s.len() == 0 {
    } else {
        let last = s.last();
        let prefix = s.drop_last();
        if pred(last) {
            let f = s.filter(pred);
            let fp = prefix.filter(pred);
            if k2 < f.len() - 1 {
                lemma_filter_pair(prefix, pred, k1, k2);
                let (j1, j2) = choose|j1: int, j2: int|
                    0 <= j1 < j2 < prefix.len() && prefix[j1] == #[trigger] fp[k1] && prefix[j2]
                        == #[trigger] fp[k2];
                assert(s[j1] == f[k1] && s[j2] == f[k2]);
            } else {
                lemma_filter_member(prefix, pred, k1);
                let j1 = choose|j1: int| 0 <= j1 < prefix.len() && prefix[j1] == #[trigger] fp[k1];
                assert(s[j1] == f[k1]);
                assert(s[s.len() - 1] == f[k2]);
            }
        } else {
            lemma_filter_pair(prefix, pred, k1, k2);
            let fp = prefix.filter(pred);
            let (j1, j2) = choose|j1: int, j2: int|
                0 <= j1 < j2 < prefix.len() && prefix[j1] == #[trigger] fp[k1] && prefix[j2]
                    == #[trigger] fp[k2];
            assert(s[j1] == s.filter(pred)[k1] && s[j2] == s.filter(pred)[k2]);
        }
    }
}

/// Every element of a filtered sequence occurs in the original.
proof fn lemma_filter_member<A>(s: Seq<A>, pred: spec_fn(A) -> bool, k: int)
    requires
        0 <= k < s.filter(pred).len(),
    ensures
        exists|j: int| 0 <= j < s.len() && s[j] == #[trigger] s.filter(pred)[k],
    decreases s.len(),
{
    reveal(Seq::filter);
    if s.len() == 0 {
    } else {
        let prefix = s.drop_last();
        let f = s.filter(pred);
        let fp = prefix.filter(pred);
        if pred(s.last()) && k == f.len() - 1 {
            assert(s[s.len() - 1] == f[k]);
        } else {
            lemma_filter_member(prefix, pred, k);
            let j = choose|j: int| 0 <= j < prefix.len() && prefix[j] == #[trigger] fp[k];
            assert(s[j] == f[k]);
        }
    }
}

} // verus!
