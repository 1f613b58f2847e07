//! Component host: owns the running instances and their lifecycle
//! across the sandbox boundary.
//!
//! The guest actually runs outside this module, on the embedding
//! program's runtime; this module decides what each invocation is
//! allowed to do and what every possible guest outcome does to host
//! state. A guest fault is confined to its own instance: reporting an
//! outcome for one instance never changes any other, which is the
//! core fault-isolation invariant.

use vstd::prelude::*;
use crate::builder::BuildArtifact;

verus! {

#[derive(Debug, Clone, Copy, PartialEq, Eq, Structural)]
pub enum InstanceStatus {
    /// Loaded and ready for the next invocation.
    Idle,
    /// One guest call is in flight; calls on one instance serialize.
    Invoking,
    /// Unloaded or torn down; it must be reloaded before further use.
    Unloaded,
}

/// A running sandbox context bound to one artifact.
#[derive(Debug, Clone, Copy, PartialEq, Eq, Structural)]
pub struct ExtensionInstance {
    pub id: u64,
    pub fingerprint: u64,
    pub status: InstanceStatus,
}

#[derive(Debug, Clone, Copy, PartialEq, Eq, Structural)]
pub enum HostError {
    /// The guest trapped or exhausted a resource; caught at the
    /// sandbox boundary.
    ExecutionError,
    /// The invocation exceeded its wall-clock timeout; the instance
    /// was forcibly terminated.
    ExecutionTimeout,
    /// The instance is unloaded or was never loaded.
    InstanceGone,
    /// A call is already in flight on this instance; invocations on
    /// one instance are strictly serialized.
    InstanceBusy,
}

/// What the sandbox runner reports back for one guest call.
#[derive(Debug, Clone, PartialEq, Eq)]
pub enum GuestOutcome {
    /// The dispatch export returned a result payload.
    Success(Vec<u8>),
    /// The guest trapped; the diagnostic is confined to this call.
    Trap(String),
    /// The wall-clock timeout fired before the guest returned.
    Timeout,
}

/// The status of instance `id`, if it was ever loaded.
pub open spec fn spec_status(s: Seq<ExtensionInstance>, id: u64) -> Option<InstanceStatus>
    decreases s.len(),
{
    if s.len() == 0 {
        None
    } else if s[0].id == id {
        Some(s[0].status)
    } else {
        spec_status(s.drop_first(), id)
    }
}

/// What `begin_invoke` must decide for instance `id`.
pub open spec fn spec_invoke_step(s: Seq<ExtensionInstance>, id: u64) -> Result<(), HostError> {
    match spec_status(s, id) {
        None => Err(HostError::InstanceGone),
        Some(InstanceStatus::Unloaded) => Err(HostError::InstanceGone),
        Some(InstanceStatus::Invoking) => Err(HostError::InstanceBusy),
        Some(InstanceStatus::Idle) => Ok(()),
    }
}

pub struct ComponentHost {
    instances: Vec<ExtensionInstance>,
    next_id: u64,
}

impl ComponentHost {
    pub closed spec fn view(self) -> Seq<ExtensionInstance> {
        self.instances@
    }

    pub closed spec fn next_id(self) -> u64 {
        self.next_id
    }

    /// Instance ids are unique and below the id counter.
    pub open spec fn wf(self) -> bool {
        &&& forall|k1: int, k2: int|
            0 <= k1 < k2 < self@.len() ==> (#[trigger] self@[k1]).id != (#[trigger] self@[k2]).id
        &&& forall|k: int| 0 <= k < self@.len() ==> (#[trigger] self@[k]).id < self.next_id()
    }

    pub fn new() -> (r: ComponentHost)
        ensures
            r.wf(),
            r@ == Seq::<ExtensionInstance>::empty(),
            r.next_id() == 0,
    {
        ComponentHost { instances: Vec::new(), next_id: 0 }
    }

    fn find(&self, id: u64) -> (r: Option<usize>)
        ensures
            match r {
                Some(k) => 0 <= k < self@.len() && self@[k as int].id == id && spec_status(
                    self@,
                    id,
                ) == Some(self@[k as int].status),
                None => spec_status(self@, id) is None,
            },
    {
        let mut k: usize = 0;
        while k < self.instances.len()
            invariant
                k <= self@.len(),
                forall|j: int| 0 <= j < k ==> (#[trigger] self@[j]).id != id,
            decreases self@.len() - k,
        {
            if self.instances[k].id == id {
                proof {
                    lemma_status_skip(self@, id, k as int);
                    assert(self@.skip(k as int)[0] == self@[k as int]);
                }
                return Some(k);
            }
            k += 1;
        }
        proof {
            lemma_status_skip(self@, id, self@.len() as int);
        }
        None
    }

    /// Creates an isolated execution context for the artifact, with
    /// its own linear memory and a fresh id; capabilities default to
    /// none. The new instance starts idle; every other instance is
    /// untouched.
    pub fn load(&mut self, artifact: &BuildArtifact) -> (id: u64)
        requires
            old(self).wf(),
            old(self).next_id() < u64::MAX,
        ensures
            final(self).wf(),
            id == old(self).next_id(),
            spec_status(old(self)@, id) is None,
            final(self)@ == old(self)@.push(
                ExtensionInstance {
                    id,
                    fingerprint: artifact.fingerprint,
                    status: InstanceStatus::Idle,
                },
            ),
            spec_status(final(self)@, id) == Some(InstanceStatus::Idle),
            final(self).next_id() == old(self).next_id() + 1,
            forall|g: u64| g != id ==> spec_status(final(self)@, g) == spec_status(old(self)@, g),
    {
        let id = self.next_id;
        let inst = ExtensionInstance {
            id,
            fingerprint: artifact.fingerprint,
            status: InstanceStatus::Idle,
        };
        proof {
            lemma_status_fresh(self@, id);
            lemma_status_push(self@, inst);
        }
        self.instances.push(inst);
        self.next_id = self.next_id + 1;
        id
    }

    /// Admits one guest call on `id`: fails with `InstanceGone` when
    /// the instance is absent or unloaded, `InstanceBusy` while another
    /// call is in flight, and otherwise marks the instance invoking.
    /// No other instance changes.
    pub fn begin_invoke(&mut self, id: u64) -> (r: Result<(), HostError>)
        requires
            old(self).wf(),
        ensures
            final(self).wf(),
            r == spec_invoke_step(old(self)@, id),
            final(self).next_id() == old(self).next_id(),
            r is Ok ==> spec_status(final(self)@, id) == Some(InstanceStatus::Invoking),
            r is Err ==> final(self)@ == old(self)@,
            forall|g: u64| g != id ==> spec_status(final(self)@, g) == spec_status(old(self)@, g),
    {
        let k = match self.find(id) {
            None => {
                return Err(HostError::InstanceGone);
            },
            Some(k) => k,
        };
        let status = self.instances[k].status;
        match status {
            InstanceStatus::Unloaded => Err(HostError::InstanceGone),
            InstanceStatus::Invoking => Err(HostError::InstanceBusy),
            InstanceStatus::Idle => {
                let inst = ExtensionInstance {
                    id,
                    fingerprint: self.instances[k].fingerprint,
                    status: InstanceStatus::Invoking,
                };
                proof {
                    lemma_status_update(self@, k as int, inst);
                }
                self.instances.set(k, inst);
                Ok(())
            },
        }
    }

    /// Applies what the sandbox reported for the call in flight on
    /// `id`. A success returns the payload and the instance goes back
    /// to idle. A trap is converted to `ExecutionError`, confined to
    /// this instance, which stays loaded. A timeout terminates the
    /// instance: it is torn down and must be reloaded before further
    /// use. In every case, every other instance is untouched.
    pub fn finish_invoke(&mut self, id: u64, outcome: GuestOutcome) -> (r: Result<
        Vec<u8>,
        HostError,
    >)
        requires
            old(self).wf(),
            spec_status(old(self)@, id) == Some(InstanceStatus::Invoking),
        ensures
            final(self).wf(),
            final(self).next_id() == old(self).next_id(),
            match outcome {
                GuestOutcome::Success(p) => r == Ok::<Vec<u8>, HostError>(p) && spec_status(
                    final(self)@,
                    id,
                ) == Some(InstanceStatus::Idle),
                GuestOutcome::Trap(_) => r == Err::<Vec<u8>, HostError>(HostError::ExecutionError)
                    && spec_status(final(self)@, id) == Some(InstanceStatus::Idle),
                GuestOutcome::Timeout => r == Err::<Vec<u8>, HostError>(
                    HostError::ExecutionTimeout,
                ) && spec_status(final(self)@, id) == Some(InstanceStatus::Unloaded),
            },
            forall|g: u64| g != id ==> spec_status(final(self)@, g) == spec_status(old(self)@, g),
    {
        let k = match self.find(id) {
            None => vstd::pervasive::unreached(),
            Some(k) => k,
        };
        let fingerprint = self.instances[k].fingerprint;
        match outcome {
            GuestOutcome::Success(p) => {
                let inst = ExtensionInstance { id, fingerprint, status: InstanceStatus::Idle };
                proof {
                    lemma_status_update(self@, k as int, inst);
                }
                self.instances.set(k, inst);
                Ok(p)
            },
            GuestOutcome::Trap(_) => {
                let inst = ExtensionInstance { id, fingerprint, status: InstanceStatus::Idle };
                proof {
                    lemma_status_update(self@, k as int, inst);
                }
                self.instances.set(k, inst);
                Err(HostError::ExecutionError)
            },
            GuestOutcome::Timeout => {
                let inst = ExtensionInstance { id, fingerprint, status: InstanceStatus::Unloaded };
                proof {
                    lemma_status_update(self@, k as int, inst);
                }
                self.instances.set(k, inst);
                Err(HostError::ExecutionTimeout)
            },
        }
    }

    /// Releases the instance's memory and capability handles; further
    /// invocations on it fail with `InstanceGone`.
    pub fn unload(&mut self, id: u64) -> (r: Result<(), HostError>)
        requires
            old(self).wf(),
        ensures
            final(self).wf(),
            final(self).next_id() == old(self).next_id(),
            match r {
                Ok(()) => spec_status(old(self)@, id) is Some && spec_status(final(self)@, id)
                    == Some(InstanceStatus::Unloaded),
                Err(e) => e == HostError::InstanceGone && spec_status(old(self)@, id) is None
                    && final(self)@ == old(self)@,
            },
            forall|g: u64| g != id ==> spec_status(final(self)@, g) == spec_status(old(self)@, g),
    {
        let k = match self.find(id) {
            None => {
                return Err(HostError::InstanceGone);
            },
            Some(k) => k,
        };
        let inst = ExtensionInstance {
            id,
            fingerprint: self.instances[k].fingerprint,
            status: InstanceStatus::Unloaded,
        };
        proof {
            lemma_status_update(self@, k as int, inst);
        }
        self.instances.set(k, inst);
        Ok(())
    }

    /// The status of an instance, as `spec_status` sees it.
    pub fn status_of(&self, id: u64) -> (r: Option<InstanceStatus>)
        ensures
            r == spec_status(self@, id),
    {
        match self.find(id) {
            None => None,
            Some(k) => Some(self.instances[k].status),
        }
    }
}

/// Skipping entries with other ids does not change the status lookup.
proof fn lemma_status_skip(s: Seq<ExtensionInstance>, id: u64, k: int)
    requires
        0 <= k <= s.len(),
        forall|j: int| 0 <= j < k ==> (#[trigger] s[j]).id != id,
    ensures
        spec_status(s, id) == spec_status(s.skip(k), id),
    decreases k,
{
    if k == 0 {
        assert(s.skip(0) =~= s);
    } else {
        assert(s.drop_first() =~= s.skip(1));
        assert forall|j: int| 0 <= j < k - 1 implies (#[trigger] s.skip(1)[j]).id != id by {
            assert(s.skip(1)[j] == s[j + 1]);
        }
        lemma_status_skip(s.skip(1), id, k - 1);
        assert(s.skip(1).skip(k - 1) =~= s.skip(k));
    }
}

/// An id that no entry carries resolves to no status.
proof fn lemma_status_fresh(s: Seq<ExtensionInstance>, id: u64)
    requires
        forall|k: int| 0 <= k < s.len() ==> (#[trigger] s[k]).id != id,
    ensures
        spec_status(s, id) is None,
    decreases s.len(),
{
    if s.len() > 0 {
        lemma_status_fresh(s.drop_first(), id);
    }
}

/// Appending a fresh instance adds its status and keeps the others.
proof fn lemma_status_push(s: Seq<ExtensionInstance>, inst: ExtensionInstance)
    requires
        forall|k: int| 0 <= k < s.len() ==> (#[trigger] s[k]).id != inst.id,
    ensures
        spec_status(s.push(inst), inst.id) == Some(inst.status),
        forall|g: u64| g != inst.id ==> spec_status(s.push(inst), g) == spec_status(s, g),
    decreases s.len(),
{
    if s.len() == 0 {
        assert(s.push(inst)[0] == inst);
        assert forall|g: u64| g != inst.id implies spec_status(s.push(inst), g) == spec_status(
            s,
            g,
        ) by {
            assert(s.push(inst).drop_first() =~= Seq::<ExtensionInstance>::empty());
            assert(spec_status(s.push(inst), g) == spec_status(s.push(inst).drop_first(), g));
        }
    } else {
        assert forall|k: int| 0 <= k < s.drop_first().len() implies (#[trigger] s.drop_first()[k]).id
            != inst.id by {
            assert(s.drop_first()[k] == s[k + 1]);
        }
        lemma_status_push(s.drop_first(), inst);
        assert(s.push(inst).drop_first() =~= s.drop_first().push(inst));
        assert(s.push(inst)[0] == s[0]);
        assert forall|g: u64| g != inst.id implies spec_status(s.push(inst), g) == spec_status(
            s,
            g,
        ) by {
            if s[0].id != g {
                assert(spec_status(s.push(inst), g) == spec_status(s.drop_first().push(inst), g));
                assert(spec_status(s, g) == spec_status(s.drop_first(), g));
            }
        }
    }
}

/// Replacing entry `k` by an instance with the same id rewrites its
/// status and keeps every other status.
proof fn lemma_status_update(s: Seq<ExtensionInstance>, k: int, inst: ExtensionInstance)
    requires
        0 <= k < s.len(),
        s[k].id == inst.id,
        forall|k1: int, k2: int|
            0 <= k1 < k2 < s.len() ==> (#[trigger] s[k1]).id != (#[trigger] s[k2]).id,
    ensures
        spec_status(s.update(k, inst), inst.id) == Some(inst.status),
        forall|g: u64| g != inst.id ==> spec_status(s.update(k, inst), g) == spec_status(s, g),
    decreases k,
{
    if k == 0 {
        assert(s.update(0, inst)[0] == inst);
        assert forall|g: u64| g != inst.id implies spec_status(s.update(0, inst), g) == spec_status(
            s,
            g,
        ) by {
            assert(s.update(0, inst).drop_first() =~= s.drop_first());
            assert(spec_status(s.update(0, inst), g) == spec_status(s.update(0, inst).drop_first(), g));
            assert(spec_status(s, g) == spec_status(s.drop_first(), g));
        }
    } else {
        assert(s[0].id != inst.id);
        assert forall|k1: int, k2: int|
            0 <= k1 < k2 < s.drop_first().len() implies (#[trigger] s.drop_first()[k1]).id
            != (#[trigger] s.drop_first()[k2]).id by {
            assert(s.drop_first()[k1] == s[k1 + 1]);
            assert(s.drop_first()[k2] == s[k2 + 1]);
        }
        assert(s.drop_first()[k - 1] == s[k]);
        lemma_status_update(s.drop_first(), k - 1, inst);
        assert(s.update(k, inst).drop_first() =~= s.drop_first().update(k - 1, inst));
        assert(s.update(k, inst)[0] == s[0]);
        assert(spec_status(s.update(k, inst), inst.id) == spec_status(
            s.drop_first().update(k - 1, inst),
            inst.id,
        ));
        assert forall|g: u64| g != inst.id implies spec_status(s.update(k, inst), g) == spec_status(
            s,
            g,
        ) by {
            if s[0].id != g {
                assert(spec_status(s.update(k, inst), g) == spec_status(
                    s.drop_first().update(k - 1, inst),
                    g,
                ));
                assert(spec_status(s, g) == spec_status(s.drop_first(), g));
            }
        }
    }
}

/// Fault isolation: whatever outcome one instance's call had — and a
/// trap in particular — any other instance that was idle is still
/// idle and still admits an invocation.
pub proof fn lemma_fault_isolated(
    pre: Seq<ExtensionInstance>,
    post: Seq<ExtensionInstance>,
    faulted: u64,
    other: u64,
)
    requires
        other != faulted,
        spec_status(pre, other) == Some(InstanceStatus::Idle),
        forall|g: u64| g != faulted ==> spec_status(post, g) == spec_status(pre, g),
    ensures
        spec_status(post, other) == Some(InstanceStatus::Idle),
        spec_invoke_step(post, other) == Ok::<(), HostError>(()),
{
}

/// A timed-out instance is gone: once its status is `Unloaded`, every
/// later invocation on it fails with `InstanceGone`.
pub proof fn lemma_timed_out_instance_gone(s: Seq<ExtensionInstance>, id: u64)
    requires
        spec_status(s, id) == Some(InstanceStatus::Unloaded),
    ensures
        spec_invoke_step(s, id) == Err::<(), HostError>(HostError::InstanceGone),
{
}

} // verus!
