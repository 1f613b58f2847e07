//! Extension builder: turns a plugin source tree into a loadable
//! sandboxed binary artifact, memoized by content fingerprint.
//!
//! The toolchain invocation itself is outside work performed by the
//! embedding program; this module owns every decision around it: the
//! fingerprint, the cache lookup, the single in-flight build per
//! fingerprint, and the atomic write-then-publish sequence. A staged
//! artifact becomes visible to lookups only when it is published, so a
//! crash mid-write never leaves a partial artifact behind.

use vstd::prelude::*;
use crate::manifest::ExtensionManifest;

verus! {

/// The compiled sandboxed binary for one (manifest identity, source
/// content) pair, keyed by its content fingerprint. Immutable once
/// published.
#[derive(Debug, Clone, PartialEq, Eq)]
pub struct BuildArtifact {
    pub fingerprint: u64,
    pub module: Vec<u8>,
}

#[derive(Debug, Clone, PartialEq, Eq)]
pub enum BuildError {
    /// The source directory is not an absolute path.
    InvalidInput,
    /// Compiler diagnostics and exit status, surfaced verbatim and
    /// never retried.
    BuildFailed(String, i32),
}

/// What a build request decides; the embedding program acts on it.
#[derive(Debug, Clone, Copy, PartialEq, Eq, Structural)]
pub enum BuildStep {
    /// The source directory is relative: rejected, nothing happens.
    Reject,
    /// A published artifact with this fingerprint exists: no compile.
    CacheHit,
    /// Another build of this fingerprint is in flight: await it.
    AwaitInFlight,
    /// This caller starts the one compile for this fingerprint.
    StartCompile,
}

/// The first published artifact with fingerprint `fp`; fingerprints
/// are unique in a well-formed builder, so it is the only one.
pub open spec fn spec_cached(s: Seq<BuildArtifact>, fp: u64) -> Option<BuildArtifact>
    decreases s.len(),
{
    if s.len() == 0 {
        None
    } else if s[0].fingerprint == fp {
        Some(s[0])
    } else {
        spec_cached(s.drop_first(), fp)
    }
}

pub open spec fn spec_is_absolute(s: Seq<char>) -> bool {
    s.len() > 0 && s[0] == '/'
}

/// One step of the 64-bit FNV-1a hash.
pub open spec fn spec_fnv_step(h: u64, b: u8) -> u64 {
    vstd::wrapping::u64_specs::wrapping_mul(h ^ (b as u64), 0x100000001b3)
}

pub open spec fn spec_fnv(s: Seq<u8>, h: u64) -> u64
    decreases s.len(),
{
    if s.len() == 0 {
        h
    } else {
        spec_fnv(s.drop_first(), spec_fnv_step(h, s[0]))
    }
}

/// Content fingerprint of a source tree under a toolchain identity:
/// both are part of the cache key, so a toolchain change invalidates
/// prior artifacts.
pub open spec fn spec_fingerprint(source: Seq<u8>, toolchain: Seq<u8>) -> u64 {
    spec_fnv(toolchain, spec_fnv(source, 0xcbf29ce484222325))
}

/// What a build request must decide, given the visible cache, the
/// in-flight set, the source directory and the fingerprint.
pub open spec fn spec_build_step(
    committed: Seq<BuildArtifact>,
    in_flight: Seq<u64>,
    dir: Seq<char>,
    fp: u64,
) -> BuildStep {
    if !spec_is_absolute(dir) {
        BuildStep::Reject
    } else if spec_cached(committed, fp) is Some {
        BuildStep::CacheHit
    } else if in_flight.contains(fp) {
        BuildStep::AwaitInFlight
    } else {
        BuildStep::StartCompile
    }
}

pub struct ExtensionBuilder {
    cache_dir: String,
    committed: Vec<BuildArtifact>,
    staged: Option<BuildArtifact>,
    in_flight: Vec<u64>,
}

impl ExtensionBuilder {
    /// Published artifacts, in publication order.
    pub closed spec fn committed(self) -> Seq<BuildArtifact> {
        self.committed@
    }

    /// The artifact written to a temporary name but not yet renamed
    /// into place; invisible to lookups.
    pub closed spec fn staged(self) -> Option<BuildArtifact> {
        self.staged
    }

    /// Fingerprints with a build in flight.
    pub closed spec fn in_flight(self) -> Seq<u64> {
        self.in_flight@
    }

    pub closed spec fn cache_dir(self) -> Seq<char> {
        self.cache_dir@
    }

    /// Published fingerprints and in-flight markers are unique, and
    /// nothing in flight is already published.
    pub open spec fn wf(self) -> bool {
        &&& forall|k1: int, k2: int|
            0 <= k1 < k2 < self.committed().len() ==> (#[trigger] self.committed()[k1]).fingerprint
                != (#[trigger] self.committed()[k2]).fingerprint
        &&& forall|k1: int, k2: int|
            0 <= k1 < k2 < self.in_flight().len() ==> self.in_flight()[k1] != self.in_flight()[k2]
        &&& forall|k: int|
            0 <= k < self.in_flight().len() ==> spec_cached(
                self.committed(),
                #[trigger] self.in_flight()[k],
            ) is None
    }

    pub fn new(cache_dir: String) -> (r: ExtensionBuilder)
        ensures
            r.wf(),
            r.cache_dir() == cache_dir@,
            r.committed() == Seq::<BuildArtifact>::empty(),
            r.staged() is None,
            r.in_flight() == Seq::<u64>::empty(),
    {
        ExtensionBuilder {
            cache_dir,
            committed: Vec::new(),
            staged: None,
            in_flight: Vec::new(),
        }
    }

    /// Computes the cache fingerprint of a source tree under a
    /// toolchain identity. Deterministic: identical inputs always map
    /// to an identical fingerprint.
    pub fn compute_fingerprint(source: &Vec<u8>, toolchain: &Vec<u8>) -> (r: u64)
        ensures
            r == spec_fingerprint(source@, toolchain@),
    {
        let mut h: u64 = 0xcbf29ce484222325;
        let mut i: usize = 0;
        proof {
            assert(source@.skip(0) =~= source@);
        }
        while i < source.len()
            invariant
                i <= source@.len(),
                spec_fnv(source@.skip(i as int), h) == spec_fnv(source@, 0xcbf29ce484222325),
            decreases source@.len() - i,
        {
            proof {
                assert(source@.skip(i as int).drop_first() =~= source@.skip(i as int + 1));
                assert(source@.skip(i as int)[0] == source@[i as int]);
            }
            h = (h ^ (source[i] as u64)).wrapping_mul(0x100000001b3);
            i += 1;
        }
        let mut j: usize = 0;
        let ghost h_src = h;
        proof {
            assert(toolchain@.skip(0) =~= toolchain@);
        }
        while j < toolchain.len()
            invariant
                j <= toolchain@.len(),
                spec_fnv(toolchain@.skip(j as int), h) == spec_fnv(toolchain@, h_src),
                h_src == spec_fnv(source@, 0xcbf29ce484222325),
            decreases toolchain@.len() - j,
        {
            proof {
                assert(toolchain@.skip(j as int).drop_first() =~= toolchain@.skip(j as int + 1));
                assert(toolchain@.skip(j as int)[0] == toolchain@[j as int]);
            }
            h = (h ^ (toolchain[j] as u64)).wrapping_mul(0x100000001b3);
            j += 1;
        }
        h
    }

    fn find_committed(&self, fp: u64) -> (r: Option<usize>)
        ensures
            match r {
                Some(k) => 0 <= k < self.committed().len() && self.committed()[k as int].fingerprint
                    == fp && spec_cached(self.committed(), fp) == Some(
                    self.committed()[k as int],
                ),
                None => spec_cached(self.committed(), fp) is None,
            },
    {
        let mut k: usize = 0;
        while k < self.committed.len()
            invariant
                k <= self.committed().len(),
                forall|j: int| 0 <= j < k ==> (#[trigger] self.committed()[j]).fingerprint != fp,
            decreases self.committed().len() - k,
        {
            if self.committed[k].fingerprint == fp {
                proof {
                    lemma_cached_skip(self.committed(), fp, k as int);
                    assert(self.committed().skip(k as int)[0] == self.committed()[k as int]);
                }
                return Some(k);
            }
            k += 1;
        }
        proof {
            lemma_cached_skip(self.committed(), fp, self.committed().len() as int);
        }
        None
    }

    /// Looks the published cache up; the staged artifact is never
    /// visible here, whatever state a crash left it in.
    pub fn lookup_artifact(&self, fp: u64) -> (r: Option<&BuildArtifact>)
        ensures
            match r {
                Some(a) => spec_cached(self.committed(), fp) == Some(*a) && a.fingerprint == fp,
                None => spec_cached(self.committed(), fp) is None,
            },
    {
        match self.find_committed(fp) {
            Some(k) => Some(&self.committed[k]),
            None => None,
        }
    }

    fn find_in_flight(&self, fp: u64) -> (r: Option<usize>)
        ensures
            match r {
                Some(k) => 0 <= k < self.in_flight().len() && self.in_flight()[k as int] == fp
                    && self.in_flight().contains(fp),
                None => !self.in_flight().contains(fp),
            },
    {
        let mut k: usize = 0;
        while k < self.in_flight.len()
            invariant
                k <= self.in_flight().len(),
                forall|j: int| 0 <= j < k ==> self.in_flight()[j] != fp,
            decreases self.in_flight().len() - k,
        {
            if self.in_flight[k] == fp {
                return Some(k);
            }
            k += 1;
        }
        None
    }

    /// Decides one build request. Rejects a relative source directory;
    /// answers from the cache without compiling when the fingerprint is
    /// published; coalesces onto an in-flight build of the same
    /// fingerprint; otherwise marks the fingerprint in flight and tells
    /// this caller, alone, to compile.
    pub fn request_build(&mut self, source_dir: &str, fp: u64) -> (r: BuildStep)
        requires
            old(self).wf(),
        ensures
            final(self).wf(),
            r == spec_build_step(old(self).committed(), old(self).in_flight(), source_dir@, fp),
            final(self).committed() == old(self).committed(),
            final(self).staged() == old(self).staged(),
            final(self).cache_dir() == old(self).cache_dir(),
            r == BuildStep::StartCompile ==> final(self).in_flight() == old(self).in_flight().push(
                fp,
            ),
            r != BuildStep::StartCompile ==> final(self).in_flight() == old(self).in_flight(),
    {
        let abs = {
            let v = crate::text::chars_of(source_dir);
            v.len() > 0 && v[0] == '/'
        };
        if !abs {
            return BuildStep::Reject;
        }
        if self.find_committed(fp).is_some() {
            return BuildStep::CacheHit;
        }
        if self.find_in_flight(fp).is_some() {
            return BuildStep::AwaitInFlight;
        }
        self.in_flight.push(fp);
        proof {
            assert forall|k1: int, k2: int|
                0 <= k1 < k2 < self.in_flight().len() implies self.in_flight()[k1]
                != self.in_flight()[k2] by {
                if k2 < self.in_flight().len() - 1 {
                    assert(self.in_flight()[k1] == old(self).in_flight()[k1]);
                }
            }
        }
        BuildStep::StartCompile
    }

    /// Entry point of the build pipeline for one extension: rejects a
    /// relative source directory with `InvalidInput` — the build must
    /// be reproducible independent of the caller's working directory —
    /// and otherwise decides, for this manifest's fingerprint, between
    /// the cache, an in-flight build, and a fresh compile.
    pub fn compile_extension(
        &mut self,
        extension_dir: &str,
        extension_manifest: &ExtensionManifest,
        fp: u64,
    ) -> (r: Result<BuildStep, BuildError>)
        requires
            old(self).wf(),
        ensures
            final(self).wf(),
            final(self).committed() == old(self).committed(),
            final(self).staged() == old(self).staged(),
            final(self).cache_dir() == old(self).cache_dir(),
            r matches Err(e) ==> e == BuildError::InvalidInput && !spec_is_absolute(
                extension_dir@,
            ) && final(self).in_flight() == old(self).in_flight(),
            r matches Ok(step) ==> spec_is_absolute(extension_dir@) && step == spec_build_step(
                old(self).committed(),
                old(self).in_flight(),
                extension_dir@,
                fp,
            ) && (step == BuildStep::StartCompile ==> final(self).in_flight() == old(
                self,
            ).in_flight().push(fp)) && (step != BuildStep::StartCompile ==> final(self).in_flight()
                == old(self).in_flight()),
    {
        let _ = extension_manifest;
        let step = self.request_build(extension_dir, fp);
        match step {
            BuildStep::Reject => Err(BuildError::InvalidInput),
            _ => Ok(step),
        }
    }

    /// Writes a finished compile to the temporary name: staged, not
    /// yet visible. Models the write half of write-then-publish.
    pub fn stage_artifact(&mut self, artifact: BuildArtifact)
        requires
            old(self).wf(),
        ensures
            final(self).wf(),
            final(self).staged() == Some(artifact),
            final(self).committed() == old(self).committed(),
            final(self).in_flight() == old(self).in_flight(),
            final(self).cache_dir() == old(self).cache_dir(),
    {
        self.staged = Some(artifact);
    }

    /// A crash at any point before publication: whatever was staged is
    /// lost and every in-flight marker dies with the process, but the
    /// published cache is untouched — no partial artifact is ever
    /// visible under any fingerprint.
    pub fn crash(&mut self)
        requires
            old(self).wf(),
        ensures
            final(self).wf(),
            final(self).staged() is None,
            final(self).in_flight() == Seq::<u64>::empty(),
            final(self).committed() == old(self).committed(),
            final(self).cache_dir() == old(self).cache_dir(),
    {
        self.staged = None;
        self.in_flight = Vec::new();
    }

    /// Renames the staged artifact into place: it becomes visible to
    /// lookups in one step, and the in-flight marker for its
    /// fingerprint is released.
    pub fn publish(&mut self, fp: u64)
        requires
            old(self).wf(),
            old(self).staged() matches Some(a) && a.fingerprint == fp,
            spec_cached(old(self).committed(), fp) is None,
        ensures
            final(self).wf(),
            final(self).staged() is None,
            final(self).committed() == old(self).committed().push(old(self).staged()->Some_0),
            spec_cached(final(self).committed(), fp) == Some(old(self).staged()->Some_0),
            final(self).in_flight() == old(self).in_flight().filter(|g: u64| g != fp),
            final(self).cache_dir() == old(self).cache_dir(),
    {
        let mut staged: Option<BuildArtifact> = None;
        core::mem::swap(&mut self.staged, &mut staged);
        let artifact = match staged {
            Some(a) => a,
            None => vstd::pervasive::unreached(),
        };
        proof {
            lemma_cached_push(old(self).committed(), artifact, fp);
        }
        self.committed.push(artifact);
        let mut kept: Vec<u64> = Vec::new();
        let mut k: usize = 0;
        while k < self.in_flight.len()
            invariant
                k <= self.in_flight@.len(),
                kept@ == self.in_flight@.take(k as int).filter(|g: u64| g != fp),
            decreases self.in_flight@.len() - k,
        {
            let g = self.in_flight[k];
            proof {
                assert(self.in_flight@.take(k as int + 1).drop_last() =~= self.in_flight@.take(
                    k as int,
                ));
                reveal(Seq::filter);
            }
            if g != fp {
                kept.push(g);
            }
            k += 1;
        }
        proof {
            assert(self.in_flight@.take(self.in_flight@.len() as int) =~= self.in_flight@);
        }
        self.in_flight = kept;
        proof {
            lemma_publish_wf(*old(self), *self, fp);
        }
    }

    /// Surfaces a failed compile verbatim and releases the in-flight
    /// marker; the cache is unchanged and nothing retries.
    pub fn fail_build(&mut self, fp: u64, stderr: String, status: i32) -> (r: BuildError)
        requires
            old(self).wf(),
        ensures
            final(self).wf(),
            r == BuildError::BuildFailed(stderr, status),
            final(self).committed() == old(self).committed(),
            final(self).staged() == old(self).staged(),
            final(self).in_flight() == old(self).in_flight().filter(|g: u64| g != fp),
            final(self).cache_dir() == old(self).cache_dir(),
    {
        let mut kept: Vec<u64> = Vec::new();
        let mut k: usize = 0;
        while k < self.in_flight.len()
            invariant
                k <= self.in_flight@.len(),
                kept@ == self.in_flight@.take(k as int).filter(|g: u64| g != fp),
            decreases self.in_flight@.len() - k,
        {
            let g = self.in_flight[k];
            proof {
                assert(self.in_flight@.take(k as int + 1).drop_last() =~= self.in_flight@.take(
                    k as int,
                ));
                reveal(Seq::filter);
            }
            if g != fp {
                kept.push(g);
            }
            k += 1;
        }
        proof {
            assert(self.in_flight@.take(self.in_flight@.len() as int) =~= self.in_flight@);
        }
        self.in_flight = kept;
        proof {
            lemma_fail_wf(*old(self), *self, fp);
        }
        BuildError::BuildFailed(stderr, status)
    }
}

/// Skipping entries whose fingerprint differs does not change the
/// cache lookup.
proof fn lemma_cached_skip(s: Seq<BuildArtifact>, fp: u64, k: int)
    requires
        0 <= k <= s.len(),
        forall|j: int| 0 <= j < k ==> (#[trigger] s[j]).fingerprint != fp,
    ensures
        spec_cached(s, fp) == spec_cached(s.skip(k), fp),
    decreases k,
{
    if k == 0 {
        assert(s.skip(0) =~= s);
    } else {
        assert(s.drop_first() =~= s.skip(1));
        assert forall|j: int| 0 <= j < k - 1 implies (#[trigger] s.skip(1)[j]).fingerprint
            != fp by {
            assert(s.skip(1)[j] == s[j + 1]);
        }
        lemma_cached_skip(s.skip(1), fp, k - 1);
        assert(s.skip(1).skip(k - 1) =~= s.skip(k));
    }
}

/// Appending an artifact with a fresh fingerprint makes it, and only
/// it, newly visible.
proof fn lemma_cached_push(s: Seq<BuildArtifact>, a: BuildArtifact, fp: u64)
    requires
        spec_cached(s, a.fingerprint) is None,
    ensures
        spec_cached(s.push(a), a.fingerprint) == Some(a),
        forall|g: u64| g != a.fingerprint ==> spec_cached(s.push(a), g) == spec_cached(s, g),
    decreases s.len(),
{
    if s.len() == 0 {
        assert(s.push(a)[0] == a);
        assert(spec_cached(s.push(a), a.fingerprint) == Some(a));
        assert forall|g: u64| g != a.fingerprint implies spec_cached(s.push(a), g) == spec_cached(
            s,
            g,
        ) by {
            assert(s.push(a).drop_first() =~= Seq::<BuildArtifact>::empty());
            assert(spec_cached(s.push(a), g) == spec_cached(s.push(a).drop_first(), g));
            assert(spec_cached(Seq::<BuildArtifact>::empty(), g) is None);
            assert(spec_cached(s, g) is None);
        }
    } else {
        assert(s[0].fingerprint != a.fingerprint);
        assert(spec_cached(s.drop_first(), a.fingerprint) is None);
        lemma_cached_push(s.drop_first(), a, fp);
        assert(s.push(a).drop_first() =~= s.drop_first().push(a));
        assert(s.push(a)[0] == s[0]);
        assert(spec_cached(s.push(a), a.fingerprint) == spec_cached(
            s.drop_first().push(a),
            a.fingerprint,
        ));
        assert forall|g: u64| g != a.fingerprint implies spec_cached(s.push(a), g) == spec_cached(
            s,
            g,
        ) by {
            if s[0].fingerprint == g {
            } else {
                assert(spec_cached(s.push(a), g) == spec_cached(s.drop_first().push(a), g));
                assert(spec_cached(s, g) == spec_cached(s.drop_first(), g));
            }
        }
    }
}

proof fn lemma_publish_wf(pre: ExtensionBuilder, post: ExtensionBuilder, fp: u64)
    requires
        pre.wf(),
        pre.staged() matches Some(a) && a.fingerprint == fp,
        spec_cached(pre.committed(), fp) is None,
        post.committed() == pre.committed().push(pre.staged()->Some_0),
        post.in_flight() == pre.in_flight().filter(|g: u64| g != fp),
    ensures
        post.wf(),
{
    let a = pre.staged()->Some_0;
    lemma_cached_push(pre.committed(), a, fp);
    assert forall|k1: int, k2: int|
        0 <= k1 < k2 < post.committed().len() implies (#[trigger] post.committed()[k1]).fingerprint
        != (#[trigger] post.committed()[k2]).fingerprint by {
        if k2 == post.committed().len() - 1 {
            if post.committed()[k1].fingerprint == fp {
                lemma_cached_first(pre.committed(), fp, k1);
            }
        }
    }
    lemma_filter_unique(pre.in_flight(), fp, post.in_flight());
    assert forall|k: int| 0 <= k < post.in_flight().len() implies spec_cached(
        post.committed(),
        #[trigger] post.in_flight()[k],
    ) is None by {
        lemma_filter_elem_u64(pre.in_flight(), |g: u64| g != fp, k);
        let g = post.in_flight()[k];
        assert(pre.in_flight().contains(g));
        let j = choose|j: int| 0 <= j < pre.in_flight().len() && pre.in_flight()[j] == g;
        assert(spec_cached(pre.committed(), g) is None);
        assert(g != fp);
    }
}

proof fn lemma_fail_wf(pre: ExtensionBuilder, post: ExtensionBuilder, fp: u64)
    requires
        pre.wf(),
        post.committed() == pre.committed(),
        post.in_flight() == pre.in_flight().filter(|g: u64| g != fp),
    ensures
        post.wf(),
{
    lemma_filter_unique(pre.in_flight(), fp, post.in_flight());
    assert forall|k: int| 0 <= k < post.in_flight().len() implies spec_cached(
        post.committed(),
        #[trigger] post.in_flight()[k],
    ) is None by {
        lemma_filter_elem_u64(pre.in_flight(), |g: u64| g != fp, k);
        let g = post.in_flight()[k];
        let j = choose|j: int| 0 <= j < pre.in_flight().len() && pre.in_flight()[j] == g;
        assert(spec_cached(pre.committed(), g) is None);
    }
}

/// If some entry of `s` carries `fp`, the cache lookup finds one.
proof fn lemma_cached_first(s: Seq<BuildArtifact>, fp: u64, k: int)
    requires
        0 <= k < s.len(),
        s[k].fingerprint == fp,
    ensures
        spec_cached(s, fp) is Some,
    decreases s.len(),
{
    if s[0].fingerprint != fp {
        assert(s.drop_first()[k - 1] == s[k]);
        lemma_cached_first(s.drop_first(), fp, k - 1);
    }
}

/// Filtering a duplicate-free sequence keeps it duplicate-free.
proof fn lemma_filter_unique(s: Seq<u64>, fp: u64, f: Seq<u64>)
    requires
        f == s.filter(|g: u64| g != fp),
        forall|k1: int, k2: int| 0 <= k1 < k2 < s.len() ==> s[k1] != s[k2],
    ensures
        forall|k1: int, k2: int| 0 <= k1 < k2 < f.len() ==> f[k1] != f[k2],
{
    let pred = |g: u64| g != fp;
    assert forall|k1: int, k2: int| 0 <= k1 < k2 < f.len() implies #[trigger] f[k1]
        != #[trigger] f[k2] by {
        lemma_filter_pair_u64(s, pred, k1, k2);
        let (j1, j2) = choose|j1: int, j2: int|
            0 <= j1 < j2 < s.len() && s[j1] == #[trigger] s.filter(pred)[k1] && s[j2]
                == #[trigger] s.filter(pred)[k2];
        assert(s[j1] != s[j2]);
    }
}

proof fn lemma_filter_pair_u64(s: Seq<u64>, pred: spec_fn(u64) -> bool, k1: int, k2: int)
    requires
        0 <= k1 < k2 < s.filter(pred).len(),
    ensures
        exists|j1: int, j2: int|
            0 <= j1 < j2 < s.len() && s[j1] == #[trigger] s.filter(pred)[k1] && s[j2]
                == #[trigger] s.filter(pred)[k2],
    decreases s.len(),
{
    reveal(Seq::filter);
    if s.len() == 0 {
    } else {
        let prefix = s.drop_last();
        let f = s.filter(pred);
        let fp2 = prefix.filter(pred);
        if pred(s.last()) {
            if k2 < f.len() - 1 {
                lemma_filter_pair_u64(prefix, pred, k1, k2);
                let (j1, j2) = choose|j1: int, j2: int|
                    0 <= j1 < j2 < prefix.len() && prefix[j1] == #[trigger] fp2[k1] && prefix[j2]
                        == #[trigger] fp2[k2];
                assert(s[j1] == f[k1] && s[j2] == f[k2]);
            } else {
                lemma_filter_elem_u64(prefix, pred, k1);
                let j1 = choose|j1: int| 0 <= j1 < prefix.len() && prefix[j1] == #[trigger] fp2[k1];
                assert(s[j1] == f[k1]);
                assert(s[s.len() - 1] == f[k2]);
            }
        } else {
            lemma_filter_pair_u64(prefix, pred, k1, k2);
            let (j1, j2) = choose|j1: int, j2: int|
                0 <= j1 < j2 < prefix.len() && prefix[j1] == #[trigger] fp2[k1] && prefix[j2]
                    == #[trigger] fp2[k2];
            assert(s[j1] == f[k1] && s[j2] == f[k2]);
        }
    }
}

/// Every element of a filtered sequence occurs in, and satisfies the
/// predicate of, the original.
proof fn lemma_filter_elem_u64(s: Seq<u64>, pred: spec_fn(u64) -> bool, k: int)
    requires
        0 <= k < s.filter(pred).len(),
    ensures
        exists|j: int| 0 <= j < s.len() && s[j] == #[trigger] s.filter(pred)[k],
        pred(s.filter(pred)[k]),
    decreases s.len(),
{
    reveal(Seq::filter);
    if s.len() == 0 {
    } else {
        let prefix = s.drop_last();
        let f = s.filter(pred);
        let fp2 = prefix.filter(pred);
        if pred(s.last()) && k == f.len() - 1 {
            assert(s[s.len() - 1] == f[k]);
        } else {
            lemma_filter_elem_u64(prefix, pred, k);
            let j = choose|j: int| 0 <= j < prefix.len() && prefix[j] == #[trigger] fp2[k];
            assert(s[j] == f[k]);
        }
    }
}

/// An idempotent build: once an artifact with fingerprint `fp` is
/// published, every later request for `fp` from an absolute source
/// directory is answered from the cache, and no compile starts.
pub proof fn lemma_second_build_hits_cache(
    committed: Seq<BuildArtifact>,
    in_flight: Seq<u64>,
    dir: Seq<char>,
    fp: u64,
)
    requires
        spec_is_absolute(dir),
        spec_cached(committed, fp) is Some,
    ensures
        spec_build_step(committed, in_flight, dir, fp) == BuildStep::CacheHit,
{
}

/// Coalescing: while one caller's build of `fp` is in flight, a second
/// request for the same fingerprint joins it instead of starting a
/// second compile.
pub proof fn lemma_concurrent_requests_coalesce(
    committed: Seq<BuildArtifact>,
    in_flight: Seq<u64>,
    dir: Seq<char>,
    fp: u64,
)
    requires
        spec_is_absolute(dir),
        spec_build_step(committed, in_flight, dir, fp) == BuildStep::StartCompile,
    ensures
        spec_build_step(committed, in_flight.push(fp), dir, fp) == BuildStep::AwaitInFlight,
{
    assert(in_flight.push(fp)[in_flight.len() as int] == fp);
    assert(in_flight.push(fp).contains(fp));
}

} // verus!
