use vstd::prelude::*;

verus! {

/// What a build-or-fetch caller must do for one destination path.
///
/// The thumbnail store itself (the file at the destination path) is the
/// cache-hit signal: `Fetch` means the destination exists and its bytes are
/// returned unchanged, `Build` means this caller won the right to run the
/// transform and write the file, `Wait` means another caller is already
/// building it and this one must wait for that result.
pub enum BuildDecision {
    Fetch,
    Build,
    Wait,
}

/// The build-or-fetch rule: an existing destination is fetched, a
/// destination under construction is waited for, and only an absent, idle
/// destination is built — by exactly one caller.
pub open spec fn spec_decision(cached: bool, building: bool) -> BuildDecision {
    if cached {
        BuildDecision::Fetch
    } else if building {
        BuildDecision::Wait
    } else {
        BuildDecision::Build
    }
}

/// Decide what a caller must do, given whether the destination file exists
/// and whether a build for it is already in flight.
pub fn decide_build(cached: bool, building: bool) -> (d: BuildDecision)
    ensures
        d == spec_decision(cached, building),
{
    if cached {
        BuildDecision::Fetch
    } else if building {
        BuildDecision::Wait
    } else {
        BuildDecision::Build
    }
}

/// The in-flight marker set: destination paths whose build is under way.
///
/// This is the thumbnail cache's only shared mutable state; a caller that
/// receives `true` from `try_begin` owns the build for that path until it
/// calls `finish`, and no second concurrent builder can exist for the path.
pub struct InFlight {
    paths: Vec<String>,
}

impl InFlight {
    /// The paths currently marked as building.
    pub closed spec fn building(self) -> Seq<Seq<char>> {
        self.paths@.map_values(|p: String| p@)
    }

    /// No path is marked twice.
    pub closed spec fn wf(self) -> bool {
        forall|i: int, j: int|
            0 <= i < j < self.building().len() ==> self.building()[i] != self.building()[j]
    }

    /// An empty marker set.
    pub fn new() -> (s: InFlight)
        ensures
            s.wf(),
            s.building().len() == 0,
    {
        InFlight { paths: Vec::new() }
    }

    /// Whether a build for `dest` is marked as under way.
    pub fn contains(&self, dest: &String) -> (b: bool)
        ensures
            b == self.building().contains(dest@),
    {
        let n = self.paths.len();
        for i in 0..n
            invariant
                n == self.paths.len(),
                forall|j: int| 0 <= j < i ==> self.building()[j] != dest@,
        {
            if self.paths[i].eq(dest) {
                assert(self.building()[i as int] == dest@);
                return true;
            }
        }
        false
    }

    /// Claim the build for `dest`: succeeds, and marks the path, exactly
    /// when no build for it is already marked.  The caller that receives
    /// `true` is the path's only builder until it calls `finish`.
    pub fn try_begin(&mut self, dest: &String) -> (won: bool)
        requires
            old(self).wf(),
        ensures
            final(self).wf(),
            won == !old(self).building().contains(dest@),
            final(self).building() == if won {
                old(self).building().push(dest@)
            } else {
                old(self).building()
            },
    {
        if self.contains(dest) {
            false
        } else {
            let ghost before = self.building();
            self.paths.push(dest.clone());
            assert(self.building() =~= before.push(dest@));
            true
        }
    }

    /// Clear the marker for `dest` once its build has completed or failed.
    /// Clearing happens exactly once per build, by the builder.
    pub fn finish(&mut self, dest: &String)
        requires
            old(self).wf(),
        ensures
            final(self).wf(),
            !final(self).building().contains(dest@),
            forall|p: Seq<char>|
                p != dest@ ==> final(self).building().contains(p) == old(
                    self,
                ).building().contains(p),
    {
        let n = self.paths.len();
        for i in 0..n
            invariant
                n == self.paths.len(),
                self.wf(),
                self == old(self),
                forall|j: int| 0 <= j < i ==> self.building()[j] != dest@,
        {
            if self.paths[i].eq(dest) {
                let ghost before = self.building();
                assert(before[i as int] == dest@);
                self.paths.remove(i);
                assert(self.building() =~= before.remove(i as int));
                let ghost after = self.building();
                assert forall|k: int| 0 <= k < after.len() implies after[k] == (if k < i {
                    before[k]
                } else {
                    before[k + 1]
                }) by {}
                assert forall|k: int| 0 <= k < after.len() implies after[k] != dest@ by {
                    if k >= i {
                        assert(before[k + 1] != before[i as int]);
                    }
                }
                assert(!after.contains(dest@));
                assert(self.wf()) by {
                    assert forall|a: int, b: int|
                        0 <= a < b < after.len() implies after[a] != after[b] by {
                        if b < i {
                        } else if a < i {
                            assert(before[a] != before[b + 1]);
                        } else {
                            assert(before[a + 1] != before[b + 1]);
                        }
                    }
                }
                assert forall|p: Seq<char>|
                    p != dest@ implies after.contains(p) == before.contains(p) by {
                    if before.contains(p) {
                        let k = choose|k: int| 0 <= k < before.len() && before[k] == p;
                        if k < i {
                            assert(after[k] == p);
                        } else if k == i {
                        } else {
                            assert(after[k - 1] == p);
                        }
                    }
                    if after.contains(p) {
                        let k = choose|k: int| 0 <= k < after.len() && after[k] == p;
                        if k < i {
                            assert(before[k] == p);
                        } else {
                            assert(before[k + 1] == p);
                        }
                    }
                }
                return ;
            }
        }
    }
}

/// Spec-level state of the thumbnail store: the bytes already built, by
/// destination path, and the paths whose build is in flight.  The `cached`
/// map models the destination files on disk.
pub struct CacheModel {
    pub cached: Map<Seq<char>, Seq<u8>>,
    pub building: Set<Seq<char>>,
}

/// One step of the build-or-fetch protocol, seen at the store.
pub enum CacheOp {
    /// A caller asks for `dest` and acts on the decision it is given.
    Begin { dest: Seq<char> },
    /// The unique builder of `dest` writes the finished bytes.
    Complete { dest: Seq<char>, bytes: Seq<u8> },
    /// The unique builder of `dest` gives up without writing, so a later
    /// request may retry; the store is not poisoned.
    Fail { dest: Seq<char> },
}

/// Whether `dest` is spoken for: either already built or being built.
pub open spec fn claimed(m: CacheModel, dest: Seq<char>) -> bool {
    m.cached.contains_key(dest) || m.building.contains(dest)
}

/// Whether a `Begin` for `dest` in state `m` is granted the build.
pub open spec fn grants_build(m: CacheModel, dest: Seq<char>) -> bool {
    spec_decision(m.cached.contains_key(dest), m.building.contains(dest)) is Build
}

/// When an op may happen: only the path's unique builder completes or
/// fails a build, and a completion writes a not-yet-existing file.
pub open spec fn op_enabled(m: CacheModel, op: CacheOp) -> bool {
    match op {
        CacheOp::Begin { .. } => true,
        CacheOp::Complete { dest, .. } => m.building.contains(dest) && !m.cached.contains_key(
            dest,
        ),
        CacheOp::Fail { dest } => m.building.contains(dest),
    }
}

/// The state after one op.  A granted `Begin` marks the path in flight; a
/// `Complete` writes the bytes and clears the marker; a `Fail` clears the
/// marker only.  An ungranted `Begin` changes nothing: fetching and
/// waiting leave the store untouched.
pub open spec fn apply_op(m: CacheModel, op: CacheOp) -> CacheModel {
    match op {
        CacheOp::Begin { dest } => if grants_build(m, dest) {
            CacheModel { cached: m.cached, building: m.building.insert(dest) }
        } else {
            m
        },
        CacheOp::Complete { dest, bytes } => CacheModel {
            cached: m.cached.insert(dest, bytes),
            building: m.building.remove(dest),
        },
        CacheOp::Fail { dest } => CacheModel { cached: m.cached, building: m.building.remove(dest) },
    }
}

/// The state after a whole trace of ops.
pub open spec fn run_cache(m: CacheModel, t: Seq<CacheOp>) -> CacheModel
    decreases t.len(),
{
    if t.len() == 0 {
        m
    } else {
        apply_op(run_cache(m, t.drop_last()), t.last())
    }
}

/// Every op in the trace happens in a state where it is enabled.
pub open spec fn trace_enabled(m: CacheModel, t: Seq<CacheOp>) -> bool
    decreases t.len(),
{
    t.len() == 0 || (trace_enabled(m, t.drop_last()) && op_enabled(
        run_cache(m, t.drop_last()),
        t.last(),
    ))
}

/// How many `Begin`s for `dest` in the trace are granted the build — that
/// is, how many times the transform engine is invoked for `dest`.
pub open spec fn builds_granted(m: CacheModel, t: Seq<CacheOp>, dest: Seq<char>) -> nat
    decreases t.len(),
{
    if t.len() == 0 {
        0
    } else {
        builds_granted(m, t.drop_last(), dest) + match t.last() {
            CacheOp::Begin { dest: d } => if d == dest && grants_build(
                run_cache(m, t.drop_last()),
                dest,
            ) {
                1nat
            } else {
                0nat
            },
            _ => 0nat,
        }
    }
}

/// Whether the trace contains a failed build for `dest`.
pub open spec fn has_fail(t: Seq<CacheOp>, dest: Seq<char>) -> bool {
    exists|i: int| 0 <= i < t.len() && t[i] == (CacheOp::Fail { dest })
}

/// A destination file, once written, never changes: every later state of
/// an enabled trace still holds the same bytes.  All callers that fetch
/// `dest` — before or after more requests, uploads or rescans — therefore
/// read byte-identical results.
pub proof fn lemma_cached_value_stable(
    m: CacheModel,
    t: Seq<CacheOp>,
    dest: Seq<char>,
    bytes: Seq<u8>,
)
    requires
        trace_enabled(m, t),
        m.cached.contains_key(dest),
        m.cached[dest] == bytes,
    ensures
        run_cache(m, t).cached.contains_key(dest),
        run_cache(m, t).cached[dest] == bytes,
    decreases t.len(),
{
    if t.len() > 0 {
        lemma_cached_value_stable(m, t.drop_last(), dest, bytes);
    }
}

/// The heart of concurrent-build deduplication: over any enabled trace in
/// which no build for `dest` fails, the transform engine runs for `dest`
/// at most once — not at all if `dest` was already built or building — and
/// once it has run, `dest` stays spoken for.
pub proof fn lemma_builds_bounded(m: CacheModel, t: Seq<CacheOp>, dest: Seq<char>)
    requires
        trace_enabled(m, t),
        !has_fail(t, dest),
    ensures
        builds_granted(m, t, dest) <= if claimed(m, dest) {
            0nat
        } else {
            1nat
        },
        claimed(run_cache(m, t), dest) == (claimed(m, dest) || builds_granted(m, t, dest) >= 1),
    decreases t.len(),
{
    if t.len() > 0 {
        assert(!has_fail(t.drop_last(), dest)) by {
            if has_fail(t.drop_last(), dest) {
                let i = choose|i: int|
                    0 <= i < t.drop_last().len() && t.drop_last()[i] == (CacheOp::Fail { dest });
                assert(t[i] == (CacheOp::Fail { dest }));
            }
        }
        lemma_builds_bounded(m, t.drop_last(), dest);
        match t.last() {
            CacheOp::Fail { dest: d } => {
                assert(t[t.len() - 1] == (CacheOp::Fail { dest: d }));
                assert(d != dest);
            },
            _ => {},
        }
    }
}

/// Concurrent build dedup: any number of concurrent build-or-fetch
/// requests for one uncached destination, interleaved in any order the
/// protocol allows and with no failed build, invoke the transform engine
/// exactly once in total once any of them is granted — never twice.
pub proof fn lemma_concurrent_build_dedup(m: CacheModel, t: Seq<CacheOp>, dest: Seq<char>)
    requires
        trace_enabled(m, t),
        !has_fail(t, dest),
        !claimed(m, dest),
    ensures
        builds_granted(m, t, dest) <= 1,
{
    lemma_builds_bounded(m, t, dest);
}

/// Idempotent build-or-fetch: after one request builds and completes a
/// destination, a repeated request for the same destination is told to
/// fetch the very bytes that build wrote, and changes nothing — no second
/// decode, transform or write happens.
pub proof fn lemma_idempotent_build(m: CacheModel, dest: Seq<char>, bytes: Seq<u8>)
    requires
        !claimed(m, dest),
    ensures
        ({
            let built = apply_op(
                apply_op(m, CacheOp::Begin { dest }),
                CacheOp::Complete { dest, bytes },
            );
            &&& spec_decision(
                built.cached.contains_key(dest),
                built.building.contains(dest),
            ) is Fetch
            &&& built.cached[dest] == bytes
            &&& apply_op(built, CacheOp::Begin { dest }) == built
        }),
{
}

} // verus!
