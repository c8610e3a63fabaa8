//! Port bookkeeping: per-worktree preferred-port offsets and the record of
//! ports handed out during a session.
use std::collections::HashSet;

use vstd::prelude::*;
use vstd::string::StringSliceAdditionalSpecFns;

verus! {

broadcast use vstd::std_specs::hash::group_hash_axioms;

/// Stride between adjacent per-worktree port slots.
pub const WORKTREE_PORT_STRIDE: u16 = 10;

/// Number of distinct non-zero slots a linked worktree can occupy.
pub const WORKTREE_PORT_SLOTS: u16 = 16;

/// FNV-1a offset basis (64 bit).
pub const FNV_OFFSET_BASIS: u64 = 0xcbf2_9ce4_8422_2325;

/// FNV-1a prime (64 bit).
pub const FNV_PRIME: u64 = 0x0000_0100_0000_01b3;

/// The 64-bit FNV-1a hash of `bytes`.
pub open spec fn fnv1a(bytes: Seq<u8>) -> u64
    decreases bytes.len(),
{
    if bytes.len() == 0 {
        FNV_OFFSET_BASIS
    } else {
        (fnv1a(bytes.drop_last()) ^ (bytes.last() as u64)).wrapping_mul(FNV_PRIME)
    }
}

/// The preferred-port offset of a worktree whose directory name is `suffix`:
/// its hash picks one of the non-zero slots, scaled by the stride.
pub open spec fn suffix_offset(suffix: Seq<char>) -> int {
    ((fnv1a(vstd::utf8::encode_utf8(suffix)) % (WORKTREE_PORT_SLOTS as u64)) + 1) * (
    WORKTREE_PORT_STRIDE as int)
}

/// Hashes the worktree directory name `suffix` into a non-zero slot and
/// scales it by the stride: always one of 10, 20, ..., 160.
pub fn offset_for_suffix(suffix: &str) -> (r: u16)
    ensures
        r == suffix_offset(suffix@),
        WORKTREE_PORT_STRIDE <= r <= WORKTREE_PORT_SLOTS * WORKTREE_PORT_STRIDE,
        r % WORKTREE_PORT_STRIDE == 0,
{
    let bytes = suffix.as_bytes();
    let mut hash: u64 = FNV_OFFSET_BASIS;
    let mut i: usize = 0;
    while i < bytes.len()
        invariant
            i <= bytes.len(),
            bytes@ == suffix.spec_bytes(),
            hash == fnv1a(bytes@.take(i as int)),
        decreases bytes.len() - i,
    {
        proof {
            assert(bytes@.take(i + 1).drop_last() =~= bytes@.take(i as int));
        }
        hash = hash ^ (bytes[i] as u64);
        hash = hash.wrapping_mul(FNV_PRIME);
        i = i + 1;
    }
    proof {
        assert(bytes@.take(bytes.len() as int) =~= bytes@);
    }
    let slot: u64 = hash % (WORKTREE_PORT_SLOTS as u64) + 1;
    (slot as u16) * WORKTREE_PORT_STRIDE
}

/// The offset in force: 0 in the primary checkout or outside git (and when
/// the worktree's directory name is unknown), else the suffix's offset.
pub open spec fn port_offset(is_worktree: bool, suffix: Option<Seq<char>>) -> int {
    if !is_worktree {
        0
    } else {
        match suffix {
            Some(s) => suffix_offset(s),
            None => 0,
        }
    }
}

/// The per-worktree preferred-port offset, given whether the current
/// directory is a linked git worktree and that worktree's directory name.
pub fn worktree_port_offset(is_worktree: bool, suffix: Option<&str>) -> (r: u16)
    ensures
        r == port_offset(
            is_worktree,
            match suffix {
                Some(s) => Some(s@),
                None => None,
            },
        ),
{
    if !is_worktree {
        return 0;
    }
    match suffix {
        Some(s) => offset_for_suffix(s),
        None => 0,
    }
}

/// Shifts a preferred port by `offset`, clamping at `u16::MAX` rather than
/// wrapping. With offset 0 the port comes back unchanged.
pub fn apply_offset(port: u16, offset: u16) -> (r: u16)
    ensures
        r == (if port + offset > u16::MAX {
            u16::MAX as int
        } else {
            port + offset
        }),
        offset == 0 ==> r == port,
        r >= port,
{
    port.saturating_add(offset)
}

/// The outcome of one port allocation.
#[derive(Debug, Clone, Copy, PartialEq, Eq, Structural)]
pub struct PortAllocation {
    pub preferred: Option<u16>,
    pub actual: u16,
    pub remapped: bool,
}

/// How an attempt to bind a preferred port ended: the port itself was
/// bound, or it was busy and the OS handed out another one.
#[derive(Debug, Clone, Copy, PartialEq, Eq, Structural)]
pub enum BindOutcome {
    Preferred(u16),
    Fallback(u16),
}

/// The port a bind ended with.
pub open spec fn bound_port(o: BindOutcome) -> u16 {
    match o {
        BindOutcome::Preferred(p) => p,
        BindOutcome::Fallback(p) => p,
    }
}

/// The bind got the port that was asked for.
pub open spec fn got_preferred(preferred: u16, o: BindOutcome) -> bool {
    o matches BindOutcome::Preferred(p) && p == preferred
}

/// The ports handed out during one session, so that the same ephemeral port
/// is not given to two services.
#[derive(Debug)]
pub struct PortAllocator {
    allocated: HashSet<u16>,
}

impl PortAllocator {
    /// The ports handed out so far.
    pub closed spec fn handed_out(&self) -> Set<u16> {
        self.allocated@
    }

    /// An allocator that has handed out nothing.
    pub fn new() -> (a: Self)
        ensures
            a.handed_out() == Set::<u16>::empty(),
    {
        PortAllocator { allocated: HashSet::new() }
    }

    /// Whether `port` has been handed out.
    pub fn is_allocated(&self, port: u16) -> (r: bool)
        ensures
            r == self.handed_out().contains(port),
    {
        self.allocated.contains(&port)
    }

    /// Records the port bound for a service that asked for `preferred`: the
    /// preferred port itself, or (remapped) another port the OS gave. Such
    /// a port, when this session already handed it out, is refused (`None`,
    /// nothing recorded) and the caller binds again.
    pub fn record_preferred(&mut self, preferred: u16, outcome: BindOutcome) -> (r: Option<
        PortAllocation,
    >)
        ensures
            if got_preferred(preferred, outcome) {
                r == Some(PortAllocation { preferred: Some(preferred), actual: preferred, remapped: false })
            } else if old(self).handed_out().contains(bound_port(outcome)) {
                r is None
            } else {
                r == Some(
                    PortAllocation {
                        preferred: Some(preferred),
                        actual: bound_port(outcome),
                        remapped: true,
                    },
                )
            },
            r matches Some(a) ==> final(self).handed_out() == old(self).handed_out().insert(
                a.actual,
            ),
            r is None ==> final(self).handed_out() == old(self).handed_out(),
            r matches Some(a) ==> (a.remapped ==> !old(self).handed_out().contains(a.actual)),
    {
        let (p, is_preferred) = match outcome {
            BindOutcome::Preferred(p) => (p, p == preferred),
            BindOutcome::Fallback(p) => (p, false),
        };
        if is_preferred {
            self.allocated.insert(p);
            Some(PortAllocation { preferred: Some(preferred), actual: p, remapped: false })
        } else if self.allocated.contains(&p) {
            None
        } else {
            self.allocated.insert(p);
            Some(PortAllocation { preferred: Some(preferred), actual: p, remapped: true })
        }
    }

    /// Attempts that may be retried when the OS hands back a port this session
    /// already gave out; the attempt after them accepts whatever it gets.
    pub const RETRIES: u32 = 3;

    /// Whether attempt number `attempt` (counting from 0) of an OS-assigned
    /// allocation takes `port`, given the ports `held` so far: it does if the
    /// port is new to the session or if the retries are used up.
    pub open spec fn takes_any(held: Set<u16>, port: u16, attempt: int) -> bool {
        !held.contains(port) || attempt >= Self::RETRIES
    }

    /// Decides on the OS-assigned `port` of attempt number `attempt`
    /// (counting from 0): it is taken if it is new to this session or if the
    /// retries are used up; otherwise the caller binds again.
    pub fn accept_any(&mut self, port: u16, attempt: u32) -> (r: Option<PortAllocation>)
        ensures
            (r is Some) <==> Self::takes_any(old(self).handed_out(), port, attempt as int),
            r matches Some(a) ==> a.preferred is None && a.actual == port && !a.remapped,
            r is Some ==> final(self).handed_out() == old(self).handed_out().insert(port),
            r is None ==> final(self).handed_out() == old(self).handed_out(),
    {
        if !self.allocated.contains(&port) || attempt >= Self::RETRIES {
            self.allocated.insert(port);
            Some(PortAllocation { preferred: None, actual: port, remapped: false })
        } else {
            None
        }
    }
}

/// The attempt, from `from` on, at which an OS-assigned allocation that is
/// handed the ports `qs` (one per bind) stops: the first attempt before the
/// retries run out whose port is new to `held`, else the final attempt.
pub open spec fn stopping_attempt(held: Set<u16>, qs: Seq<u16>, from: int) -> int
    decreases PortAllocator::RETRIES - from,
{
    if from >= PortAllocator::RETRIES {
        PortAllocator::RETRIES as int
    } else if !held.contains(qs[from]) {
        from
    } else {
        stopping_attempt(held, qs, from + 1)
    }
}

/// An OS-assigned allocation, driven one bind at a time through
/// `accept_any` with the ports `qs`, stops after at most `RETRIES + 1`
/// binds: every attempt before the stopping one is refused (its port is
/// already held, so nothing changes), the stopping one is taken, and a port
/// taken before the retries run out was never handed out before.
pub proof fn lemma_allocate_any_stops(held: Set<u16>, qs: Seq<u16>)
    requires
        qs.len() == PortAllocator::RETRIES + 1,
    ensures
        0 <= stopping_attempt(held, qs, 0) <= PortAllocator::RETRIES,
        forall|j: int|
            0 <= j < stopping_attempt(held, qs, 0) ==> !PortAllocator::takes_any(
                held,
                #[trigger] qs[j],
                j,
            ),
        PortAllocator::takes_any(held, qs[stopping_attempt(held, qs, 0)], stopping_attempt(held, qs, 0)),
        stopping_attempt(held, qs, 0) < PortAllocator::RETRIES ==> !held.contains(
            qs[stopping_attempt(held, qs, 0)],
        ),
{
    lemma_stopping_attempt_from(held, qs, 0);
}

proof fn lemma_stopping_attempt_from(held: Set<u16>, qs: Seq<u16>, from: int)
    requires
        qs.len() == PortAllocator::RETRIES + 1,
        0 <= from <= PortAllocator::RETRIES,
    ensures
        from <= stopping_attempt(held, qs, from) <= PortAllocator::RETRIES,
        forall|j: int|
            from <= j < stopping_attempt(held, qs, from) ==> !PortAllocator::takes_any(
                held,
                #[trigger] qs[j],
                j,
            ),
        PortAllocator::takes_any(
            held,
            qs[stopping_attempt(held, qs, from)],
            stopping_attempt(held, qs, from),
        ),
        stopping_attempt(held, qs, from) < PortAllocator::RETRIES ==> !held.contains(
            qs[stopping_attempt(held, qs, from)],
        ),
    decreases PortAllocator::RETRIES - from,
{
    if from < PortAllocator::RETRIES && held.contains(qs[from]) {
        lemma_stopping_attempt_from(held, qs, from + 1);
    }
}

} // verus!
