//! Orchestration of an injection: pick a safe executable scratch region,
//! plan the word transfers, and prepare the register set that points the
//! thread-spawn step at the payload.
//!
//! The injector owns the target's pid and the address of the most recently
//! allocated payload region.  It never performs process control itself: the
//! driver runs the [`crate::runner::Runner`] machines and the word transfers
//! this module plans.

use crate::proc::Proc;
use crate::region::{region_views, Region, RegionView, EXEC_PERM};
use crate::runner::Registers;
use crate::Error;
use vstd::prelude::*;

verus! {

/// Addresses at or above this bound belong to dynamically loaded shared
/// libraries and kernel-provided pages on the supported platform, which may
/// be in concurrent use by other threads or processes; scratch space is never
/// borrowed there.  The bound is a documented best-effort heuristic, not an
/// exact classification.
pub const SCRATCH_ADDRESS_LIMIT: u64 = 0x7000_0000_0000;

/// Whether a region may be borrowed as executable scratch space: it is
/// executable and lies wholly below the shared-library bound.
pub open spec fn spec_is_scratch(r: RegionView) -> bool {
    (r.start_address as u64) < SCRATCH_ADDRESS_LIMIT && r.perms & EXEC_PERM != 0
}

/// The first region of the list that qualifies as scratch space, if any.
pub open spec fn spec_find_exec(rs: Seq<RegionView>) -> Option<RegionView>
    decreases rs.len(),
{
    if rs.len() == 0 {
        None
    } else if spec_is_scratch(rs[0]) {
        Some(rs[0])
    } else {
        spec_find_exec(rs.skip(1))
    }
}

/// Skipping a prefix with no qualifying region does not change the search.
proof fn lemma_find_exec_skip(rs: Seq<RegionView>, i: int)
    requires
        0 <= i <= rs.len(),
        forall|j: int| 0 <= j < i ==> !spec_is_scratch(rs[j]),
    ensures
        spec_find_exec(rs) == spec_find_exec(rs.skip(i)),
    decreases i,
{
    if i > 0 {
        lemma_find_exec_skip(rs.skip(1), i - 1);
        assert(rs.skip(1).skip(i - 1) =~= rs.skip(i));
    } else {
        assert(rs.skip(0) =~= rs);
    }
}

/// The scratch search never selects a region whose start address is at or
/// above the shared-library bound, or without the executable flag — even
/// when no qualifying region exists at all: then it selects nothing rather
/// than fall back.  What it selects is the first qualifying region of the
/// list.
pub proof fn lemma_scratch_selection_safe(rs: Seq<RegionView>)
    ensures
        match spec_find_exec(rs) {
            Some(r) => {
                &&& (r.start_address as u64) < SCRATCH_ADDRESS_LIMIT
                &&& r.perms & EXEC_PERM != 0
                &&& exists|i: int|
                    0 <= i < rs.len() && rs[i] == r && (forall|j: int|
                        0 <= j < i ==> !spec_is_scratch(rs[j]))
            },
            None => forall|i: int| 0 <= i < rs.len() ==> !spec_is_scratch(rs[i]),
        },
    decreases rs.len(),
{
    if rs.len() > 0 {
        if spec_is_scratch(rs[0]) {
            assert(rs[0] == spec_find_exec(rs)->Some_0);
            assert(0 <= 0 < rs.len() && rs[0] == spec_find_exec(rs)->Some_0 && (forall|j: int|
                0 <= j < 0 ==> !spec_is_scratch(rs[j])));
        } else {
            lemma_scratch_selection_safe(rs.skip(1));
            match spec_find_exec(rs.skip(1)) {
                Some(r) => {
                    let i = choose|i: int|
                        0 <= i < rs.skip(1).len() && rs.skip(1)[i] == r && (forall|j: int|
                            0 <= j < i ==> !spec_is_scratch(rs.skip(1)[j]));
                    assert(rs[i + 1] == r);
                    assert(forall|j: int| 0 <= j < i + 1 ==> !spec_is_scratch(rs[j])) by {
                        assert(forall|j: int|
                            1 <= j < i + 1 ==> rs[j] == rs.skip(1)[j - 1] && !spec_is_scratch(
                                rs.skip(1)[j - 1],
                            ));
                    }
                    assert(0 <= i + 1 < rs.len() && rs[i + 1] == r && (forall|j: int|
                        0 <= j < i + 1 ==> !spec_is_scratch(rs[j])));
                },
                None => {
                    assert(forall|i: int|
                        1 <= i < rs.len() ==> rs[i] == rs.skip(1)[i - 1] && !spec_is_scratch(
                            rs.skip(1)[i - 1],
                        ));
                },
            }
        }
    }
}

/// Drives an injection into one target process: pick scratch space, run the
/// allocation stager, then spawn the payload as a new thread.
pub struct Injector {
    /// Process identifier of the target to inject into.
    pub pid: i32,
    /// Address of the most recently allocated region that holds the payload;
    /// zero until the allocation step has run.
    pub payload_region: usize,
}

impl Injector {
    /// A fresh injector for the target process: no payload region yet.
    pub fn new(pid: i32) -> (r: Injector)
        ensures
            r.pid == pid,
            r.payload_region == 0,
    {
        Injector { pid, payload_region: 0 }
    }

    /// Select the scratch region for staging: the first executable region of
    /// the map that lies below the shared-library bound, so that borrowed
    /// scratch space never corrupts shared-library code in concurrent use.
    /// Reports that none exists rather than fall back to a higher region.
    pub fn find_exec_region(&self, map: &Proc) -> (r: Result<Region, Error>)
        ensures
            match r {
                Ok(region) => spec_find_exec(region_views(map.regions@)) == Some(region@),
                Err(e) => e == Error::NotFound && spec_find_exec(region_views(map.regions@))
                    is None,
            },
    {
        let ghost views = region_views(map.regions@);
        let mut i: usize = 0;
        while i < map.regions.len()
            invariant
                i <= map.regions@.len(),
                views == region_views(map.regions@),
                forall|j: int| 0 <= j < i ==> !spec_is_scratch(views[j]),
            decreases map.regions@.len() - i,
        {
            let region = &map.regions[i];
            if (region.start_address as u64) < SCRATCH_ADDRESS_LIMIT && (region.perms & EXEC_PERM) != 0 {
                proof {
                    lemma_find_exec_skip(views, i as int);
                    assert(views.skip(i as int)[0] == views[i as int]);
                }
                return Ok(region.clone());
            }
            i = i + 1;
        }
        proof {
            lemma_find_exec_skip(views, i as int);
            assert(views.skip(i as int) =~= Seq::<RegionView>::empty());
        }
        Err(Error::NotFound)
    }

    /// Record the address the allocation stager returned; the payload and the
    /// spawn step use it from here on.
    pub fn record_allocation(&mut self, addr: usize)
        ensures
            final(self).pid == old(self).pid,
            final(self).payload_region == addr,
    {
        self.payload_region = addr;
    }

    /// The register set for the thread-spawn step: the designated argument
    /// register carries the payload region's address, and every other
    /// register keeps the value it had.
    pub fn with_payload_arg(&self, regs: &Registers) -> (r: Registers)
        ensures
            r == (Registers { r11: self.payload_region as u64, ..*regs }),
    {
        let mut r = *regs;
        r.r11 = self.payload_region as u64;
        r
    }
}

/// The word writes that copy a buffer into the target: word `i` of the
/// buffer goes to `address + 8 * i`, in ascending-address order.
pub fn write_plan(address: usize, words: &Vec<u64>) -> (plan: Vec<(usize, u64)>)
    requires
        address + 8 * words@.len() <= usize::MAX,
    ensures
        plan@.len() == words@.len(),
        forall|i: int|
            0 <= i < plan@.len() ==> plan@[i] == (((address + 8 * i) as usize), words@[i]),
{
    let mut plan: Vec<(usize, u64)> = Vec::new();
    let mut i: usize = 0;
    while i < words.len()
        invariant
            i <= words@.len(),
            address + 8 * words@.len() <= usize::MAX,
            plan@.len() == i,
            forall|j: int|
                0 <= j < i ==> plan@[j] == (((address + 8 * j) as usize), words@[j]),
        decreases words@.len() - i,
    {
        plan.push((address + 8 * i, words[i]));
        i = i + 1;
    }
    plan
}

} // verus!
