//! The process map: the target's process identifier and the ordered list of
//! its mapped regions, parsed from the lines of the kernel-exposed memory-map
//! description.
//!
//! Reading those lines is the driver's work; this module owns the parsing and
//! the map itself.  A parse failure on any line fails the whole load: no
//! partial or degraded map is ever produced, and a refresh replaces the whole
//! region list atomically or leaves it untouched.

use crate::region::{spec_parse_region, Region};
use crate::Error;
use vstd::prelude::*;

verus! {

/// A process identifier together with the most recent snapshot of that
/// process's mapped regions, in the order the lines gave them.
pub struct Proc {
    /// The target's process identifier.
    pub pid: i32,
    /// The regions of the most recent snapshot, in ascending-address order
    /// when the lines came in that order.
    pub regions: Vec<Region>,
}

impl Proc {
    /// Parse every memory-map line into a region.  Succeeds exactly when
    /// every line parses, and then yields one region per line, in order.
    pub fn optain_regions(lines: &Vec<String>) -> (r: Result<Vec<Region>, Error>)
        ensures
            match r {
                Ok(regions) => regions@.len() == lines@.len() && forall|i: int|
                    0 <= i < lines@.len() ==> spec_parse_region(lines@[i]@) == Some(
                        regions@[i]@,
                    ),
                Err(e) => e == Error::ParseError && exists|i: int|
                    0 <= i < lines@.len() && spec_parse_region(lines@[i]@) is None,
            },
    {
        let mut regions: Vec<Region> = Vec::new();
        let mut i: usize = 0;
        while i < lines.len()
            invariant
                i <= lines@.len(),
                regions@.len() == i,
                forall|j: int|
                    0 <= j < i ==> spec_parse_region(lines@[j]@) == Some(regions@[j]@),
            decreases lines@.len() - i,
        {
            match Region::from_string(lines[i].as_str()) {
                Ok(region) => {
                    regions.push(region);
                },
                Err(e) => {
                    return Err(e);
                },
            }
            i = i + 1;
        }
        Ok(regions)
    }

    /// Build a process map from a full read of the target's memory-map
    /// description.  Fails, with no map, when any line is malformed.
    pub fn new(pid: i32, lines: &Vec<String>) -> (r: Result<Proc, Error>)
        ensures
            match r {
                Ok(p) => p.pid == pid && p.regions@.len() == lines@.len() && forall|i: int|
                    0 <= i < lines@.len() ==> spec_parse_region(lines@[i]@) == Some(
                        p.regions@[i]@,
                    ),
                Err(e) => e == Error::ParseError && exists|i: int|
                    0 <= i < lines@.len() && spec_parse_region(lines@[i]@) is None,
            },
    {
        let regions = match Self::optain_regions(lines) {
            Ok(regions) => regions,
            Err(e) => {
                return Err(e);
            },
        };
        Ok(Proc { pid, regions })
    }

    /// Replace the stored region list with a fresh parse of the given lines.
    /// On failure the map is left exactly as it was: the refresh is atomic.
    pub fn reset_regions(&mut self, lines: &Vec<String>) -> (r: Result<(), Error>)
        ensures
            final(self).pid == old(self).pid,
            match r {
                Ok(_) => final(self).regions@.len() == lines@.len() && forall|i: int|
                    0 <= i < lines@.len() ==> spec_parse_region(lines@[i]@) == Some(
                        final(self).regions@[i]@,
                    ),
                Err(e) => final(self).regions == old(self).regions && e == Error::ParseError
                    && exists|i: int|
                    0 <= i < lines@.len() && spec_parse_region(lines@[i]@) is None,
            },
    {
        match Self::optain_regions(lines) {
            Ok(regions) => {
                self.regions = regions;
                Ok(())
            },
            Err(e) => Err(e),
        }
    }
}

} // verus!
