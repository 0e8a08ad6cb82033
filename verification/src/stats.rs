//! Resource figures of running containers: the memory column, and where the
//! figures of each container come from.
use vstd::prelude::*;
use crate::cgroup::CgroupMatch;
use crate::format::{human_bytes, human_size};
use crate::text::{same_text, texts};

verus! {

/// The limit to show: no limit (`u64::MAX`) shows as the machine's memory.
pub open spec fn shown_limit(limit: u64, sys_mem: u64) -> u64 {
    if limit == u64::MAX {
        sys_mem
    } else {
        limit
    }
}

/// The memory cell: usage and limit, both for humans, as `usage/limit`.
pub open spec fn memory_cell(usage: u64, limit: u64, sys_mem: u64) -> Seq<char> {
    human_size(usage as nat) + "/"@ + human_size(shown_limit(limit, sys_mem) as nat)
}

/// Renders the memory cell.
pub fn memory_text(usage: u64, limit: u64, sys_mem: u64) -> (res: String)
    ensures
        res@ == memory_cell(usage, limit, sys_mem),
{
    let shown = if limit == u64::MAX {
        sys_mem
    } else {
        limit
    };
    let mut out = human_bytes(usage);
    out.append("/");
    let l = human_bytes(shown);
    out.append(l.as_str());
    out
}

/// Renders the memory cell from the figures the Docker API reported: a
/// missing usage counts as 0, a missing limit as no limit.
pub fn docker_memory_text(usage: Option<u64>, limit: Option<u64>, sys_mem: u64) -> (res: String)
    ensures
        res@ == memory_cell(
            match usage {
                Some(u) => u,
                None => 0,
            },
            match limit {
                Some(l) => l,
                None => u64::MAX,
            },
            sys_mem,
        ),
{
    let u = match usage {
        Some(u) => u,
        None => 0,
    };
    let l = match limit {
        Some(l) => l,
        None => u64::MAX,
    };
    memory_text(u, l, sys_mem)
}

/// Where the figures of a running container come from.
#[derive(Debug, Clone, Copy, PartialEq, Eq, Structural)]
pub enum StatsSource {
    /// Its cgroup files were read.
    Cgroup,
    /// It has a cgroup directory, but reading it failed: no figures.
    CgroupFailed,
    /// It has no cgroup directory: ask the Docker API.
    DockerApi,
}

/// Where the figures of container `id` come from, given the ids that
/// were measured through their cgroup and the ids that have a cgroup
/// directory.
pub open spec fn stats_source_of(
    id: Seq<char>,
    measured: Seq<Seq<char>>,
    mapped: Seq<CgroupMatch>,
) -> StatsSource {
    if measured.contains(id) {
        StatsSource::Cgroup
    } else if exists|k: int| 0 <= k < mapped.len() && (#[trigger] mapped[k]).id@ == id {
        StatsSource::CgroupFailed
    } else {
        StatsSource::DockerApi
    }
}

/// Decides where the figures of container `id` come from.
pub fn stats_source(id: &str, measured: &Vec<String>, mapped: &[CgroupMatch]) -> (res:
    StatsSource)
    ensures
        res == stats_source_of(id@, texts(measured@), mapped@),
{
    let mut i: usize = 0;
    while i < measured.len()
        invariant
            i <= measured@.len(),
            forall|k: int| 0 <= k < i ==> measured@[k]@ != id@,
        decreases measured.len() - i,
    {
        if same_text(measured[i].as_str(), id) {
            assert(texts(measured@)[i as int] == id@);
            return StatsSource::Cgroup;
        }
        i = i + 1;
    }
    assert(!texts(measured@).contains(id@)) by {
        assert(forall|k: int| 0 <= k < texts(measured@).len() ==> texts(measured@)[k] != id@);
    }
    let mut k: usize = 0;
    while k < mapped.len()
        invariant
            k <= mapped@.len(),
            !texts(measured@).contains(id@),
            forall|j: int| 0 <= j < k ==> mapped@[j].id@ != id@,
        decreases mapped.len() - k,
    {
        if same_text(mapped[k].id.as_str(), id) {
            assert(mapped@[k as int].id@ == id@);
            return StatsSource::CgroupFailed;
        }
        k = k + 1;
    }
    StatsSource::DockerApi
}

} // verus!
