//! Reading the cgroup (v2) files of Docker containers: which directory
//! belongs to which container, and what the accounting files say.
use vstd::prelude::*;
use crate::text::{
    has_prefix, has_suffix, is_digit, lines, lines_of, parse_u64, parse_u64_text, push_char,
    same_text, split_whitespace, starts_with, strip_prefix, strip_suffix, trim, trim_text, words,
};

verus! {

/// What follows `p` on the first of `ls` that begins with `p`.
pub open spec fn first_line_after(ls: Seq<Seq<char>>, p: Seq<char>) -> Option<Seq<char>>
    decreases ls.len(),
{
    if ls.len() == 0 {
        None
    } else if has_prefix(ls[0], p) {
        Some(ls[0].skip(p.len() as int))
    } else {
        first_line_after(ls.drop_first(), p)
    }
}

/// The CPU time, in microseconds, that `cpu.stat` reports: the number on
/// its first `usage_usec ` line.
pub open spec fn cpu_usage_usec(cpu_stat: Seq<char>) -> Option<u64> {
    match first_line_after(lines(cpu_stat), "usage_usec "@) {
        Some(rest) => parse_u64(trim(rest)),
        None => None,
    }
}

/// Reads the CPU time out of the contents of `cpu.stat`.
pub fn parse_cpu_usage_usec(cpu_stat: &str) -> (res: Option<u64>)
    ensures
        res == cpu_usage_usec(cpu_stat@),
{
    let ls = lines_of(cpu_stat);
    let ghost all = lines(cpu_stat@);
    let mut i: usize = 0;
    assert(all.skip(0) =~= all);
    while i < ls.len()
        invariant
            all == lines(cpu_stat@),
            crate::text::texts(ls@) == all,
            i <= ls@.len(),
            first_line_after(all, "usage_usec "@) == first_line_after(all.skip(i as int), "usage_usec "@),
        decreases ls.len() - i,
    {
        assert(all.skip(i as int)[0] == ls@[i as int]@);
        assert(all.skip(i as int).drop_first() =~= all.skip(i + 1));
        match strip_prefix(ls[i].as_str(), "usage_usec ") {
            Some(rest) => {
                let t = trim_text(rest.as_str());
                return parse_u64_text(t.as_str());
            },
            None => {},
        }
        i = i + 1;
    }
    None
}

/// The memory in use, in bytes, that `memory.current` reports.
pub open spec fn memory_current(memory_current: Seq<char>) -> Option<u64> {
    parse_u64(trim(memory_current))
}

/// Reads the memory in use out of the contents of `memory.current`.
pub fn parse_memory_current(memory_current_text: &str) -> (res: Option<u64>)
    ensures
        res == memory_current(memory_current_text@),
{
    let t = trim_text(memory_current_text);
    parse_u64_text(t.as_str())
}

/// The memory limit that `memory.max` reports: `max` (no limit) reads as
/// `u64::MAX`.
pub open spec fn memory_limit(memory_max: Seq<char>) -> Option<u64> {
    if trim(memory_max) == "max"@ {
        Some(u64::MAX)
    } else {
        parse_u64(trim(memory_max))
    }
}

/// Reads the memory limit out of the contents of `memory.max`.
pub fn parse_memory_limit(memory_max: &str) -> (res: Option<u64>)
    ensures
        res == memory_limit(memory_max@),
{
    let t = trim_text(memory_max);
    if same_text(t.as_str(), "max") {
        Some(u64::MAX)
    } else {
        parse_u64_text(t.as_str())
    }
}

/// The quota and period fields of `cpu.max`: its first two words, when it
/// has two and the quota is not `max`.
pub open spec fn cpu_max(cpu_max_text: Seq<char>) -> Option<(Seq<char>, Seq<char>)> {
    let w = words(cpu_max_text);
    if w.len() >= 2 && w[0] != "max"@ {
        Some((w[0], w[1]))
    } else {
        None
    }
}

/// Splits the contents of `cpu.max` into its quota and period fields; none
/// when the quota is unlimited or a field is missing.
pub fn cpu_max_fields(cpu_max_text: &str) -> (res: Option<(String, String)>)
    ensures
        match res {
            Some((q, p)) => cpu_max(cpu_max_text@) == Some((q@, p@)),
            None => cpu_max(cpu_max_text@) is None,
        },
{
    let mut w = split_whitespace(cpu_max_text);
    if w.len() < 2 {
        return None;
    }
    if same_text(w[0].as_str(), "max") {
        return None;
    }
    let ghost ws = w@;
    let period = w.remove(1);
    let quota = w.remove(0);
    assert(quota@ == crate::text::texts(ws)[0]);
    assert(period@ == crate::text::texts(ws)[1]);
    Some((quota, period))
}

/// The integer figures of a container's cgroup.
#[derive(Debug, Clone, Copy, PartialEq, Eq, Structural)]
pub struct CgroupUsage {
    /// CPU time used, in microseconds.
    pub cpu_usage_usec: u64,
    /// Memory in use, in bytes.
    pub memory_bytes: u64,
    /// Memory limit in bytes; `u64::MAX` for none.
    pub memory_limit: u64,
}

/// The figures that the contents of `cpu.stat`, `memory.current` and
/// `memory.max` give, when all three can be read.
pub open spec fn usage_of(cpu_stat: Seq<char>, current: Seq<char>, max: Seq<char>) -> Option<
    CgroupUsage,
> {
    match (cpu_usage_usec(cpu_stat), memory_current(current), memory_limit(max)) {
        (Some(cpu), Some(mem), Some(limit)) => Some(
            CgroupUsage { cpu_usage_usec: cpu, memory_bytes: mem, memory_limit: limit },
        ),
        _ => None,
    }
}

/// Reads a container's figures out of its cgroup files' contents.
pub fn cgroup_usage(cpu_stat: &str, current: &str, max: &str) -> (res: Option<CgroupUsage>)
    ensures
        res == usage_of(cpu_stat@, current@, max@),
{
    let cpu = parse_cpu_usage_usec(cpu_stat)?;
    let mem = parse_memory_current(current)?;
    let limit = parse_memory_limit(max)?;
    Some(CgroupUsage { cpu_usage_usec: cpu, memory_bytes: mem, memory_limit: limit })
}

/// The decimal digits of `s`, in order, all else dropped.
pub open spec fn keep_digits(s: Seq<char>) -> Seq<char>
    decreases s.len(),
{
    if s.len() == 0 {
        seq![]
    } else if is_digit(s.last()) {
        keep_digits(s.drop_last()).push(s.last())
    } else {
        keep_digits(s.drop_last())
    }
}

/// The digits of `s`, as a string.
pub fn digits_only(s: &str) -> (res: String)
    ensures
        res@ == keep_digits(s@),
{
    let v = crate::text::chars_of(s);
    let mut res = String::new();
    let mut i: usize = 0;
    while i < v.len()
        invariant
            v@ == s@,
            i <= v@.len(),
            res@ == keep_digits(s@.take(i as int)),
        decreases v.len() - i,
    {
        assert(s@.take(i + 1).drop_last() =~= s@.take(i as int));
        if '0' <= v[i] && v[i] <= '9' {
            push_char(&mut res, v[i]);
        }
        i = i + 1;
    }
    assert(s@.take(v@.len() as int) =~= s@);
    res
}

/// The kibibytes of the first `MemTotal:` line of `ls` whose digits form a
/// number.
pub open spec fn mem_total_kb(ls: Seq<Seq<char>>) -> Option<u64>
    decreases ls.len(),
{
    if ls.len() == 0 {
        None
    } else if has_prefix(ls[0], "MemTotal:"@) && parse_u64(
        keep_digits(ls[0].skip("MemTotal:"@.len() as int)),
    ) is Some {
        parse_u64(keep_digits(ls[0].skip("MemTotal:"@.len() as int)))
    } else {
        mem_total_kb(ls.drop_first())
    }
}

/// Reads the total memory, in kibibytes, out of the contents of
/// `/proc/meminfo`.
pub fn parse_mem_total_kb(meminfo: &str) -> (res: Option<u64>)
    ensures
        res == mem_total_kb(lines(meminfo@)),
{
    let ls = lines_of(meminfo);
    let ghost all = lines(meminfo@);
    let mut i: usize = 0;
    assert(all.skip(0) =~= all);
    while i < ls.len()
        invariant
            all == lines(meminfo@),
            crate::text::texts(ls@) == all,
            i <= ls@.len(),
            mem_total_kb(all) == mem_total_kb(all.skip(i as int)),
        decreases ls.len() - i,
    {
        assert(all.skip(i as int)[0] == ls@[i as int]@);
        assert(all.skip(i as int).drop_first() =~= all.skip(i + 1));
        match strip_prefix(ls[i].as_str(), "MemTotal:") {
            Some(rest) => {
                let digits = digits_only(rest.as_str());
                let kb = parse_u64_text(digits.as_str());
                if kb.is_some() {
                    return kb;
                }
            },
            None => {},
        }
        i = i + 1;
    }
    None
}

/// The machine's memory in bytes per `/proc/meminfo`; `u64::MAX` when it
/// does not say.
pub open spec fn system_memory(meminfo: Seq<char>) -> u64 {
    match mem_total_kb(lines(meminfo)) {
        Some(kb) => (kb * 1024) as u64,
        None => u64::MAX,
    }
}

/// The machine's memory in bytes, from the contents of `/proc/meminfo`.
pub fn system_memory_bytes(meminfo: &str) -> (res: u64)
    requires
        mem_total_kb(lines(meminfo@)) matches Some(kb) ==> kb * 1024 <= u64::MAX,
    ensures
        res == system_memory(meminfo@),
{
    match parse_mem_total_kb(meminfo) {
        Some(kb) => kb * 1024,
        None => u64::MAX,
    }
}


/// The container id in the name of a cgroup directory `docker-<id>.scope`.
pub open spec fn dir_container_id(name: Seq<char>) -> Option<Seq<char>> {
    if has_prefix(name, "docker-"@) && has_suffix(name.skip(7), ".scope"@) {
        Some(name.skip(7).take(name.skip(7).len() - 6))
    } else {
        None
    }
}

/// Reads the container id out of a cgroup directory's name.
pub fn cgroup_container_id(name: &str) -> (res: Option<String>)
    ensures
        match res {
            Some(id) => dir_container_id(name@) == Some(id@),
            None => dir_container_id(name@) is None,
        },
{
    proof {
        reveal_strlit("docker-");
        reveal_strlit(".scope");
    }
    match strip_prefix(name, "docker-") {
        Some(rest) => strip_suffix(rest.as_str(), ".scope"),
        None => None,
    }
}

/// A container's cgroup directory: the container id and the position of
/// the directory among the entries that were listed.
#[derive(Debug)]
pub struct CgroupDir {
    pub id: String,
    pub entry: usize,
}

/// The cgroup directories found among the directory entry `names`, one per
/// container id: each with the last entry whose name carries that id.
pub fn find_cgroup_dirs(names: &[String]) -> (res: Vec<CgroupDir>)
    ensures
        forall|k: int|
            0 <= k < res@.len() ==> {
                let d = #[trigger] res@[k];
                &&& d.entry < names@.len()
                &&& dir_container_id(names@[d.entry as int]@) == Some(d.id@)
                &&& forall|j: int|
                    d.entry < j < names@.len() ==> dir_container_id(names@[j]@) != Some(d.id@)
            },
        forall|j: int|
            0 <= j < names@.len() && (#[trigger] dir_container_id(names@[j]@)) is Some ==> exists|
                k: int,
            |
                0 <= k < res@.len() && Some(#[trigger] res@[k].id@) == dir_container_id(
                    names@[j]@,
                ),
        forall|k1: int, k2: int|
            0 <= k1 < res@.len() && 0 <= k2 < res@.len() && k1 != k2 ==> #[trigger] res@[k1].id@
                != #[trigger] res@[k2].id@,
{
    let mut res: Vec<CgroupDir> = Vec::new();
    let mut i: usize = 0;
    while i < names.len()
        invariant
            i <= names@.len(),
            forall|k: int|
                0 <= k < res@.len() ==> {
                    let d = #[trigger] res@[k];
                    &&& d.entry < i
                    &&& dir_container_id(names@[d.entry as int]@) == Some(d.id@)
                    &&& forall|j: int|
                        d.entry < j < i ==> dir_container_id(names@[j]@) != Some(d.id@)
                },
            forall|j: int|
                0 <= j < i && (#[trigger] dir_container_id(names@[j]@)) is Some ==> exists|k: int|
                    0 <= k < res@.len() && Some(#[trigger] res@[k].id@) == dir_container_id(
                        names@[j]@,
                    ),
            forall|k1: int, k2: int|
                0 <= k1 < res@.len() && 0 <= k2 < res@.len() && k1 != k2 ==> #[trigger] res@[k1].id@
                    != #[trigger] res@[k2].id@,
        decreases names.len() - i,
    {
        match cgroup_container_id(names[i].as_str()) {
            Some(id) => {
                let mut k: usize = 0;
                let mut found: bool = false;
                while k < res.len() && !found
                    invariant
                        k <= res@.len(),
                        found ==> k < res@.len() && res@[k as int].id@ == id@,
                        forall|m: int| 0 <= m < k ==> res@[m].id@ != id@,
                    decreases res.len() - k + (if found {
                        0int
                    } else {
                        1int
                    }),
                {
                    if same_text(res[k].id.as_str(), id.as_str()) {
                        found = true;
                    } else {
                        k = k + 1;
                    }
                }
                let ghost before = res@;
                if found {
                    assert(k < res@.len() && res@[k as int].id@ == id@);
                    res.set(k, CgroupDir { id, entry: i });
                    assert forall|j: int|
                        0 <= j < i + 1 && (#[trigger] dir_container_id(names@[j]@)) is Some implies exists|
                            m: int,
                        |
                            0 <= m < res@.len() && Some(#[trigger] res@[m].id@)
                                == dir_container_id(names@[j]@) by {
                        if j < i {
                            let m = choose|m: int|
                                0 <= m < before.len() && Some(#[trigger] before[m].id@)
                                    == dir_container_id(names@[j]@);
                            assert(res@[m].id@ == before[m].id@);
                        } else {
                            assert(res@[k as int].id@ == dir_container_id(names@[j]@).unwrap());
                        }
                    }
                } else {
                    assert(forall|m: int| 0 <= m < res@.len() ==> res@[m].id@ != id@);
                    res.push(CgroupDir { id, entry: i });
                    assert forall|j: int|
                        0 <= j < i + 1 && (#[trigger] dir_container_id(names@[j]@)) is Some implies exists|
                            m: int,
                        |
                            0 <= m < res@.len() && Some(#[trigger] res@[m].id@)
                                == dir_container_id(names@[j]@) by {
                        if j < i {
                            let m = choose|m: int|
                                0 <= m < before.len() && Some(#[trigger] before[m].id@)
                                    == dir_container_id(names@[j]@);
                            assert(res@[m] == before[m]);
                        } else {
                            assert(res@[before.len() as int].id@ == dir_container_id(
                                names@[j]@,
                            ).unwrap());
                        }
                    }
                }
            },
            None => {},
        }
        i = i + 1;
    }
    res
}


/// Whether the directory `d` answers to the id `id`: by equal ids, or by
/// its id beginning with `id`.
pub open spec fn dir_answers(d: CgroupDir, id: Seq<char>, exact: bool) -> bool {
    if exact {
        d.id@ == id
    } else {
        has_prefix(d.id@, id)
    }
}

/// Position of the first of `dirs` that answers to `id`.
pub open spec fn first_answer(dirs: Seq<CgroupDir>, id: Seq<char>, exact: bool) -> Option<int>
    decreases dirs.len(),
{
    if dirs.len() == 0 {
        None
    } else if dir_answers(dirs[0], id, exact) {
        Some(0)
    } else {
        match first_answer(dirs.drop_first(), id, exact) {
            Some(k) => Some(k + 1),
            None => None,
        }
    }
}

proof fn lemma_first_answer(dirs: Seq<CgroupDir>, id: Seq<char>, exact: bool, k: int)
    requires
        0 <= k <= dirs.len(),
        forall|j: int| 0 <= j < k ==> !dir_answers(#[trigger] dirs[j], id, exact),
    ensures
        k < dirs.len() && dir_answers(dirs[k], id, exact) ==> first_answer(dirs, id, exact)
            == Some(k),
        k == dirs.len() ==> first_answer(dirs, id, exact) is None,
    decreases k,
{
    if k > 0 {
        lemma_first_answer(dirs.drop_first(), id, exact, k - 1);
        assert(!dir_answers(dirs[0], id, exact));
    }
}

/// The directory entry that the container id `id` resolves to: the first
/// directory with exactly this id, else the first whose id begins with it.
pub open spec fn resolve(dirs: Seq<CgroupDir>, id: Seq<char>) -> Option<usize> {
    match first_answer(dirs, id, true) {
        Some(k) => Some(dirs[k].entry),
        None => match first_answer(dirs, id, false) {
            Some(k) => Some(dirs[k].entry),
            None => None,
        },
    }
}

/// Position of the first of `dirs` that answers to `id`.
fn find_answer(dirs: &[CgroupDir], id: &str, exact: bool) -> (res: Option<usize>)
    ensures
        match res {
            Some(k) => first_answer(dirs@, id@, exact) == Some(k as int) && k < dirs@.len(),
            None => first_answer(dirs@, id@, exact) is None,
        },
{
    let mut k: usize = 0;
    while k < dirs.len()
        invariant
            k <= dirs@.len(),
            forall|j: int| 0 <= j < k ==> !dir_answers(#[trigger] dirs@[j], id@, exact),
        decreases dirs.len() - k,
    {
        let hit = if exact {
            same_text(dirs[k].id.as_str(), id)
        } else {
            starts_with(dirs[k].id.as_str(), id)
        };
        if hit {
            proof {
                lemma_first_answer(dirs@, id@, exact, k as int);
            }
            return Some(k);
        }
        k = k + 1;
    }
    proof {
        lemma_first_answer(dirs@, id@, exact, k as int);
    }
    None
}

/// The map from container id to directory entry that matching the ids
/// `ids` against `dirs` gives: each id of `ids` that resolves, to what it
/// resolves to.
pub open spec fn cgroup_map(ids: Seq<Seq<char>>, dirs: Seq<CgroupDir>) -> Map<Seq<char>, usize> {
    Map::new(
        |id: Seq<char>| ids.contains(id) && resolve(dirs, id) is Some,
        |id: Seq<char>| resolve(dirs, id)->0,
    )
}

/// The map that a list of matches stands for.
pub open spec fn matches_map(res: Seq<CgroupMatch>) -> Map<Seq<char>, usize> {
    Map::new(
        |id: Seq<char>| exists|k: int| 0 <= k < res.len() && (#[trigger] res[k]).id@ == id,
        |id: Seq<char>|
            res[choose|k: int| 0 <= k < res.len() && (#[trigger] res[k]).id@ == id].entry,
    )
}

proof fn lemma_matches_form_cgroup_map(ids: Seq<&str>, dirs: Seq<CgroupDir>, res: Seq<CgroupMatch>)
    requires
        forall|k: int|
            0 <= k < res.len() ==> {
                &&& exists|j: int| 0 <= j < ids.len() && (#[trigger] ids[j])@ == res[k].id@
                &&& resolve(dirs, (#[trigger] res[k]).id@) == Some(res[k].entry)
            },
        forall|j: int|
            0 <= j < ids.len() && (#[trigger] resolve(dirs, ids[j]@)) is Some ==> exists|k: int|
                0 <= k < res.len() && (#[trigger] res[k]).id@ == ids[j]@,
    ensures
        matches_map(res) == cgroup_map(ids.map_values(|s: &str| s@), dirs),
{
    let views = ids.map_values(|s: &str| s@);
    let m1 = matches_map(res);
    let m2 = cgroup_map(views, dirs);
    assert forall|id: Seq<char>| m1.dom().contains(id) <==> m2.dom().contains(id) by {
        if m1.dom().contains(id) {
            let k = choose|k: int| 0 <= k < res.len() && (#[trigger] res[k]).id@ == id;
            let j = choose|j: int| 0 <= j < ids.len() && (#[trigger] ids[j])@ == res[k].id@;
            assert(views[j] == id);
        }
        if m2.dom().contains(id) {
            let j = choose|j: int| 0 <= j < views.len() && views[j] == id;
            assert(ids[j]@ == id);
            assert(resolve(dirs, ids[j]@) is Some);
        }
    }
    assert forall|id: Seq<char>| m1.dom().contains(id) implies m1[id] == m2[id] by {
        let k = choose|k: int| 0 <= k < res.len() && (#[trigger] res[k]).id@ == id;
        assert(resolve(dirs, res[k].id@) == Some(res[k].entry));
    }
    assert(m1 =~= m2);
}

/// A container id, matched to the cgroup directory entry it resolves to.
#[derive(Debug)]
pub struct CgroupMatch {
    pub id: String,
    pub entry: usize,
}

/// Resolves a container id among the cgroup directories.
pub fn resolve_cgroup(id: &str, dirs: &[CgroupDir]) -> (res: Option<usize>)
    ensures
        res == resolve(dirs@, id@),
{
    match find_answer(dirs, id, true) {
        Some(k) => Some(dirs[k].entry),
        None => match find_answer(dirs, id, false) {
            Some(k) => Some(dirs[k].entry),
            None => None,
        },
    }
}

/// Matches each of the container `ids` to its cgroup directory: one entry
/// per distinct id that resolves (an id may be a prefix of a full id).
pub fn build_cgroup_map(ids: &[&str], dirs: &[CgroupDir]) -> (res: Vec<CgroupMatch>)
    ensures
        forall|k: int|
            0 <= k < res@.len() ==> {
                &&& exists|j: int| 0 <= j < ids@.len() && (#[trigger] ids@[j])@ == res@[k].id@
                &&& resolve(dirs@, (#[trigger] res@[k]).id@) == Some(res@[k].entry)
            },
        forall|j: int|
            0 <= j < ids@.len() && (#[trigger] resolve(dirs@, ids@[j]@)) is Some ==> exists|
                k: int,
            | 0 <= k < res@.len() && (#[trigger] res@[k]).id@ == ids@[j]@,
        forall|k1: int, k2: int|
            0 <= k1 < res@.len() && 0 <= k2 < res@.len() && k1 != k2 ==> #[trigger] res@[k1].id@
                != #[trigger] res@[k2].id@,
        matches_map(res@) == cgroup_map(ids@.map_values(|s: &str| s@), dirs@),
{
    let mut res: Vec<CgroupMatch> = Vec::new();
    let mut i: usize = 0;
    while i < ids.len()
        invariant
            i <= ids@.len(),
            forall|k: int|
                0 <= k < res@.len() ==> {
                    &&& exists|j: int| 0 <= j < i && (#[trigger] ids@[j])@ == res@[k].id@
                    &&& resolve(dirs@, (#[trigger] res@[k]).id@) == Some(res@[k].entry)
                },
            forall|j: int|
                0 <= j < i && (#[trigger] resolve(dirs@, ids@[j]@)) is Some ==> exists|k: int|
                    0 <= k < res@.len() && (#[trigger] res@[k]).id@ == ids@[j]@,
            forall|k1: int, k2: int|
                0 <= k1 < res@.len() && 0 <= k2 < res@.len() && k1 != k2 ==> #[trigger] res@[k1].id@
                    != #[trigger] res@[k2].id@,
        decreases ids.len() - i,
    {
        let id: &str = ids[i];
        match resolve_cgroup(id, dirs) {
            Some(entry) => {
                let mut k: usize = 0;
                let mut found: bool = false;
                while k < res.len() && !found
                    invariant
                        k <= res@.len(),
                        found ==> k < res@.len() && res@[k as int].id@ == id@,
                        forall|m: int| 0 <= m < k ==> res@[m].id@ != id@,
                    decreases res.len() - k + (if found {
                        0int
                    } else {
                        1int
                    }),
                {
                    if same_text(res[k].id.as_str(), id) {
                        found = true;
                    } else {
                        k = k + 1;
                    }
                }
                if !found {
                    let ghost before = res@;
                    let copy = crate::text::copy_text(id);
                    res.push(CgroupMatch { id: copy, entry });
                    assert forall|k2: int| 0 <= k2 < res@.len() implies {
                        &&& exists|j: int| 0 <= j < i + 1 && (#[trigger] ids@[j])@ == res@[k2].id@
                        &&& resolve(dirs@, (#[trigger] res@[k2]).id@) == Some(res@[k2].entry)
                    } by {
                        if k2 < before.len() {
                            assert(res@[k2] == before[k2]);
                        } else {
                            assert(ids@[i as int]@ == res@[k2].id@);
                        }
                    }
                    assert forall|j: int|
                        0 <= j < i + 1 && (#[trigger] resolve(dirs@, ids@[j]@)) is Some implies exists|
                            m: int,
                        | 0 <= m < res@.len() && (#[trigger] res@[m]).id@ == ids@[j]@ by {
                        if j < i {
                            let m = choose|m: int|
                                0 <= m < before.len() && (#[trigger] before[m]).id@ == ids@[j]@;
                            assert(res@[m] == before[m]);
                        } else {
                            assert(res@[before.len() as int].id@ == ids@[j]@);
                        }
                    }
                } else {
                    assert(ids@[i as int]@ == res@[k as int].id@);
                }
            },
            None => {},
        }
        i = i + 1;
    }
    proof {
        lemma_matches_form_cgroup_map(ids@, dirs@, res@);
    }
    res
}

} // verus!
