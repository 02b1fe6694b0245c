//! Vehicle profiles — multi-vehicle, data-driven PID tables.
use crate::j1979::pid::{
    pid_def_views, standard_pid_defs, standard_pid_table, PidDef, PidDefView,
};
use crate::order::{key_views, sort_by_keys, stable_sorted, SortKey};
use crate::text::{chars_eq, chars_of, owned, sviews};
use vstd::prelude::*;

verus! {

/// A vehicle profile (stored as YAML by the application).
#[derive(Debug, Clone)]
pub struct VehicleProfile {
    pub id: String,
    pub name: String,
    pub makes: Vec<String>,
    pub notes: String,
    pub dual_bus: bool,
    pub pids: Vec<ProfilePid>,
    pub modules: Vec<ModuleStub>,
}

/// PID entry in a profile (extends or overrides standard).
#[derive(Debug, Clone)]
pub struct ProfilePid {
    pub mode: u8,
    pub pid: u8,
    pub name: String,
    pub unit: String,
    pub description: String,
    /// Optional bus preference for dual-bus vehicles.
    pub bus: Option<String>,
}

/// Placeholder for future module maps (Ford ECU list, etc.).
#[derive(Debug, Clone)]
pub struct ModuleStub {
    pub id: String,
    pub name: String,
    pub bus: Option<String>,
    pub notes: String,
}

impl Default for ModuleStub {
    fn default() -> (r: Self)
        ensures
            r.id@.len() == 0 && r.name@.len() == 0 && r.bus is None && r.notes@.len() == 0,
    {
        ModuleStub { id: String::new(), name: String::new(), bus: None, notes: String::new() }
    }
}

pub struct ProfilePidView {
    pub mode: u8,
    pub pid: u8,
    pub name: Seq<char>,
    pub unit: Seq<char>,
    pub description: Seq<char>,
}

impl View for ProfilePid {
    type V = ProfilePidView;

    open spec fn view(&self) -> ProfilePidView {
        ProfilePidView {
            mode: self.mode,
            pid: self.pid,
            name: self.name@,
            unit: self.unit@,
            description: self.description@,
        }
    }
}

pub open spec fn profile_pid_views(v: Seq<ProfilePid>) -> Seq<ProfilePidView> {
    v.map_values(|p: ProfilePid| p@)
}

/// First entry of `m` with the given mode and PID.
pub open spec fn def_index_from(m: Seq<PidDefView>, mode: u8, pid: u8, i: int) -> Option<int>
    decreases m.len() - i,
{
    if i < 0 || i >= m.len() {
        None
    } else if m[i].mode == mode && m[i].pid == pid {
        Some(i)
    } else {
        def_index_from(m, mode, pid, i + 1)
    }
}

pub open spec fn def_index(m: Seq<PidDefView>, mode: u8, pid: u8) -> Option<int> {
    def_index_from(m, mode, pid, 0)
}

/// One profile PID merged into a table: it renames the entry with the same
/// mode and PID (and replaces its unit and description when it gives them),
/// or is appended as a new entry.
pub open spec fn merge_pid(m: Seq<PidDefView>, p: ProfilePidView) -> Seq<PidDefView> {
    match def_index(m, p.mode, p.pid) {
        Some(i) => m.update(
            i,
            PidDefView {
                mode: m[i].mode,
                pid: m[i].pid,
                name: p.name,
                unit: if p.unit.len() > 0 {
                    p.unit
                } else {
                    m[i].unit
                },
                description: if p.description.len() > 0 {
                    p.description
                } else {
                    m[i].description
                },
            },
        ),
        None => m.push(
            PidDefView {
                mode: p.mode,
                pid: p.pid,
                name: p.name,
                unit: p.unit,
                description: p.description,
            },
        ),
    }
}

/// A table with profile PIDs merged in order.
pub open spec fn resolve_pids(base: Seq<PidDefView>, ps: Seq<ProfilePidView>) -> Seq<PidDefView>
    decreases ps.len(),
{
    if ps.len() == 0 {
        base
    } else {
        merge_pid(resolve_pids(base, ps.drop_last()), ps.last())
    }
}

fn find_def(m: &Vec<PidDef>, mode: u8, pid: u8) -> (r: Option<usize>)
    ensures
        match def_index(pid_def_views(m@), mode, pid) {
            Some(i) => r == Some(i as usize) && i < m@.len(),
            None => r is None,
        },
{
    let mut i: usize = 0;
    while i < m.len()
        invariant
            i <= m@.len(),
            def_index(pid_def_views(m@), mode, pid) == def_index_from(
                pid_def_views(m@),
                mode,
                pid,
                i as int,
            ),
        decreases m@.len() - i,
    {
        if m[i].mode == mode && m[i].pid == pid {
            return Some(i);
        }
        i += 1;
    }
    None
}

proof fn lemma_def_index_from(m: Seq<PidDefView>, mode: u8, pid: u8, i: int)
    requires
        0 <= i,
    ensures
        match def_index_from(m, mode, pid, i) {
            Some(k) => i <= k < m.len() && m[k].mode == mode && m[k].pid == pid && forall|j: int|
                i <= j < k ==> !(m[j].mode == mode && m[j].pid == pid),
            None => forall|j: int| i <= j < m.len() ==> !(m[j].mode == mode && m[j].pid == pid),
        },
    decreases m.len() - i,
{
    if i < m.len() && !(m[i].mode == mode && m[i].pid == pid) {
        lemma_def_index_from(m, mode, pid, i + 1);
    }
}

impl VehicleProfile {
    /// Merge profile PIDs with built-in standards (profile wins on same mode/pid).
    #[verifier::spinoff_prover]
    pub fn resolved_pids(&self) -> (r: Vec<PidDef>)
        ensures
            pid_def_views(r@) == resolve_pids(standard_pid_table(), profile_pid_views(self.pids@)),
    {
        let mut map: Vec<PidDef> = standard_pid_defs();
        let ghost ps = profile_pid_views(self.pids@);
        let mut k: usize = 0;
        while k < self.pids.len()
            invariant
                k <= self.pids@.len(),
                ps == profile_pid_views(self.pids@),
                pid_def_views(map@) == resolve_pids(standard_pid_table(), ps.subrange(0, k as int)),
            decreases self.pids@.len() - k,
        {
            let p = &self.pids[k];
            let ghost before = pid_def_views(map@);
            proof {
                let pre = ps.subrange(0, k + 1);
                assert(pre.drop_last() =~= ps.subrange(0, k as int));
                assert(pre.last() == p@);
                lemma_def_index_from(before, p.mode, p.pid, 0);
            }
            let n_map: usize = map.len();
            match find_def(&map, p.mode, p.pid) {
                Some(i) => {
                    let ghost old_map = map@;
                    proof {
                        assert(old_map == map@);
                        assert(pid_def_views(old_map) == before);
                        match def_index(before, p.mode, p.pid) {
                            Some(j) => {
                                assert(0 <= j < n_map);
                                assert(j == i as int);
                            },
                            None => {
                                assert(false);
                            },
                        }
                        assert(def_index(before, p.mode, p.pid) == Some(i as int));
                    }
                    let mut d = map.remove(i);
                    d.name = p.name.clone();
                    if !p.unit.as_str().is_empty() {
                        d.unit = p.unit.clone();
                    }
                    if !p.description.as_str().is_empty() {
                        d.description = p.description.clone();
                    }
                    map.insert(i, d);
                    proof {
                        assert(map@ =~= old_map.update(i as int, map@[i as int]));
                        assert(pid_def_views(map@) =~= before.update(i as int, map@[i as int]@));
                        assert(map@[i as int]@ == merge_pid(before, p@)[i as int]);
                        assert(pid_def_views(map@) =~= merge_pid(before, p@));
                    }
                },
                None => {
                    let ghost old_map = map@;
                    map.push(
                        PidDef {
                            mode: p.mode,
                            pid: p.pid,
                            name: p.name.clone(),
                            unit: p.unit.clone(),
                            description: p.description.clone(),
                        },
                    );
                    proof {
                        assert(pid_def_views(map@) =~= merge_pid(before, p@));
                    }
                },
            }
            k += 1;
        }
        assert(ps.subrange(0, self.pids@.len() as int) =~= ps);
        map
    }
}

/// The built-in generic profile's PIDs: the standard table without bus preference.
pub open spec fn generic_pid_views() -> Seq<ProfilePidView> {
    standard_pid_table().map_values(
        |d: PidDefView|
            ProfilePidView {
                mode: d.mode,
                pid: d.pid,
                name: d.name,
                unit: d.unit,
                description: d.description,
            },
    )
}

/// Built-in generic profile when no files exist.
pub fn generic_profile() -> (r: VehicleProfile)
    ensures
        r.id@ == "generic_j1979"@,
        r.name@ == "Generic J1979"@,
        sviews(r.makes@) == seq!["*"@],
        r.notes@ == "Standard OBD-II Mode 01/03/09 PIDs."@,
        !r.dual_bus,
        profile_pid_views(r.pids@) == generic_pid_views(),
        forall|i: int| 0 <= i < r.pids@.len() ==> (#[trigger] r.pids@[i]).bus is None,
        r.modules@.len() == 0,
{
    let defs = standard_pid_defs();
    let mut pids: Vec<ProfilePid> = Vec::new();
    let mut i: usize = 0;
    while i < defs.len()
        invariant
            i <= defs@.len(),
            pid_def_views(defs@) == standard_pid_table(),
            profile_pid_views(pids@) == generic_pid_views().subrange(0, i as int),
            forall|j: int| 0 <= j < pids@.len() ==> (#[trigger] pids@[j]).bus is None,
        decreases defs@.len() - i,
    {
        let d = &defs[i];
        let ghost before = profile_pid_views(pids@);
        pids.push(
            ProfilePid {
                mode: d.mode,
                pid: d.pid,
                name: d.name.clone(),
                unit: d.unit.clone(),
                description: d.description.clone(),
                bus: None,
            },
        );
        proof {
            assert(pid_def_views(defs@)[i as int] == d@);
            assert(profile_pid_views(pids@) =~= before.push(generic_pid_views()[i as int]));
            assert(generic_pid_views().subrange(0, i + 1) =~= generic_pid_views().subrange(
                0,
                i as int,
            ).push(generic_pid_views()[i as int]));
        }
        i += 1;
    }
    assert(generic_pid_views().subrange(0, defs@.len() as int) =~= generic_pid_views());
    let mut makes: Vec<String> = Vec::new();
    makes.push(owned("*"));
    assert(sviews(makes@) =~= seq!["*"@]);
    VehicleProfile {
        id: owned("generic_j1979"),
        name: owned("Generic J1979"),
        makes,
        notes: owned("Standard OBD-II Mode 01/03/09 PIDs."),
        dual_bus: false,
        pids,
        modules: Vec::new(),
    }
}

/// The profile with a given id among loaded profiles (the first such), or the
/// built-in generic profile.
pub fn select_profile(profiles: Vec<VehicleProfile>, id: &str) -> (r: VehicleProfile)
    ensures
        (exists|i: int| 0 <= i < profiles@.len() && #[trigger] profiles@[i].id@ == id@) ==> (
        exists|i: int|
            0 <= i < profiles@.len() && r == profiles@[i] && profiles@[i].id@ == id@ && (forall|
                j: int,
            | 0 <= j < i ==> (#[trigger] profiles@[j]).id@ != id@)),
        !(exists|i: int| 0 <= i < profiles@.len() && #[trigger] profiles@[i].id@ == id@) ==> r.id@
            == "generic_j1979"@,
{
    let want = chars_of(id);
    let ghost all = profiles@;
    let mut rest = profiles;
    let mut i: usize = 0;
    let n: usize = rest.len();
    while i < n
        invariant
            n == all.len(),
            all == profiles@,
            i <= n,
            rest@.len() == n - i,
            forall|j: int| 0 <= j < rest@.len() ==> rest@[j] == all[i + j],
            forall|j: int| 0 <= j < i ==> (#[trigger] all[j]).id@ != id@,
            want@ == id@,
        decreases n - i,
    {
        let p = rest.remove(0);
        assert(p == all[i as int]);
        if chars_eq(&chars_of(p.id.as_str()), &want) {
            assert(all[i as int].id@ == id@);
            assert(all == profiles@);
            assert(profiles@[i as int].id@ == id@);
            return p;
        }
        i += 1;
    }
    generic_profile()
}

/// Sort keys of profiles: their ids.
pub open spec fn profile_keys(v: Seq<VehicleProfile>) -> Seq<SortKey> {
    v.map_values(|p: VehicleProfile| (0u8, p.id@))
}

/// Orders loaded profiles by id; profiles with equal ids keep their order.
pub fn sort_profiles_by_id(list: &mut Vec<VehicleProfile>)
    ensures
        stable_sorted(old(list)@, profile_keys(old(list)@), final(list)@),
{
    let mut v: Vec<VehicleProfile> = Vec::new();
    std::mem::swap(&mut v, list);
    let mut keys: Vec<(u8, Vec<char>)> = Vec::new();
    let mut i: usize = 0;
    while i < v.len()
        invariant
            i <= v@.len(),
            keys@.len() == i,
            forall|k: int| 0 <= k < i ==> #[trigger] key_views(keys@)[k] == profile_keys(v@)[k],
        decreases v@.len() - i,
    {
        let ghost before = key_views(keys@);
        keys.push((0u8, chars_of(v[i].id.as_str())));
        proof {
            assert(key_views(keys@) =~= before.push(profile_keys(v@)[i as int]));
        }
        i += 1;
    }
    assert(key_views(keys@) =~= profile_keys(v@));
    *list = sort_by_keys(v, keys);
}

// ---------------------------------------------------------------------------
// Laws of PID resolution
// ---------------------------------------------------------------------------

/// Resolution never drops or reorders the table it starts from: the first
/// entries keep their mode and PID.
pub proof fn lemma_resolve_keeps_base_keys(base: Seq<PidDefView>, ps: Seq<ProfilePidView>)
    ensures
        resolve_pids(base, ps).len() >= base.len(),
        forall|i: int|
            0 <= i < base.len() ==> (#[trigger] resolve_pids(base, ps)[i]).mode == base[i].mode
                && resolve_pids(base, ps)[i].pid == base[i].pid,
    decreases ps.len(),
{
    if ps.len() > 0 {
        lemma_resolve_keeps_base_keys(base, ps.drop_last());
        let m = resolve_pids(base, ps.drop_last());
        lemma_def_index_from(m, ps.last().mode, ps.last().pid, 0);
    }
}

/// Every mode/PID a profile names is in the resolved table, under the name
/// that the last profile entry for it gives (the profile wins).
pub proof fn lemma_resolve_profile_wins(base: Seq<PidDefView>, ps: Seq<ProfilePidView>, k: int)
    requires
        0 <= k < ps.len(),
        forall|j: int|
            k < j < ps.len() ==> !(#[trigger] ps[j].mode == ps[k].mode && ps[j].pid == ps[k].pid),
    ensures
        def_index(resolve_pids(base, ps), ps[k].mode, ps[k].pid) matches Some(i) && resolve_pids(
            base,
            ps,
        )[i].name == ps[k].name,
    decreases ps.len(),
{
    let m = resolve_pids(base, ps.drop_last());
    let p = ps.last();
    let r = resolve_pids(base, ps);
    lemma_def_index_from(m, p.mode, p.pid, 0);
    if k == ps.len() - 1 {
        lemma_def_index_from(r, p.mode, p.pid, 0);
        match def_index(m, p.mode, p.pid) {
            Some(i) => {
                assert(r[i].mode == p.mode && r[i].pid == p.pid);
            },
            None => {
                assert(r[m.len() as int].mode == p.mode);
            },
        }
    } else {
        lemma_resolve_profile_wins(base, ps.drop_last(), k);
        let q = ps[k];
        lemma_def_index_from(m, q.mode, q.pid, 0);
        lemma_def_index_from(r, q.mode, q.pid, 0);
        let i = def_index(m, q.mode, q.pid)->Some_0;
        match def_index(m, p.mode, p.pid) {
            Some(t) => {
                assert(t != i);
                assert(r[i] == m[i]);
                assert forall|j: int| 0 <= j < i implies !(r[j].mode == q.mode && r[j].pid
                    == q.pid) by {
                    if j == t {
                    } else {
                        assert(r[j] == m[j]);
                    }
                }
            },
            None => {
                assert(r[i] == m[i]);
                assert forall|j: int| 0 <= j < i implies !(r[j].mode == q.mode && r[j].pid
                    == q.pid) by {
                    assert(r[j] == m[j]);
                }
            },
        }
    }
}


/// Whether some profile entry names this mode and PID.
pub open spec fn profile_names(ps: Seq<ProfilePidView>, mode: u8, pid: u8) -> bool {
    exists|k: int| 0 <= k < ps.len() && (#[trigger] ps[k]).mode == mode && ps[k].pid == pid
}

/// The entry a table starts with for a mode and PID: its first entry with
/// them, or an entry with empty texts.
pub open spec fn base_entry(base: Seq<PidDefView>, mode: u8, pid: u8) -> PidDefView {
    match def_index(base, mode, pid) {
        Some(j) => base[j],
        None => PidDefView {
            mode,
            pid,
            name: Seq::empty(),
            unit: Seq::empty(),
            description: Seq::empty(),
        },
    }
}

/// The name of the last profile entry for a mode and PID, else `fallback`.
pub open spec fn last_name(ps: Seq<ProfilePidView>, mode: u8, pid: u8, fallback: Seq<char>) -> Seq<
    char,
>
    decreases ps.len(),
{
    if ps.len() == 0 {
        fallback
    } else if ps.last().mode == mode && ps.last().pid == pid {
        ps.last().name
    } else {
        last_name(ps.drop_last(), mode, pid, fallback)
    }
}

/// The unit of the last profile entry for a mode and PID that gives one,
/// else `fallback`.
pub open spec fn last_unit(ps: Seq<ProfilePidView>, mode: u8, pid: u8, fallback: Seq<char>) -> Seq<
    char,
>
    decreases ps.len(),
{
    if ps.len() == 0 {
        fallback
    } else if ps.last().mode == mode && ps.last().pid == pid && ps.last().unit.len() > 0 {
        ps.last().unit
    } else {
        last_unit(ps.drop_last(), mode, pid, fallback)
    }
}

/// The description of the last profile entry for a mode and PID that gives
/// one, else `fallback`.
pub open spec fn last_description(
    ps: Seq<ProfilePidView>,
    mode: u8,
    pid: u8,
    fallback: Seq<char>,
) -> Seq<char>
    decreases ps.len(),
{
    if ps.len() == 0 {
        fallback
    } else if ps.last().mode == mode && ps.last().pid == pid && ps.last().description.len() > 0 {
        ps.last().description
    } else {
        last_description(ps.drop_last(), mode, pid, fallback)
    }
}

/// Mode and PID of the profile entries that `base` lacks, each once, in the
/// order in which they first appear.
pub open spec fn added_keys(base: Seq<PidDefView>, ps: Seq<ProfilePidView>) -> Seq<(u8, u8)>
    decreases ps.len(),
{
    if ps.len() == 0 {
        Seq::empty()
    } else {
        let p = ps.last();
        let prev = added_keys(base, ps.drop_last());
        if def_index(base, p.mode, p.pid) is None && !profile_names(ps.drop_last(), p.mode, p.pid) {
            prev.push((p.mode, p.pid))
        } else {
            prev
        }
    }
}

/// No two entries of a table share a mode and PID.
pub open spec fn keys_distinct(m: Seq<PidDefView>) -> bool {
    forall|i: int, j: int|
        0 <= i < j < m.len() ==> !((#[trigger] m[i]).mode == (#[trigger] m[j]).mode && m[i].pid
            == m[j].pid)
}

proof fn lemma_profile_names_last(ps: Seq<ProfilePidView>, mode: u8, pid: u8)
    requires
        ps.len() > 0,
    ensures
        profile_names(ps, mode, pid) == (profile_names(ps.drop_last(), mode, pid) || (
        ps.last().mode == mode && ps.last().pid == pid)),
{
    let d = ps.drop_last();
    if profile_names(ps, mode, pid) {
        let k = choose|k: int| 0 <= k < ps.len() && (#[trigger] ps[k]).mode == mode && ps[k].pid == pid;
        if k < d.len() {
            assert(d[k] == ps[k]);
        }
    }
    if profile_names(d, mode, pid) {
        let k = choose|k: int| 0 <= k < d.len() && (#[trigger] d[k]).mode == mode && d[k].pid == pid;
        assert(ps[k] == d[k]);
    }
    if ps.last().mode == mode && ps.last().pid == pid {
        assert(ps[ps.len() - 1] == ps.last());
    }
}

proof fn lemma_last_absent(ps: Seq<ProfilePidView>, mode: u8, pid: u8, fu: Seq<char>, fd: Seq<char>)
    requires
        !profile_names(ps, mode, pid),
    ensures
        last_unit(ps, mode, pid, fu) == fu,
        last_description(ps, mode, pid, fd) == fd,
    decreases ps.len(),
{
    if ps.len() > 0 {
        lemma_profile_names_last(ps, mode, pid);
        lemma_last_absent(ps.drop_last(), mode, pid, fu, fd);
    }
}

proof fn lemma_def_index_from_same_keys(
    a: Seq<PidDefView>,
    b: Seq<PidDefView>,
    mode: u8,
    pid: u8,
    i: int,
)
    requires
        a.len() == b.len(),
        forall|j: int| 0 <= j < a.len() ==> (#[trigger] a[j]).mode == b[j].mode && a[j].pid == b[j].pid,
    ensures
        def_index_from(a, mode, pid, i) == def_index_from(b, mode, pid, i),
    decreases a.len() - i,
{
    if 0 <= i < a.len() {
        lemma_def_index_from_same_keys(a, b, mode, pid, i + 1);
    }
}

/// Merging a profile into a table: a mode and PID is in the result exactly
/// when the table or the profile has it, and its entry takes the name of the
/// last profile entry for it, and the unit and description of the last
/// profile entry that gives one; what the profile leaves open stays as the
/// table had it (empty for a new entry).
pub proof fn lemma_resolve_entry(base: Seq<PidDefView>, ps: Seq<ProfilePidView>, mode: u8, pid: u8)
    ensures
        def_index(resolve_pids(base, ps), mode, pid) is Some <==> (def_index(base, mode, pid) is Some
            || profile_names(ps, mode, pid)),
        def_index(resolve_pids(base, ps), mode, pid) matches Some(i) ==> {
            let e = resolve_pids(base, ps)[i];
            let b = base_entry(base, mode, pid);
            &&& e.mode == mode
            &&& e.pid == pid
            &&& e.name == last_name(ps, mode, pid, b.name)
            &&& e.unit == last_unit(ps, mode, pid, b.unit)
            &&& e.description == last_description(ps, mode, pid, b.description)
        },
    decreases ps.len(),
{
    let r = resolve_pids(base, ps);
    lemma_def_index_from(r, mode, pid, 0);
    if ps.len() > 0 {
        let d = ps.drop_last();
        let p = ps.last();
        let m = resolve_pids(base, d);
        let b = base_entry(base, mode, pid);
        lemma_resolve_entry(base, d, mode, pid);
        lemma_profile_names_last(ps, mode, pid);
        lemma_def_index_from(m, mode, pid, 0);
        lemma_def_index_from(m, p.mode, p.pid, 0);
        if p.mode == mode && p.pid == pid {
            match def_index(m, mode, pid) {
                Some(i) => {
                    assert(r[i].mode == mode && r[i].pid == pid);
                    assert forall|j: int| 0 <= j < i implies !(r[j].mode == mode && r[j].pid == pid) by {
                        assert(r[j] == m[j]);
                    }
                    assert(def_index(r, mode, pid) == Some(i));
                },
                None => {
                    lemma_last_absent(d, mode, pid, b.unit, b.description);
                    let n = m.len() as int;
                    assert(r[n].mode == mode && r[n].pid == pid);
                    assert forall|j: int| 0 <= j < n implies !(r[j].mode == mode && r[j].pid == pid) by {
                        assert(r[j] == m[j]);
                    }
                    assert(def_index(r, mode, pid) == Some(n));
                    assert(p.unit.len() == 0 ==> p.unit =~= Seq::<char>::empty());
                    assert(p.description.len() == 0 ==> p.description =~= Seq::<char>::empty());
                },
            }
        } else {
            match def_index(m, p.mode, p.pid) {
                Some(t) => {
                    lemma_def_index_from_same_keys(m, r, mode, pid, 0);
                    if let Some(i) = def_index(m, mode, pid) {
                        assert(i != t);
                        assert(r[i] == m[i]);
                    }
                },
                None => {
                    match def_index(m, mode, pid) {
                        Some(i) => {
                            assert(r[i] == m[i]);
                            assert forall|j: int| 0 <= j < i implies !(r[j].mode == mode && r[j].pid
                                == pid) by {
                                assert(r[j] == m[j]);
                            }
                            assert(def_index(r, mode, pid) == Some(i));
                        },
                        None => {
                            assert forall|j: int| 0 <= j < r.len() implies !(r[j].mode == mode
                                && r[j].pid == pid) by {
                                if j < m.len() {
                                    assert(r[j] == m[j]);
                                }
                            }
                            if let Some(k) = def_index(r, mode, pid) {
                                assert(r[k].mode == mode && r[k].pid == pid);
                            }
                        },
                    }
                },
            }
        }
    }
}

/// Merging a profile keeps the table's entries first and appends, after
/// them, one entry for each mode and PID that only the profile names, in the
/// order in which the profile first names them.
pub proof fn lemma_resolve_appends(base: Seq<PidDefView>, ps: Seq<ProfilePidView>)
    ensures
        resolve_pids(base, ps).len() == base.len() + added_keys(base, ps).len(),
        forall|j: int|
            0 <= j < added_keys(base, ps).len() ==> (resolve_pids(base, ps)[base.len() + j].mode,
            resolve_pids(base, ps)[base.len() + j].pid) == #[trigger] added_keys(base, ps)[j],
    decreases ps.len(),
{
    if ps.len() > 0 {
        let d = ps.drop_last();
        let p = ps.last();
        let m = resolve_pids(base, d);
        let r = resolve_pids(base, ps);
        lemma_resolve_appends(base, d);
        lemma_resolve_entry(base, d, p.mode, p.pid);
        lemma_def_index_from(m, p.mode, p.pid, 0);
        let a = added_keys(base, d);
        match def_index(m, p.mode, p.pid) {
            Some(t) => {
                assert forall|j: int| 0 <= j < a.len() implies (r[base.len() + j].mode, r[base.len()
                    + j].pid) == #[trigger] a[j] by {
                    let q = base.len() + j;
                    assert(m[q] == resolve_pids(base, d)[base.len() + j]);
                }
            },
            None => {
                let ad = added_keys(base, ps);
                assert(ad == a.push((p.mode, p.pid)));
                assert forall|j: int| 0 <= j < ad.len() implies (r[base.len() + j].mode, r[base.len()
                    + j].pid) == #[trigger] ad[j] by {
                    if j < a.len() {
                        assert(ad[j] == a[j]);
                        assert(r[base.len() + j] == m[base.len() + j]);
                    }
                }
            },
        }
    }
}

/// Merging a profile into a table whose entries have distinct modes and
/// PIDs gives a table with the same property.
pub proof fn lemma_resolve_keys_distinct(base: Seq<PidDefView>, ps: Seq<ProfilePidView>)
    requires
        keys_distinct(base),
    ensures
        keys_distinct(resolve_pids(base, ps)),
    decreases ps.len(),
{
    if ps.len() > 0 {
        let d = ps.drop_last();
        let p = ps.last();
        let m = resolve_pids(base, d);
        let r = resolve_pids(base, ps);
        lemma_resolve_keys_distinct(base, d);
        lemma_def_index_from(m, p.mode, p.pid, 0);
        match def_index(m, p.mode, p.pid) {
            Some(t) => {
                assert forall|i: int, j: int| 0 <= i < j < r.len() implies !((#[trigger] r[i]).mode
                    == (#[trigger] r[j]).mode && r[i].pid == r[j].pid) by {
                    assert(r[i].mode == m[i].mode && r[i].pid == m[i].pid);
                    assert(r[j].mode == m[j].mode && r[j].pid == m[j].pid);
                    assert(!(m[i].mode == m[j].mode && m[i].pid == m[j].pid));
                }
            },
            None => {
                assert forall|i: int, j: int| 0 <= i < j < r.len() implies !((#[trigger] r[i]).mode
                    == (#[trigger] r[j]).mode && r[i].pid == r[j].pid) by {
                    assert(r[i] == m[i]);
                    if j < m.len() {
                        assert(r[j] == m[j]);
                        assert(!(m[i].mode == m[j].mode && m[i].pid == m[j].pid));
                    }
                }
            },
        }
    }
}

/// The resolved PID table of any profile names each mode and PID once.
pub proof fn lemma_resolved_table_distinct(ps: Seq<ProfilePidView>)
    ensures
        keys_distinct(resolve_pids(standard_pid_table(), ps)),
{
    crate::j1979::decode::lemma_standard_table_distinct();
    let t = standard_pid_table();
    assert forall|i: int, j: int| 0 <= i < j < t.len() implies !((#[trigger] t[i]).mode
        == (#[trigger] t[j]).mode && t[i].pid == t[j].pid) by {}
    lemma_resolve_keys_distinct(t, ps);
}


/// The PID table a profile resolves to (what `VehicleProfile::resolved_pids`
/// returns): the standard table first, in its order; then one entry for each
/// mode and PID only the profile names, in the order the profile first names
/// them; every mode and PID once, exactly those of the standard table and of
/// the profile. Each entry the profile names takes the name of the last
/// profile entry for it, and the unit and description of the last profile
/// entry that gives one, else the standard table's (empty for a new entry).
pub proof fn lemma_resolved_pids_merge(ps: Seq<ProfilePidView>)
    ensures
        resolve_pids(standard_pid_table(), ps).len() == standard_pid_table().len() + added_keys(
            standard_pid_table(),
            ps,
        ).len(),
        forall|i: int|
            0 <= i < standard_pid_table().len() ==> (#[trigger] resolve_pids(
                standard_pid_table(),
                ps,
            )[i]).mode == standard_pid_table()[i].mode && resolve_pids(standard_pid_table(), ps)[i].pid
                == standard_pid_table()[i].pid,
        forall|j: int|
            0 <= j < added_keys(standard_pid_table(), ps).len() ==> (resolve_pids(
                standard_pid_table(),
                ps,
            )[standard_pid_table().len() + j].mode, resolve_pids(standard_pid_table(), ps)[
            standard_pid_table().len() + j].pid) == #[trigger] added_keys(standard_pid_table(), ps)[j],
        keys_distinct(resolve_pids(standard_pid_table(), ps)),
        forall|mode: u8, pid: u8|
            #[trigger] def_index(resolve_pids(standard_pid_table(), ps), mode, pid) is Some <==> (
            def_index(standard_pid_table(), mode, pid) is Some || profile_names(ps, mode, pid)),
        forall|mode: u8, pid: u8|
            #[trigger] def_index(resolve_pids(standard_pid_table(), ps), mode, pid) matches Some(i)
                ==> {
                let e = resolve_pids(standard_pid_table(), ps)[i];
                let b = base_entry(standard_pid_table(), mode, pid);
                &&& e.mode == mode
                &&& e.pid == pid
                &&& e.name == last_name(ps, mode, pid, b.name)
                &&& e.unit == last_unit(ps, mode, pid, b.unit)
                &&& e.description == last_description(ps, mode, pid, b.description)
            },
{
    let t = standard_pid_table();
    lemma_resolve_keeps_base_keys(t, ps);
    lemma_resolve_appends(t, ps);
    lemma_resolved_table_distinct(ps);
    assert forall|mode: u8, pid: u8|
        #[trigger] def_index(resolve_pids(t, ps), mode, pid) is Some <==> (def_index(t, mode, pid) is Some
            || profile_names(ps, mode, pid)) by {
        lemma_resolve_entry(t, ps, mode, pid);
    }
    assert forall|mode: u8, pid: u8|
        (#[trigger] def_index(resolve_pids(t, ps), mode, pid) matches Some(i) ==> {
            let e = resolve_pids(t, ps)[i];
            let b = base_entry(t, mode, pid);
            &&& e.mode == mode
            &&& e.pid == pid
            &&& e.name == last_name(ps, mode, pid, b.name)
            &&& e.unit == last_unit(ps, mode, pid, b.unit)
            &&& e.description == last_description(ps, mode, pid, b.description)
        }) by {
        lemma_resolve_entry(t, ps, mode, pid);
    }
}

} // verus!
