//! The topology registry: one slot per possible APIC id holding the core's
//! lifecycle state and NUMA domain, and the launch protocol that walks every
//! detected core from Offline through Launched to Online.
use vstd::prelude::*;
use crate::acpi::{AcpiError, MemoryAffinity, SratInfo};

verus! {

/// Number of core slots: the largest APIC id supported, plus one.
pub const MAX_CORES: usize = 1024;

/// Lifecycle state of a core slot.
#[derive(Clone, Copy, Debug, PartialEq, Eq, Structural)]
pub enum CoreState {
    /// No detected core has this APIC id.
    Absent,
    /// Detected, not yet started.
    Offline,
    /// The start sequence was sent; the core has not yet reported in.
    Launched,
    /// The core reported itself online.
    Online,
}

/// One slot of the registry.
#[derive(Clone, Copy, Debug, PartialEq, Eq)]
pub struct CoreSlot {
    pub state: CoreState,
    /// The core's NUMA domain, `None` while unknown.
    pub domain: Option<u32>,
}

/// The machine's processor topology as discovery left it.
#[derive(Debug)]
pub struct Topology {
    /// Number of detected cores (1 when no interrupt-controller table was
    /// found: an unknown topology counts as a single core).
    pub core_count: usize,
    /// One slot per APIC id, `MAX_CORES` of them.
    pub slots: Vec<CoreSlot>,
    /// The detected APIC ids, in table order.
    pub apics: Vec<u32>,
    /// Memory ranges and their NUMA domains.
    pub memory_domains: Vec<MemoryAffinity>,
}

/// The mathematical content of a `Topology`.
pub struct TopologyView {
    pub core_count: nat,
    pub slots: Seq<CoreSlot>,
    pub apics: Seq<u32>,
    pub memory_domains: Seq<MemoryAffinity>,
}

impl View for Topology {
    type V = TopologyView;

    open spec fn view(&self) -> TopologyView {
        TopologyView {
            core_count: self.core_count as nat,
            slots: self.slots@,
            apics: self.apics@,
            memory_domains: self.memory_domains@,
        }
    }
}

/// The domain that the pairs give to APIC id `id`: the last pair that names
/// it wins.
pub open spec fn domain_of(pairs: Seq<(u32, u32)>, id: int) -> Option<u32>
    decreases pairs.len(),
{
    if pairs.len() == 0 {
        None
    } else if pairs.last().0 == id {
        Some(pairs.last().1)
    } else {
        domain_of(pairs.drop_last(), id)
    }
}

/// One present core, as other subsystems see it.
#[derive(Clone, Copy, Debug, PartialEq, Eq)]
pub struct CoreInfo {
    pub apic_id: u32,
    pub state: CoreState,
    pub domain: Option<u32>,
}

/// The slots among the first `n` that are not Absent, in APIC id order.
pub open spec fn present_cores(slots: Seq<CoreSlot>, n: int) -> Seq<CoreInfo>
    decreases n,
{
    if n <= 0 {
        Seq::empty()
    } else {
        let prev = present_cores(slots, n - 1);
        let s = slots[n - 1];
        if s.state == CoreState::Absent {
            prev
        } else {
            prev.push(CoreInfo { apic_id: (n - 1) as u32, state: s.state, domain: s.domain })
        }
    }
}

impl Topology {
    /// Every present core with its APIC id, state and NUMA domain, in APIC id
    /// order (slots beyond `MAX_CORES` are not listed).
    pub fn snapshot(&self) -> (r: Vec<CoreInfo>)
        ensures
            r@ == present_cores(
                self.slots@,
                if self.slots@.len() < MAX_CORES {
                    self.slots@.len() as int
                } else {
                    MAX_CORES as int
                },
            ),
    {
        let n = if self.slots.len() < MAX_CORES {
            self.slots.len()
        } else {
            MAX_CORES
        };
        let mut r: Vec<CoreInfo> = Vec::new();
        let mut i: usize = 0;
        while i < n
            invariant
                i <= n,
                n <= MAX_CORES,
                n <= self.slots@.len(),
                r@ == present_cores(self.slots@, i as int),
            decreases n - i,
        {
            let s = self.slots[i];
            if s.state != CoreState::Absent {
                r.push(CoreInfo { apic_id: i as u32, state: s.state, domain: s.domain });
            }
            i += 1;
        }
        r
    }
}

/// Slot `i` of a freshly built registry.
pub open spec fn slot_model(apics: Seq<u32>, pairs: Seq<(u32, u32)>, bsp: u32, i: int) -> CoreSlot {
    CoreSlot {
        state: if i == bsp {
            CoreState::Online
        } else if apics.contains(i as u32) {
            CoreState::Offline
        } else {
            CoreState::Absent
        },
        domain: domain_of(pairs, i),
    }
}

/// Every APIC id named, the bootstrap core's included, fits the registry.
pub open spec fn ids_in_range(apics: Seq<u32>, pairs: Seq<(u32, u32)>, bsp: u32) -> bool {
    &&& bsp < MAX_CORES
    &&& forall|i: int| 0 <= i < apics.len() ==> apics[i] < MAX_CORES
    &&& forall|i: int| 0 <= i < pairs.len() ==> pairs[i].0 < MAX_CORES
}

/// The registry built from the detected APIC ids (if an interrupt-controller
/// table was found), the affinity mappings (if a resource-affinity table was
/// found) and the bootstrap core's APIC id.
pub open spec fn registry_result(
    apics: Option<Seq<u32>>,
    srat: Option<(Seq<(u32, u32)>, Seq<MemoryAffinity>)>,
    bsp: u32,
) -> Result<TopologyView, AcpiError> {
    let ids = match apics {
        Some(a) => a,
        None => Seq::empty(),
    };
    let pairs = match srat {
        Some(s) => s.0,
        None => Seq::empty(),
    };
    let mems = match srat {
        Some(s) => s.1,
        None => Seq::empty(),
    };
    if !ids_in_range(ids, pairs, bsp) {
        Err(AcpiError::ApicIdOutOfRange)
    } else {
        Ok(
            TopologyView {
                core_count: if apics is Some {
                    ids.len()
                } else {
                    1
                },
                slots: Seq::new(MAX_CORES as nat, |i: int| slot_model(ids, pairs, bsp, i)),
                apics: ids,
                memory_domains: mems,
            },
        )
    }
}

/// The domain the pairs give to `id`, searching from the last pair back.
fn lookup_domain(pairs: &Vec<(u32, u32)>, id: u32) -> (r: Option<u32>)
    ensures
        r == domain_of(pairs@, id as int),
{
    let mut j: usize = pairs.len();
    assert(pairs@.take(j as int) =~= pairs@);
    while j > 0
        invariant
            j <= pairs@.len(),
            domain_of(pairs@, id as int) == domain_of(pairs@.take(j as int), id as int),
        decreases j,
    {
        let ghost pre = pairs@.take(j as int);
        assert(pre.drop_last() =~= pairs@.take(j - 1));
        j -= 1;
        if pairs[j].0 == id {
            return Some(pairs[j].1);
        }
    }
    None
}

/// Are all ids in `v` below `MAX_CORES`?
fn all_in_range(v: &Vec<u32>) -> (r: bool)
    ensures
        r == (forall|i: int| 0 <= i < v@.len() ==> v@[i] < MAX_CORES),
{
    let mut i: usize = 0;
    while i < v.len()
        invariant
            i <= v@.len(),
            forall|j: int| 0 <= j < i ==> v@[j] < MAX_CORES,
        decreases v.len() - i,
    {
        if v[i] as usize >= MAX_CORES {
            return false;
        }
        i += 1;
    }
    true
}

/// Are all APIC ids of the pairs below `MAX_CORES`?
fn pairs_in_range(v: &Vec<(u32, u32)>) -> (r: bool)
    ensures
        r == (forall|i: int| 0 <= i < v@.len() ==> v@[i].0 < MAX_CORES),
{
    let mut i: usize = 0;
    while i < v.len()
        invariant
            i <= v@.len(),
            forall|j: int| 0 <= j < i ==> v@[j].0 < MAX_CORES,
        decreases v.len() - i,
    {
        if v[i].0 as usize >= MAX_CORES {
            return false;
        }
        i += 1;
    }
    true
}

/// Builds the registry: every detected core Offline, the bootstrap core
/// Online, every other slot Absent, and each slot's domain taken from the
/// affinity mapping when there is one (unknown otherwise). Fails when an APIC
/// id does not fit the registry.
pub fn build_topology(apics: Option<Vec<u32>>, srat: Option<SratInfo>, bsp: u32) -> (r: Result<
    Topology,
    AcpiError,
>)
    ensures
        match r {
            Ok(t) => registry_result(
                match apics {
                    Some(a) => Some(a@),
                    None => None,
                },
                match srat {
                    Some(s) => Some((s.apic_domains@, s.memory_domains@)),
                    None => None,
                },
                bsp,
            ) == Ok::<TopologyView, AcpiError>(t@),
            Err(e) => registry_result(
                match apics {
                    Some(a) => Some(a@),
                    None => None,
                },
                match srat {
                    Some(s) => Some((s.apic_domains@, s.memory_domains@)),
                    None => None,
                },
                bsp,
            ) == Err::<TopologyView, AcpiError>(e),
        },
{
    let detected = apics.is_some();
    let ids = match apics {
        Some(a) => a,
        None => Vec::new(),
    };
    let (pairs, mems) = match srat {
        Some(s) => (s.apic_domains, s.memory_domains),
        None => (Vec::new(), Vec::new()),
    };
    if bsp as usize >= MAX_CORES || !all_in_range(&ids) || !pairs_in_range(&pairs) {
        return Err(AcpiError::ApicIdOutOfRange);
    }
    let mut slots: Vec<CoreSlot> = Vec::with_capacity(MAX_CORES);
    let mut i: usize = 0;
    while i < MAX_CORES
        invariant
            i <= MAX_CORES,
            slots@.len() == i,
            forall|j: int| 0 <= j < i ==> slots@[j] == slot_model(ids@, pairs@, bsp, j),
        decreases MAX_CORES - i,
    {
        let state = if i == bsp as usize {
            CoreState::Online
        } else if crate::acpi::contains_u32(&ids, i as u32) {
            CoreState::Offline
        } else {
            CoreState::Absent
        };
        slots.push(CoreSlot { state, domain: lookup_domain(&pairs, i as u32) });
        i += 1;
    }
    let core_count = if detected {
        ids.len()
    } else {
        1
    };
    let t = Topology { core_count, slots, apics: ids, memory_domains: mems };
    assert(t@.slots =~= Seq::new(MAX_CORES as nat, |i: int| slot_model(ids@, pairs@, bsp, i)));
    Ok(t)
}

/// Interrupt command that sends INIT to a target core.
pub const INIT_IPI: u32 = 0x4500;

/// Interrupt command that sends STARTUP, with the trampoline's vector, to a
/// target core.
pub const STARTUP_IPI: u32 = 0x4608;

/// What the bootstrap core is to do next.
#[derive(Clone, Copy, Debug, PartialEq, Eq, Structural)]
pub enum LaunchAction {
    /// Send the start sequence to this core, strictly in order: `INIT_IPI`,
    /// then `STARTUP_IPI` twice. Its slot is now Launched.
    Start { apic_id: u32 },
    /// Poll again: this core has not yet marked itself Online.
    Wait { apic_id: u32 },
    /// Every detected core is Online.
    Done,
}

/// Why a launch-protocol request was refused.
#[derive(Clone, Copy, Debug, PartialEq, Eq, Structural)]
pub enum LaunchError {
    /// The registry does not hold `MAX_CORES` slots, or a slot is already
    /// Launched before launching began.
    BadRegistry,
    /// A core may mark itself Online only while its slot is Launched.
    NotLaunched,
}

/// The state of the launch protocol: the registry's slots, the cores to
/// start in order, how many of them are done, and whether the bootstrap core
/// is waiting on `order[next]`.
pub struct LaunchModel {
    pub slots: Seq<CoreSlot>,
    pub order: Seq<u32>,
    pub next: int,
    pub waiting: bool,
}

/// The protocol's invariant. Every core before `next` is Online; the one
/// being waited on is Launched or Online; every later one is still Offline;
/// and no other slot is Launched, so each slot has one owner at a time.
pub open spec fn launch_wf(m: LaunchModel) -> bool {
    &&& m.slots.len() == MAX_CORES
    &&& 0 <= m.next <= m.order.len()
    &&& (m.waiting ==> m.next < m.order.len())
    &&& forall|j: int| 0 <= j < m.order.len() ==> m.order[j] < MAX_CORES
    &&& forall|j: int, k: int| 0 <= j < k < m.order.len() ==> m.order[j] != m.order[k]
    &&& forall|j: int|
        0 <= j < m.next ==> m.slots[m.order[j] as int].state == CoreState::Online
    &&& (m.waiting ==> (m.slots[m.order[m.next] as int].state == CoreState::Launched
        || m.slots[m.order[m.next] as int].state == CoreState::Online))
    &&& forall|j: int|
        m.next + (if m.waiting {
            1int
        } else {
            0int
        }) <= j < m.order.len() ==> m.slots[m.order[j] as int].state == CoreState::Offline
    &&& forall|i: int|
        0 <= i < MAX_CORES && m.slots[i].state == CoreState::Launched ==> m.waiting && i
            == m.order[m.next]
}

/// Starts the next core in order, if any is left.
pub open spec fn start_next(m: LaunchModel) -> (LaunchModel, LaunchAction) {
    if m.next >= m.order.len() {
        (m, LaunchAction::Done)
    } else {
        let t = m.order[m.next];
        (
            LaunchModel {
                slots: m.slots.update(
                    t as int,
                    CoreSlot { state: CoreState::Launched, domain: m.slots[t as int].domain },
                ),
                waiting: true,
                ..m
            },
            LaunchAction::Start { apic_id: t },
        )
    }
}

/// One step of the bootstrap core: while the core being waited on has not
/// marked itself Online, wait; once it has, move on and start the next one.
pub open spec fn launch_step(m: LaunchModel) -> (LaunchModel, LaunchAction) {
    if m.waiting {
        let t = m.order[m.next];
        if m.slots[t as int].state != CoreState::Online {
            (m, LaunchAction::Wait { apic_id: t })
        } else {
            start_next(LaunchModel { next: m.next + 1, waiting: false, ..m })
        }
    } else {
        start_next(m)
    }
}

/// A core's own report that it is up: allowed only from Launched.
pub open spec fn report_result(m: LaunchModel, id: u32) -> Result<LaunchModel, LaunchError> {
    if id < MAX_CORES && m.slots[id as int].state == CoreState::Launched {
        Ok(
            LaunchModel {
                slots: m.slots.update(
                    id as int,
                    CoreSlot { state: CoreState::Online, domain: m.slots[id as int].domain },
                ),
                ..m
            },
        )
    } else {
        Err(LaunchError::NotLaunched)
    }
}

/// The cores to start: the detected APIC ids whose slot is Offline, each
/// once, in table order. The bootstrap core, already Online, is left out.
pub open spec fn launch_order(apics: Seq<u32>, slots: Seq<CoreSlot>) -> Seq<u32>
    decreases apics.len(),
{
    if apics.len() == 0 {
        Seq::empty()
    } else {
        let prev = launch_order(apics.drop_last(), slots);
        let id = apics.last();
        if id < MAX_CORES && slots[id as int].state == CoreState::Offline && !prev.contains(id) {
            prev.push(id)
        } else {
            prev
        }
    }
}

/// `v` with its slots replaced by `slots`.
pub open spec fn with_slots(v: TopologyView, slots: Seq<CoreSlot>) -> TopologyView {
    TopologyView { slots, ..v }
}

/// The launch protocol, run by the bootstrap core over the registry it owns.
pub struct Launcher {
    topology: Topology,
    order: Vec<u32>,
    next: usize,
    waiting: bool,
}

impl Launcher {
    /// The protocol state.
    pub closed spec fn model(&self) -> LaunchModel {
        LaunchModel {
            slots: self.topology.slots@,
            order: self.order@,
            next: self.next as int,
            waiting: self.waiting,
        }
    }

    /// The registry, as the launcher holds it.
    pub closed spec fn topology_view(&self) -> TopologyView {
        self.topology@
    }

    /// Takes charge of the registry and lines up the cores to start. Refused
    /// when the registry does not hold `MAX_CORES` slots or already has a
    /// Launched slot.
    pub fn new(topology: Topology) -> (r: Result<Launcher, LaunchError>)
        ensures
            r is Ok <==> (topology.slots@.len() == MAX_CORES && forall|i: int|
                0 <= i < MAX_CORES ==> topology.slots@[i].state != CoreState::Launched),
            r is Err ==> r == Err::<Launcher, LaunchError>(LaunchError::BadRegistry),
            r matches Ok(l) ==> {
                &&& launch_wf(l.model())
                &&& l.topology_view() == topology@
                &&& l.model() == LaunchModel {
                    slots: topology.slots@,
                    order: launch_order(topology.apics@, topology.slots@),
                    next: 0,
                    waiting: false,
                }
            },
    {
        if topology.slots.len() != MAX_CORES {
            return Err(LaunchError::BadRegistry);
        }
        let mut i: usize = 0;
        while i < MAX_CORES
            invariant
                i <= MAX_CORES,
                topology.slots@.len() == MAX_CORES,
                forall|j: int| 0 <= j < i ==> topology.slots@[j].state != CoreState::Launched,
            decreases MAX_CORES - i,
        {
            if topology.slots[i].state == CoreState::Launched {
                return Err(LaunchError::BadRegistry);
            }
            i += 1;
        }
        let mut order: Vec<u32> = Vec::new();
        let mut k: usize = 0;
        while k < topology.apics.len()
            invariant
                k <= topology.apics@.len(),
                topology.slots@.len() == MAX_CORES,
                order@ == launch_order(topology.apics@.take(k as int), topology.slots@),
                forall|j: int| 0 <= j < order@.len() ==> order@[j] < MAX_CORES,
                forall|j: int|
                    0 <= j < order@.len() ==> topology.slots@[order@[j] as int].state
                        == CoreState::Offline,
                forall|j: int, l: int| 0 <= j < l < order@.len() ==> order@[j] != order@[l],
            decreases topology.apics.len() - k,
        {
            let id = topology.apics[k];
            proof {
                assert(topology.apics@.take(k + 1).drop_last() =~= topology.apics@.take(k as int));
                assert(topology.apics@.take(k + 1).last() == id);
            }
            if (id as usize) < MAX_CORES && topology.slots[id as usize].state == CoreState::Offline
                && !crate::acpi::contains_u32(&order, id) {
                order.push(id);
            }
            k += 1;
        }
        assert(topology.apics@.take(topology.apics@.len() as int) =~= topology.apics@);
        Ok(Launcher { topology, order, next: 0, waiting: false })
    }

    /// One step of the bootstrap core (see `launch_step`). The caller performs
    /// the action: on `Start`, it sends the start sequence to that core; on
    /// `Wait`, it polls again; on `Done`, every detected core is up.
    pub fn step(&mut self) -> (r: LaunchAction)
        requires
            launch_wf(old(self).model()),
        ensures
            launch_wf(final(self).model()),
            (final(self).model(), r) == launch_step(old(self).model()),
            final(self).topology_view() == with_slots(
                old(self).topology_view(),
                final(self).model().slots,
            ),
    {
        let n = self.order.len();
        if self.waiting {
            let t = self.order[self.next];
            if self.topology.slots[t as usize].state != CoreState::Online {
                return LaunchAction::Wait { apic_id: t };
            }
            self.next = self.next + 1;
            self.waiting = false;
        }
        if self.next >= n {
            return LaunchAction::Done;
        }
        let t = self.order[self.next];
        let domain = self.topology.slots[t as usize].domain;
        self.topology.slots.set(t as usize, CoreSlot { state: CoreState::Launched, domain });
        self.waiting = true;
        LaunchAction::Start { apic_id: t }
    }

    /// The core `apic_id` marks its own slot Online, after observing it
    /// Launched. Refused in any other state: the launcher never marks a core
    /// Online on its behalf, and a core not yet started cannot report in.
    pub fn report_online(&mut self, apic_id: u32) -> (r: Result<(), LaunchError>)
        requires
            launch_wf(old(self).model()),
        ensures
            launch_wf(final(self).model()),
            match report_result(old(self).model(), apic_id) {
                Ok(m) => r is Ok && final(self).model() == m,
                Err(e) => r == Err::<(), LaunchError>(e) && final(self).model() == old(self).model(),
            },
            final(self).topology_view() == with_slots(
                old(self).topology_view(),
                final(self).model().slots,
            ),
    {
        if (apic_id as usize) < MAX_CORES && self.topology.slots[apic_id as usize].state
            == CoreState::Launched {
            let domain = self.topology.slots[apic_id as usize].domain;
            self.topology.slots.set(apic_id as usize, CoreSlot { state: CoreState::Online, domain });
            Ok(())
        } else {
            Err(LaunchError::NotLaunched)
        }
    }

    /// The state of slot `apic_id`; `Absent` for an id beyond the registry.
    pub fn state_of(&self, apic_id: u32) -> (r: CoreState)
        ensures
            r == (if apic_id < self.model().slots.len() {
                self.model().slots[apic_id as int].state
            } else {
                CoreState::Absent
            }),
    {
        if (apic_id as usize) < self.topology.slots.len() {
            self.topology.slots[apic_id as usize].state
        } else {
            CoreState::Absent
        }
    }

    /// The registry, as the launcher holds it.
    pub fn topology(&self) -> (r: &Topology)
        ensures
            r@ == self.topology_view(),
    {
        &self.topology
    }
}

/// The launcher starts a core only after every core before it in launch order
/// has been observed Online, and it never marks any core Online itself.
pub proof fn lemma_start_waits_for_previous(m: LaunchModel)
    requires
        launch_wf(m),
    ensures
        launch_step(m).1 matches LaunchAction::Start { apic_id } ==> exists|k: int|
            0 <= k < m.order.len() && m.order[k] == apic_id && forall|j: int|
                0 <= j < k ==> m.slots[#[trigger] m.order[j] as int].state == CoreState::Online,
        forall|i: int|
            0 <= i < MAX_CORES && launch_step(m).0.slots[i].state == CoreState::Online
                ==> m.slots[i].state == CoreState::Online,
{
    if launch_step(m).1 is Start {
        let k = launch_step(m).0.next;
        assert(m.order[k] == launch_step(m).0.order[k]);
    }
}

} // verus!
