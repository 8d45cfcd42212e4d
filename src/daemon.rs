//! The daemon's state and the handling of coordinator commands and node
//! requests.
use crate::regions::{RegionTracker, TrackerError};
use crate::registry::{receivers_in, Route, RouteView, RunningDataflow};
use shared_memory::{Shmem, ShmemConf, ShmemError};
use uhlc::HLC;
use vstd::prelude::*;

verus! {

#[verifier::external_type_specification]
#[verifier::external_body]
pub struct ExShmem(Shmem);

#[verifier::external_type_specification]
#[verifier::external_body]
pub struct ExShmemError(ShmemError);

#[verifier::external_type_specification]
#[verifier::external_body]
pub struct ExHlc(HLC);

/// Relies on shared_memory's `ShmemConf::size` and `ShmemConf::create`, which
/// refuse a mapping of size zero with an error.
#[verifier::external_body]
fn allocate_region(len: usize) -> (r: Result<Shmem, ShmemError>)
    ensures
        len == 0 ==> r is Err,
{
    ShmemConf::new().size(len).create()
}

/// Relies on shared_memory's `Shmem::get_os_id`: the OS identifier of the mapping.
#[verifier::external_body]
fn region_os_id(region: &Shmem) -> (r: String) {
    region.get_os_id().to_owned()
}

/// A hybrid logical clock together with the last timestamp it issued.
pub struct Clock {
    hlc: HLC,
    last: u64,
}

impl Clock {
    /// The last timestamp this clock issued; zero before the first.
    pub closed spec fn last_issued(&self) -> u64 {
        self.last
    }
}

/// Relies on uhlc's `HLC::default`: a clock with a fresh identifier that
/// reads the system time, and that has issued nothing yet.
#[verifier::external_body]
fn new_clock() -> (r: Clock)
    ensures
        r.last_issued() == 0,
{
    Clock { hlc: HLC::default(), last: 0 }
}

/// Relies on uhlc's `HLC::new_timestamp`, read as its 64-bit NTP time: each
/// timestamp of a clock is greater than every one it issued before, and than
/// zero, since the physical time it starts from is after 1970.
#[verifier::external_body]
fn next_timestamp(clock: &mut Clock) -> (r: u64)
    ensures
        r > old(clock).last_issued(),
        final(clock).last_issued() == r,
{
    let t = clock.hlc.new_timestamp().get_time().as_u64();
    clock.last = t;
    t
}

#[derive(Debug, Clone, Copy, PartialEq, Eq, Structural)]
pub enum DaemonError {
    /// A dataflow with this id is already running.
    AlreadyRunning,
    /// No dataflow with this id is running.
    UnknownDataflow,
    /// No region with this id is reserved.
    UnknownRegion,
    /// The OS handed out a region id that is still reserved.
    RegionIdInUse,
    /// The shared-memory region could not be allocated.
    AllocationFailed,
    /// Every drop token has been handed out.
    TokensExhausted,
    /// No published region carries this drop token.
    UnknownDropToken,
    /// The acknowledging node has no delivery of this message outstanding.
    NotAReceiver,
}

/// Where a node input takes its data from.
#[derive(Debug, Clone)]
pub enum InputSource {
    /// Output `output` of node `source` of the same dataflow.
    User { source: String, output: String },
    /// A timer that ticks every `interval_ms` milliseconds.
    Timer { interval_ms: u64 },
}

#[derive(Debug, Clone)]
pub struct InputSpec {
    pub input_id: String,
    pub source: InputSource,
}

/// A node of a dataflow to spawn, with its declared inputs.
#[derive(Debug, Clone)]
pub struct NodeSpec {
    pub node_id: String,
    pub inputs: Vec<InputSpec>,
}

/// The route that input `j` of `node` declares, if it reads a node output.
pub open spec fn declared_route(node: NodeSpec, j: int) -> Option<RouteView> {
    match node.inputs@[j].source {
        InputSource::User { source, output } => Some(
            (source@, output@, node.node_id@, node.inputs@[j].input_id@),
        ),
        InputSource::Timer { .. } => None,
    }
}

/// Some input of the nodes declares route `rv`.
pub open spec fn declares(nodes: Seq<NodeSpec>, rv: RouteView) -> bool {
    exists|i: int, j: int|
        0 <= i < nodes.len() && 0 <= j < nodes[i].inputs@.len() && declared_route(nodes[i], j)
            == Some(rv)
}

/// Some input before input `nj` of node `ni`, in declaration order, declares route `rv`.
pub open spec fn declares_before(nodes: Seq<NodeSpec>, ni: int, nj: int, rv: RouteView) -> bool {
    exists|i: int, j: int|
        0 <= i <= ni && i < nodes.len() && 0 <= j < nodes[i].inputs@.len() && (i < ni || j < nj)
            && declared_route(nodes[i], j) == Some(rv)
}

/// The entries of `rs` whose node has an event sink, in order.
pub open spec fn subscribed_only(rs: Seq<(Seq<char>, Seq<char>)>, subscribers: Seq<Seq<char>>) -> Seq<
    (Seq<char>, Seq<char>),
>
    decreases rs.len(),
{
    if rs.len() == 0 {
        Seq::empty()
    } else {
        let prev = subscribed_only(rs.drop_last(), subscribers);
        if subscribers.contains(rs.last().0) {
            prev.push(rs.last())
        } else {
            prev
        }
    }
}

/// The subscribed inputs that receive what node `node` publishes on output `output`.
pub open spec fn live_receivers<S>(df: RunningDataflow<S>, node: Seq<char>, output: Seq<char>) -> Seq<
    (Seq<char>, Seq<char>),
> {
    subscribed_only(receivers_in(df.routes(), node, output), df.subscribers())
}

pub open spec fn pair_views(v: Seq<(String, String)>) -> Seq<(Seq<char>, Seq<char>)> {
    v.map_values(|p: (String, String)| (p.0@, p.1@))
}

/// The tokens of the notices owed to node `node` of dataflow `dataflow`, in order.
pub open spec fn tokens_for(fs: Seq<DropNotice>, dataflow: u128, node: Seq<char>) -> Seq<u64>
    decreases fs.len(),
{
    if fs.len() == 0 {
        Seq::empty()
    } else {
        let prev = tokens_for(fs.drop_last(), dataflow, node);
        if fs.last().dataflow == dataflow && fs.last().node@ == node {
            prev.push(fs.last().token)
        } else {
            prev
        }
    }
}

/// The notices owed to other nodes, in order.
pub open spec fn notices_not_for(fs: Seq<DropNotice>, dataflow: u128, node: Seq<char>) -> Seq<DropNotice>
    decreases fs.len(),
{
    if fs.len() == 0 {
        Seq::empty()
    } else {
        let prev = notices_not_for(fs.drop_last(), dataflow, node);
        if fs.last().dataflow == dataflow && fs.last().node@ == node {
            prev
        } else {
            prev.push(fs.last())
        }
    }
}

/// A region published to node `receiver`, input `input_id`.
#[derive(Debug, Clone)]
pub struct Delivery {
    pub receiver: String,
    pub input_id: String,
    pub timestamp: u64,
    pub region_id: String,
    pub token: u64,
}

/// A drop token whose message every receiver is done with, owed to its producer.
#[derive(Debug, Clone)]
pub struct DropNotice {
    pub dataflow: u128,
    pub node: String,
    pub token: u64,
}

/// The answer to a node's poll for finished drop tokens.
#[derive(Debug, Clone)]
pub enum DropPoll {
    /// Tokens that finished since the last poll.
    Tokens(Vec<u64>),
    /// Nothing finished yet: the reply waits.
    Wait,
    /// The node has no drop subscription: an empty reply closes its stream.
    Closed,
}

pub struct RunningEntry<S> {
    pub id: u128,
    pub dataflow: RunningDataflow<S>,
}

pub struct DropSubscriber {
    pub dataflow: u128,
    pub node: String,
}

pub struct Daemon<S> {
    pub clock: Clock,
    pub regions: RegionTracker<Shmem>,
    pub running: Vec<RunningEntry<S>>,
    pub drop_subscribers: Vec<DropSubscriber>,
    pub finished: Vec<DropNotice>,
}

impl<S> Daemon<S> {
    pub open spec fn running_ids(&self) -> Seq<u128> {
        self.running@.map_values(|e: RunningEntry<S>| e.id)
    }

    pub open spec fn is_running(&self, id: u128) -> bool {
        self.running_ids().contains(id)
    }

    /// The state of running dataflow `id`.
    pub open spec fn dataflow(&self, id: u128) -> RunningDataflow<S> {
        self.running@[self.running_ids().index_of(id)].dataflow
    }

    pub open spec fn is_drop_subscribed(&self, id: u128, node: Seq<char>) -> bool {
        exists|i: int|
            0 <= i < self.drop_subscribers@.len() && self.drop_subscribers@[i].dataflow == id
                && self.drop_subscribers@[i].node@ == node
    }

    pub open spec fn wf(&self) -> bool {
        &&& self.regions.wf()
        &&& self.running_ids().no_duplicates()
        &&& forall|i: int| 0 <= i < self.running@.len() ==> self.running@[i].dataflow.wf()
    }

    pub fn new() -> (r: Self)
        ensures
            r.wf(),
            r.running@.len() == 0,
            r.regions.reserved@.len() == 0,
            r.regions.published@.len() == 0,
            r.finished@.len() == 0,
    {
        let r = Daemon {
            clock: new_clock(),
            regions: RegionTracker::new(),
            running: Vec::new(),
            drop_subscribers: Vec::new(),
            finished: Vec::new(),
        };
        proof {
            assert(r.running_ids() =~= Seq::<u128>::empty());
        }
        r
    }

    /// The position of dataflow `id`, if it is running.
    pub fn find_dataflow(&self, id: u128) -> (r: Option<usize>)
        requires
            self.wf(),
        ensures
            r is Some <==> self.is_running(id),
            match r {
                Some(i) => i < self.running@.len() && self.running@[i as int].id == id && i
                    == self.running_ids().index_of(id),
                None => true,
            },
    {
        let mut i: usize = 0;
        while i < self.running.len()
            invariant
                self.wf(),
                i <= self.running@.len(),
                forall|j: int| 0 <= j < i ==> self.running@[j].id != id,
            decreases self.running@.len() - i,
        {
            if self.running[i].id == id {
                proof {
                    assert(self.running_ids()[i as int] == id);
                    let k = self.running_ids().index_of(id);
                    assert(self.running_ids()[k] == id);
                }
                return Some(i);
            }
            i = i + 1;
        }
        proof {
            if self.is_running(id) {
                let k = self.running_ids().index_of(id);
                assert(self.running@[k].id == id);
            }
        }
        None
    }
}

impl<S> Daemon<S> {
    /// Starts dataflow `dataflow_id`: its routing table holds the route of
    /// every node input that reads a node output. Refused, with nothing
    /// changed, while a dataflow with that id is running.
    pub fn spawn_dataflow(&mut self, dataflow_id: u128, nodes: &Vec<NodeSpec>) -> (r: Result<(), DaemonError>)
        requires
            old(self).wf(),
        ensures
            final(self).wf(),
            final(self).regions == old(self).regions,
            final(self).finished@ == old(self).finished@,
            final(self).drop_subscribers@ == old(self).drop_subscribers@,
            old(self).is_running(dataflow_id) ==> r == Err::<(), DaemonError>(DaemonError::AlreadyRunning)
                && final(self).running@ == old(self).running@,
            !old(self).is_running(dataflow_id) ==> {
                &&& r is Ok
                &&& final(self).running@.len() == old(self).running@.len() + 1
                &&& final(self).running@.take(old(self).running@.len() as int) == old(self).running@
                &&& final(self).running@.last().id == dataflow_id
                &&& final(self).is_running(dataflow_id)
                &&& final(self).dataflow(dataflow_id).subscribers().len() == 0
                &&& forall|rv: RouteView|
                    final(self).dataflow(dataflow_id).routes().contains(rv) <==> declares(nodes@, rv)
            },
    {
        if self.find_dataflow(dataflow_id).is_some() {
            return Err(DaemonError::AlreadyRunning);
        }
        let mut df: RunningDataflow<S> = RunningDataflow::new();
        let mut i: usize = 0;
        while i < nodes.len()
            invariant
                df.wf(),
                df.subscribers().len() == 0,
                i <= nodes@.len(),
                forall|rv: RouteView| df.routes().contains(rv) <==> declares_before(nodes@, i as int, 0, rv),
            decreases nodes@.len() - i,
        {
            let node = &nodes[i];
            let mut j: usize = 0;
            while j < node.inputs.len()
                invariant
                    df.wf(),
                    df.subscribers().len() == 0,
                    i < nodes@.len(),
                    *node == nodes@[i as int],
                    j <= node.inputs@.len(),
                    forall|rv: RouteView|
                        df.routes().contains(rv) <==> declares_before(nodes@, i as int, j as int, rv),
                decreases node.inputs@.len() - j,
            {
                let input = &node.inputs[j];
                let ghost before = df.routes();
                match &input.source {
                    InputSource::User { source, output } => {
                        let route = Route {
                            source: source.clone(),
                            output: output.clone(),
                            target: node.node_id.clone(),
                            input: input.input_id.clone(),
                        };
                        df.add_route(route);
                        proof {
                            let added = declared_route(nodes@[i as int], j as int)->Some_0;
                            assert(crate::registry::route_view(route) == added);
                            assert forall|rv: RouteView|
                                df.routes().contains(rv) <==> declares_before(nodes@, i as int, j + 1, rv) by {
                                if rv == added {
                                    if !before.contains(rv) {
                                        assert(df.routes()[before.len() as int] == rv);
                                    }
                                }
                                if df.routes().contains(rv) && rv != added && !before.contains(rv) {
                                    let k = df.routes().index_of(rv);
                                    assert(k < before.len());
                                    assert(before[k] == rv);
                                }
                                if before.contains(rv) && !df.routes().contains(rv) {
                                    let k = before.index_of(rv);
                                    assert(df.routes()[k] == rv);
                                }
                                if declares_before(nodes@, i as int, j + 1, rv) && rv != added {
                                    let (a, b) = choose|a: int, b: int|
                                        0 <= a <= i && a < nodes@.len() && 0 <= b < nodes@[a].inputs@.len() && (a < i || b < j + 1)
                                            && declared_route(nodes@[a], b) == Some(rv);
                                    assert(a < i || b < j);
                                }
                            }
                        }
                    },
                    InputSource::Timer { .. } => {
                        proof {
                            assert forall|rv: RouteView|
                                df.routes().contains(rv) <==> declares_before(nodes@, i as int, j + 1, rv) by {
                                if declares_before(nodes@, i as int, j + 1, rv) {
                                    let (a, b) = choose|a: int, b: int|
                                        0 <= a <= i && a < nodes@.len() && 0 <= b < nodes@[a].inputs@.len() && (a < i || b < j + 1)
                                            && declared_route(nodes@[a], b) == Some(rv);
                                    assert(a < i || b < j);
                                }
                            }
                        }
                    },
                }
                j = j + 1;
            }
            proof {
                assert forall|rv: RouteView|
                    declares_before(nodes@, i as int, j as int, rv) <==> declares_before(nodes@, i + 1, 0, rv) by {
                    if declares_before(nodes@, i + 1, 0, rv) {
                        let (a, b) = choose|a: int, b: int|
                            0 <= a <= i + 1 && a < nodes@.len() && 0 <= b < nodes@[a].inputs@.len() && (a < i + 1 || b < 0)
                                && declared_route(nodes@[a], b) == Some(rv);
                        assert(a <= i);
                    }
                }
            }
            i = i + 1;
        }
        let ghost old_running = self.running@;
        self.running.push(RunningEntry { id: dataflow_id, dataflow: df });
        proof {
            assert(self.running_ids() =~= old(self).running_ids().push(dataflow_id));
            let last = old_running.len() as int;
            assert(self.running_ids()[last] == dataflow_id);
            assert(self.is_running(dataflow_id));
            let k = self.running_ids().index_of(dataflow_id);
            assert(k == last);
            assert(self.running@.take(last) =~= old_running);
            assert forall|rv: RouteView| declares_before(nodes@, nodes@.len() as int, 0, rv) <==> declares(nodes@, rv) by {
                if declares(nodes@, rv) {
                    let (a, b) = choose|a: int, b: int|
                        0 <= a < nodes@.len() && 0 <= b < nodes@[a].inputs@.len() && declared_route(nodes@[a], b) == Some(rv);
                    assert(declares_before(nodes@, nodes@.len() as int, 0, rv));
                }
            }
        }
        Ok(())
    }
}

impl<S> Daemon<S> {
    /// Issues a timestamp of the daemon's clock: greater than every one it
    /// issued before.
    pub fn new_timestamp(&mut self) -> (r: u64)
        ensures
            r > old(self).clock.last_issued(),
            final(self).clock.last_issued() == r,
            final(self).regions == old(self).regions,
            final(self).running@ == old(self).running@,
            final(self).finished@ == old(self).finished@,
            final(self).drop_subscribers@ == old(self).drop_subscribers@,
    {
        next_timestamp(&mut self.clock)
    }

    /// Every dataflow other than `df` that ran in `a` is the same in `b`.
    pub open spec fn others_kept(a: &Self, b: &Self, df: u128) -> bool {
        forall|d: u128| d != df && a.is_running(d) ==> b.dataflow(d) == a.dataflow(d)
    }

    /// The reserved and the published regions are the same in `a` and `b`.
    pub open spec fn regions_kept(a: &Self, b: &Self) -> bool {
        &&& b.regions.reserved@ == a.regions.reserved@
        &&& b.regions.published@ == a.regions.published@
        &&& b.regions.next_token == a.regions.next_token
    }

    /// From `a` to `b`, node `node` of dataflow `df` recorded `sink` as its
    /// event sink, with result `r`.
    pub open spec fn subscribed(a: &Self, b: &Self, df: u128, node: String, sink: S, r: Result<(), DaemonError>) -> bool {
        &&& Self::regions_kept(a, b)
        &&& b.finished@ == a.finished@
        &&& b.drop_subscribers@ == a.drop_subscribers@
        &&& !a.is_running(df) ==> r == Err::<(), DaemonError>(DaemonError::UnknownDataflow) && b.running@
            == a.running@
        &&& a.is_running(df) ==> {
            &&& r == Ok::<(), DaemonError>(())
            &&& b.running_ids() == a.running_ids()
            &&& b.dataflow(df).mappings@ == a.dataflow(df).mappings@
            &&& b.dataflow(df).is_subscribed(node@)
            &&& forall|n: Seq<char>| n != node@ ==> b.dataflow(df).is_subscribed(n) == a.dataflow(df).is_subscribed(n)
            &&& exists|i: int|
                0 <= i < b.dataflow(df).subscribe_channels@.len() && b.dataflow(df).subscribe_channels@[i].node_id
                    == node && b.dataflow(df).subscribe_channels@[i].sink == sink
            &&& Self::others_kept(a, b, df)
        }
    }

    /// From `a` to `b`, a region of `len` bytes was asked for output `output`
    /// of node `node` of dataflow `df`, with result `r`.
    pub open spec fn prepared(a: &Self, b: &Self, df: u128, node: String, output: String, len: usize, r: Result<String, DaemonError>) -> bool {
        &&& b.running@ == a.running@
        &&& b.finished@ == a.finished@
        &&& b.drop_subscribers@ == a.drop_subscribers@
        &&& b.regions.published@ == a.regions.published@
        &&& b.regions.next_token == a.regions.next_token
        &&& len == 0 ==> r == Err::<String, DaemonError>(DaemonError::AllocationFailed)
        &&& r is Err ==> (r == Err::<String, DaemonError>(DaemonError::AllocationFailed) || r == Err::<
            String,
            DaemonError,
        >(DaemonError::RegionIdInUse)) && b.regions.reserved@ == a.regions.reserved@
        &&& match r {
            Ok(id) => {
                &&& !a.regions.is_reserved(id@)
                &&& b.regions.reserved@.len() == a.regions.reserved@.len() + 1
                &&& b.regions.reserved@.drop_last() == a.regions.reserved@
                &&& b.regions.reserved@.last().region_id == id
                &&& b.regions.reserved@.last().dataflow == df
                &&& b.regions.reserved@.last().owner == node
                &&& b.regions.reserved@.last().output_id == output
                &&& b.regions.is_reserved(id@)
            },
            Err(_) => true,
        }
    }

    /// From `a` to `b`, node `node` of dataflow `df` sent out region `region`, with result `r`.
    pub open spec fn sent_out(a: &Self, b: &Self, df: u128, node: String, region: String, r: Result<Vec<Delivery>, DaemonError>) -> bool {
        &&& b.running@ == a.running@
        &&& b.drop_subscribers@ == a.drop_subscribers@
        &&& !b.regions.is_reserved(region@)
        &&& !a.regions.is_reserved(region@) ==> r == Err::<Vec<Delivery>, DaemonError>(DaemonError::UnknownRegion)
            && Self::regions_kept(a, b) && b.finished@ == a.finished@
        &&& a.regions.is_reserved(region@) ==> b.regions.reserved@ == a.regions.reserved@.remove(
            a.regions.reserved_ids().index_of(region@),
        )
        &&& a.regions.is_reserved(region@) && !a.is_running(df) ==> r == Err::<Vec<Delivery>, DaemonError>(
            DaemonError::UnknownDataflow,
        )
        &&& a.regions.is_reserved(region@) && a.is_running(df) && a.regions.next_token == u64::MAX ==> r
            == Err::<Vec<Delivery>, DaemonError>(DaemonError::TokensExhausted)
        &&& r is Ok <==> a.regions.is_reserved(region@) && a.is_running(df) && a.regions.next_token < u64::MAX
        &&& r is Err ==> b.finished@ == a.finished@ && b.regions.published@ == a.regions.published@
            && b.regions.next_token == a.regions.next_token
        &&& match r {
            Ok(ds) => {
                let token = a.regions.next_token;
                let live = live_receivers(a.dataflow(df), node@, a.reservation_of(region@).output_id@);
                &&& ds@.len() == live.len()
                &&& forall|k: int|
                    0 <= k < ds@.len() ==> (#[trigger] ds@[k]).receiver@ == live[k].0 && ds@[k].input_id@ == live[k].1
                        && ds@[k].region_id@ == region@ && ds@[k].token == token
                &&& b.regions.next_token == token + 1
                &&& b.clock.last_issued() >= a.clock.last_issued()
                &&& forall|k: int|
                    0 <= k < ds@.len() ==> a.clock.last_issued() < (#[trigger] ds@[k]).timestamp
                        <= b.clock.last_issued()
                &&& forall|j: int, k: int|
                    0 <= j < k < ds@.len() ==> (#[trigger] ds@[j]).timestamp < (#[trigger] ds@[k]).timestamp
                &&& live.len() == 0 ==> b.finished@ == a.finished@.push(
                    (DropNotice { dataflow: df, node, token }),
                ) && !b.regions.is_published(token) && b.regions.published@ == a.regions.published@
                &&& live.len() > 0 ==> b.finished@ == a.finished@ && b.regions.is_published(token)
                    && b.regions.pending_of(token) == live.map_values(|p: (Seq<char>, Seq<char>)| p.0).to_multiset()
                    && b.regions.published@.drop_last() == a.regions.published@
            },
            Err(_) => true,
        }
    }

    /// From `a` to `b`, node `node` of dataflow `df` lost its event sink, and
    /// nothing else in the registry changed.
    pub open spec fn registry_unsubscribed(a: &Self, b: &Self, df: u128, node: Seq<char>) -> bool {
        &&& b.running_ids() == a.running_ids()
        &&& a.is_running(df) ==> {
            &&& !b.dataflow(df).is_subscribed(node)
            &&& b.dataflow(df).mappings@ == a.dataflow(df).mappings@
            &&& forall|n: Seq<char>| n != node ==> b.dataflow(df).is_subscribed(n) == a.dataflow(df).is_subscribed(n)
        }
        &&& Self::others_kept(a, b, df)
    }

    /// From `a` to `b`, node `node` of dataflow `df` stopped: it lost its
    /// event sink and its drop subscription, and nothing else changed.
    pub open spec fn stopped(a: &Self, b: &Self, df: u128, node: Seq<char>) -> bool {
        &&& Self::regions_kept(a, b)
        &&& b.finished@ == a.finished@
        &&& Self::registry_unsubscribed(a, b, df, node)
        &&& !b.is_drop_subscribed(df, node)
        &&& forall|d: u128, n: Seq<char>|
            !(d == df && n == node) ==> b.is_drop_subscribed(d, n) == a.is_drop_subscribed(d, n)
    }

    /// From `a` to `b`, node `node` of dataflow `df` asked for a drop subscription, with result `r`.
    pub open spec fn drop_subscribed(a: &Self, b: &Self, df: u128, node: Seq<char>, r: Result<(), DaemonError>) -> bool {
        &&& b.running@ == a.running@
        &&& Self::regions_kept(a, b)
        &&& b.finished@ == a.finished@
        &&& r is Ok <==> a.is_running(df)
        &&& r is Err ==> r == Err::<(), DaemonError>(DaemonError::UnknownDataflow) && b.drop_subscribers@
            == a.drop_subscribers@
        &&& r is Ok ==> r == Ok::<(), DaemonError>(()) && b.is_drop_subscribed(df, node)
        &&& forall|d: u128, n: Seq<char>| a.is_drop_subscribed(d, n) ==> b.is_drop_subscribed(d, n)
    }

    /// From `a` to `b`, node `node` of dataflow `df` polled for finished drop tokens, with answer `r`.
    pub open spec fn polled(a: &Self, b: &Self, df: u128, node: Seq<char>, r: DropPoll) -> bool {
        &&& b.running@ == a.running@
        &&& Self::regions_kept(a, b)
        &&& b.drop_subscribers@ == a.drop_subscribers@
        &&& !a.is_drop_subscribed(df, node) ==> r is Closed && b.finished@ == a.finished@
        &&& a.is_drop_subscribed(df, node) ==> {
            let owed = tokens_for(a.finished@, df, node);
            &&& b.finished@ == notices_not_for(a.finished@, df, node)
            &&& owed.len() == 0 ==> r is Wait
            &&& owed.len() > 0 ==> (r matches DropPoll::Tokens(ts) && ts@ == owed)
        }
    }
}

impl<S> Daemon<S> {
    proof fn lemma_replace_entry(a: &Self, b: &Self, i: int)
        requires
            a.wf(),
            0 <= i < a.running@.len(),
            b.running@.len() == a.running@.len(),
            b.running@ == a.running@.update(i, b.running@[i]),
            b.running@[i].id == a.running@[i].id,
        ensures
            b.running_ids() == a.running_ids(),
            b.dataflow(a.running@[i].id) == b.running@[i].dataflow,
            forall|d: u128| d != a.running@[i].id && a.is_running(d) ==> b.dataflow(d) == a.dataflow(d),
    {
        assert(b.running_ids() =~= a.running_ids());
        assert(a.running_ids()[i] == a.running@[i].id);
        let k = a.running_ids().index_of(a.running@[i].id);
        assert(a.running_ids()[k] == a.running@[i].id);
        assert forall|d: u128| d != a.running@[i].id && a.is_running(d) implies b.dataflow(d) == a.dataflow(d) by {
            let k = a.running_ids().index_of(d);
            assert(a.running_ids()[k] == d);
        }
    }

    /// Records the event sink of node `node_id` of dataflow `dataflow_id`.
    /// Refused, with no entry made, when no such dataflow is running.
    pub fn subscribe(&mut self, dataflow_id: u128, node_id: String, sink: S) -> (r: Result<(), DaemonError>)
        requires
            old(self).wf(),
        ensures
            final(self).wf(),
            Self::subscribed(old(self), final(self), dataflow_id, node_id, sink, r),
    {
        let i = match self.find_dataflow(dataflow_id) {
            None => {
                return Err(DaemonError::UnknownDataflow);
            },
            Some(i) => i,
        };
        let mut entry = self.running.remove(i);
        proof {
            assert(old(self).running@[i as int] == entry);
        }
        entry.dataflow.subscribe(node_id, sink);
        self.running.insert(i, entry);
        proof {
            assert(self.running@ =~= old(self).running@.update(i as int, entry));
            Self::lemma_replace_entry(old(self), self, i as int);
            assert forall|k: int| 0 <= k < self.running@.len() implies self.running@[k].dataflow.wf() by {
                if k != i {
                    assert(self.running@[k] == old(self).running@[k]);
                }
            }
        }
        Ok(())
    }

    /// Allocates a region of `len` bytes for output `output_id` of node
    /// `node_id` and reserves it under its OS id, which is returned. Refused,
    /// with nothing reserved, when the allocation fails (always for `len == 0`)
    /// or the id is already reserved.
    pub fn prepare_output_message(&mut self, dataflow_id: u128, node_id: String, output_id: String, len: usize)
        -> (r: Result<String, DaemonError>)
        requires
            old(self).wf(),
        ensures
            final(self).wf(),
            Self::prepared(old(self), final(self), dataflow_id, node_id, output_id, len, r),
    {
        let memory = match allocate_region(len) {
            Ok(m) => m,
            Err(_) => {
                return Err(DaemonError::AllocationFailed);
            },
        };
        let id = region_os_id(&memory);
        let ghost old_reserved = self.regions.reserved@;
        match self.regions.reserve(id.clone(), dataflow_id, node_id, output_id, memory) {
            Ok(()) => {
                proof {
                    let last = old_reserved.len() as int;
                    assert(self.regions.reserved@.drop_last() =~= old_reserved);
                    assert(self.regions.reserved_ids()[last] == id@);
                }
                Ok(id)
            },
            Err(_) => Err(DaemonError::RegionIdInUse),
        }
    }

    /// Drops the reservation of `region_id`, freeing its region; used when
    /// the node that asked for it is gone.
    pub fn discard_reservation(&mut self, region_id: &String)
        requires
            old(self).wf(),
        ensures
            final(self).wf(),
            final(self).running@ == old(self).running@,
            final(self).finished@ == old(self).finished@,
            final(self).drop_subscribers@ == old(self).drop_subscribers@,
            final(self).regions.published@ == old(self).regions.published@,
            final(self).regions.next_token == old(self).regions.next_token,
            !final(self).regions.is_reserved(region_id@),
            old(self).regions.is_reserved(region_id@) ==> final(self).regions.reserved@ == old(self).regions.reserved@.remove(
                old(self).regions.reserved_ids().index_of(region_id@),
            ),
            !old(self).regions.is_reserved(region_id@) ==> final(self).regions.reserved@ == old(self).regions.reserved@,
    {
        let _ = self.regions.take_reservation(region_id);
    }
}

impl<S> Daemon<S> {
    /// The reservation of region `id`.
    pub open spec fn reservation_of(&self, id: Seq<char>) -> crate::regions::Reservation<Shmem> {
        self.regions.reserved@[self.regions.reserved_ids().index_of(id)]
    }

    /// Publishes region `region_id` that node `node_id` has written: every
    /// subscribed input that reads the reserved output gets a delivery of the
    /// region with a fresh drop token, one delivery per input. With no such
    /// input the region is freed at once and its token is owed to the producer.
    pub fn send_out_message(&mut self, dataflow_id: u128, node_id: &String, region_id: &String) -> (r:
        Result<Vec<Delivery>, DaemonError>)
        requires
            old(self).wf(),
        ensures
            final(self).wf(),
            Self::sent_out(old(self), final(self), dataflow_id, *node_id, *region_id, r),
    {
        let ghost old_reserved = self.regions.reserved@;
        let res = match self.regions.take_reservation(region_id) {
            None => {
                return Err(DaemonError::UnknownRegion);
            },
            Some(res) => res,
        };
        proof {
            let i = choose|i: int|
                0 <= i < old_reserved.len() && old_reserved[i] == res && self.regions.reserved@
                    == old_reserved.remove(i) && res.region_id@ == region_id@;
            assert(old(self).regions.reserved_ids()[i] == region_id@);
            let k = old(self).regions.reserved_ids().index_of(region_id@);
            assert(old(self).regions.reserved_ids()[k] == region_id@);
            assert(k == i);
            assert(self.regions.reserved@ == old_reserved.remove(k));
        }
        let i = match self.find_dataflow(dataflow_id) {
            None => {
                return Err(DaemonError::UnknownDataflow);
            },
            Some(i) => i,
        };
        let dataflow = &self.running[i].dataflow;
        let receivers = dataflow.resolve_receivers(node_id, &res.output_id);
        let ghost all = pair_views(receivers@);
        let mut live: Vec<(String, String)> = Vec::new();
        let mut pending: Vec<String> = Vec::new();
        let mut j: usize = 0;
        while j < receivers.len()
            invariant
                j <= receivers@.len(),
                all == pair_views(receivers@),
                pair_views(live@) == subscribed_only(all.take(j as int), dataflow.subscribers()),
                crate::regions::views(pending@) == pair_views(live@).map_values(
                    |p: (Seq<char>, Seq<char>)| p.0,
                ),
            decreases receivers@.len() - j,
        {
            proof {
                assert(all.take(j + 1).drop_last() =~= all.take(j as int));
            }
            let ghost lv = live@;
            let ghost pv = pending@;
            if dataflow.find_subscription(&receivers[j].0).is_some() {
                live.push((receivers[j].0.clone(), receivers[j].1.clone()));
                pending.push(receivers[j].0.clone());
                proof {
                    assert(pair_views(live@) =~= pair_views(lv).push(all[j as int]));
                    assert(crate::regions::views(pending@) =~= crate::regions::views(pv).push(all[j as int].0));
                    assert(pair_views(live@).map_values(|p: (Seq<char>, Seq<char>)| p.0) =~= pair_views(
                        lv,
                    ).map_values(|p: (Seq<char>, Seq<char>)| p.0).push(all[j as int].0));
                }
            }
            j = j + 1;
        }
        proof {
            assert(all.take(receivers@.len() as int) =~= all);
            assert(old(self).dataflow(dataflow_id) == self.running@[i as int].dataflow);
        }
        let ghost regions_before = self.regions;
        let ghost pend = pending@;
        let (token, freed) = match self.regions.publish(
            res.region_id,
            dataflow_id,
            node_id.clone(),
            pending,
            res.handle,
        ) {
            Err(_) => {
                return Err(DaemonError::TokensExhausted);
            },
            Ok(p) => p,
        };
        proof {
            if freed is None {
                let last = self.regions.published@.len() - 1;
                assert(self.regions.published@[last].token == token);
                assert(self.regions.published@[last].pending@ == pend);
                assert(self.regions.published@.drop_last() =~= regions_before.published@);
                self.regions.lemma_index_of(last);
            }
            if self.regions.is_reserved(region_id@) {
                let k = self.regions.reserved_ids().index_of(region_id@);
                assert(regions_before.reserved_ids()[k] == region_id@);
            }
        }
        match freed {
            Some(f) => {
                self.finished.push(DropNotice { dataflow: f.dataflow, node: f.producer, token });
            },
            None => {},
        }
        let ghost clock_before = self.clock.last_issued();
        let ghost mid = *self;
        let mut deliveries: Vec<Delivery> = Vec::new();
        let mut k: usize = 0;
        while k < live.len()
            invariant
                k <= live@.len(),
                deliveries@.len() == k,
                self.clock.last_issued() >= clock_before,
                self.regions == mid.regions,
                self.running == mid.running,
                self.finished == mid.finished,
                self.drop_subscribers == mid.drop_subscribers,
                forall|m: int|
                    0 <= m < k ==> clock_before < (#[trigger] deliveries@[m]).timestamp
                        <= self.clock.last_issued(),
                forall|m: int, n: int|
                    0 <= m < n < k ==> (#[trigger] deliveries@[m]).timestamp < (#[trigger] deliveries@[n]).timestamp,
                forall|m: int|
                    0 <= m < k ==> deliveries@[m].receiver@ == live@[m].0@ && deliveries@[m].input_id@
                        == live@[m].1@ && deliveries@[m].region_id@ == region_id@ && deliveries@[m].token
                        == token,
            decreases live@.len() - k,
        {
            let timestamp = next_timestamp(&mut self.clock);
            deliveries.push(
                Delivery {
                    receiver: live[k].0.clone(),
                    input_id: live[k].1.clone(),
                    timestamp,
                    region_id: region_id.clone(),
                    token,
                },
            );
            k = k + 1;
        }
        proof {
            let livev = live_receivers(
                old(self).dataflow(dataflow_id),
                node_id@,
                old(self).reservation_of(region_id@).output_id@,
            );
            assert(old(self).reservation_of(region_id@) == res);
            assert(livev == pair_views(live@));
            assert forall|m: int| 0 <= m < deliveries@.len() implies deliveries@[m].receiver@ == pair_views(live@)[m].0
                && deliveries@[m].input_id@ == pair_views(live@)[m].1 by {
                assert(pair_views(live@)[m] == (live@[m].0@, live@[m].1@));
            }
            assert(deliveries@.len() == livev.len());
            if livev.len() > 0 {
                assert(self.regions.is_published(token));
                assert(self.regions.pending_of(token) == livev.map_values(|p: (Seq<char>, Seq<char>)| p.0).to_multiset());
            }
        }
        Ok(deliveries)
    }
}

impl<S> Daemon<S> {
    /// What an acknowledgment by `node` of the message of `token` does to the
    /// regions and to the notices owed, from state `a` to state `b`.
    pub open spec fn acknowledged(a: &Self, b: &Self, node: Seq<char>, token: u64, r: Result<(), DaemonError>) -> bool {
        &&& b.regions.reserved@ == a.regions.reserved@
        &&& b.regions.next_token == a.regions.next_token
        &&& !a.regions.is_published(token) ==> r == Err::<(), DaemonError>(DaemonError::UnknownDropToken)
            && b.regions.published@ == a.regions.published@ && b.finished@ == a.finished@
        &&& a.regions.is_published(token) && a.regions.pending_of(token).count(node) == 0 ==> r
            == Err::<(), DaemonError>(DaemonError::NotAReceiver) && b.regions.published@
            == a.regions.published@ && b.finished@ == a.finished@
        &&& a.regions.is_published(token) && a.regions.pending_of(token).count(node) > 0 ==> {
            let left = a.regions.pending_of(token).remove(node);
            let p = a.regions.published@[a.regions.index_of(token)];
            &&& r is Ok
            &&& left.len() == 0 ==> !b.regions.is_published(token) && b.finished@ == a.finished@.push(
                (DropNotice { dataflow: p.dataflow, node: p.producer, token }),
            )
            &&& left.len() > 0 ==> b.regions.is_published(token) && b.regions.pending_of(token) == left
                && b.finished@ == a.finished@
        }
        &&& forall|t: u64|
            t != token ==> (b.regions.is_published(t) == a.regions.is_published(t)) && (
            a.regions.is_published(t) ==> b.regions.pending_of(t) == a.regions.pending_of(t))
    }

    /// Node `node_id` is done with the message of `token`. When it was the
    /// last delivery outstanding the region is freed and the token is owed to
    /// the producing node.
    pub fn report_drop(&mut self, node_id: &String, token: u64) -> (r: Result<(), DaemonError>)
        requires
            old(self).wf(),
        ensures
            final(self).wf(),
            final(self).running@ == old(self).running@,
            final(self).drop_subscribers@ == old(self).drop_subscribers@,
            Self::acknowledged(old(self), final(self), node_id@, token, r),
    {
        match self.regions.acknowledge(token, node_id) {
            Ok(Some(f)) => {
                self.finished.push(DropNotice { dataflow: f.dataflow, node: f.producer, token: f.token });
                Ok(())
            },
            Ok(None) => Ok(()),
            Err(TrackerError::UnknownDropToken) => Err(DaemonError::UnknownDropToken),
            Err(TrackerError::NotAReceiver) => Err(DaemonError::NotAReceiver),
            Err(TrackerError::RegionIdInUse) => Err(DaemonError::RegionIdInUse),
            Err(TrackerError::TokensExhausted) => Err(DaemonError::TokensExhausted),
        }
    }

    /// A delivery could not be handed to its receiver because the receiver's
    /// sink is closed: the receiver loses its subscription, and the delivery
    /// counts as acknowledged, since nobody will read it.
    pub fn delivery_failed(&mut self, dataflow_id: u128, delivery: &Delivery) -> (r: Result<(), DaemonError>)
        requires
            old(self).wf(),
        ensures
            final(self).wf(),
            final(self).drop_subscribers@ == old(self).drop_subscribers@,
            Self::registry_unsubscribed(old(self), final(self), dataflow_id, delivery.receiver@),
            Self::acknowledged(old(self), final(self), delivery.receiver@, delivery.token, r),
    {
        self.unsubscribe_node(dataflow_id, &delivery.receiver);
        self.report_drop(&delivery.receiver, delivery.token)
    }

    fn unsubscribe_node(&mut self, dataflow_id: u128, node_id: &String)
        requires
            old(self).wf(),
        ensures
            final(self).wf(),
            final(self).regions == old(self).regions,
            final(self).finished@ == old(self).finished@,
            final(self).drop_subscribers@ == old(self).drop_subscribers@,
            Self::registry_unsubscribed(old(self), final(self), dataflow_id, node_id@),
    {
        let i = match self.find_dataflow(dataflow_id) {
            None => {
                return;
            },
            Some(i) => i,
        };
        let mut entry = self.running.remove(i);
        proof {
            assert(old(self).running@[i as int] == entry);
        }
        entry.dataflow.unsubscribe(node_id);
        self.running.insert(i, entry);
        proof {
            assert(self.running@ =~= old(self).running@.update(i as int, entry));
            Self::lemma_replace_entry(old(self), self, i as int);
            assert forall|k: int| 0 <= k < self.running@.len() implies self.running@[k].dataflow.wf() by {
                if k != i {
                    assert(self.running@[k] == old(self).running@[k]);
                }
            }
        }
    }
}

impl<S> Daemon<S> {
    fn find_drop_subscriber(&self, dataflow_id: u128, node_id: &String) -> (r: Option<usize>)
        ensures
            r is Some <==> self.is_drop_subscribed(dataflow_id, node_id@),
            match r {
                Some(i) => i < self.drop_subscribers@.len() && self.drop_subscribers@[i as int].dataflow
                    == dataflow_id && self.drop_subscribers@[i as int].node@ == node_id@,
                None => true,
            },
    {
        let mut i: usize = 0;
        while i < self.drop_subscribers.len()
            invariant
                i <= self.drop_subscribers@.len(),
                forall|j: int|
                    0 <= j < i ==> !(self.drop_subscribers@[j].dataflow == dataflow_id
                        && self.drop_subscribers@[j].node@ == node_id@),
            decreases self.drop_subscribers@.len() - i,
        {
            if self.drop_subscribers[i].dataflow == dataflow_id && self.drop_subscribers[i].node == *node_id {
                return Some(i);
            }
            i = i + 1;
        }
        None
    }

    /// Node `node_id` of dataflow `dataflow_id` asks for the drop tokens of
    /// its outputs. Refused when no such dataflow is running.
    pub fn subscribe_drop(&mut self, dataflow_id: u128, node_id: String) -> (r: Result<(), DaemonError>)
        requires
            old(self).wf(),
        ensures
            final(self).wf(),
            final(self).regions == old(self).regions,
            Self::drop_subscribed(old(self), final(self), dataflow_id, node_id@, r),
    {
        if self.find_dataflow(dataflow_id).is_none() {
            return Err(DaemonError::UnknownDataflow);
        }
        if self.find_drop_subscriber(dataflow_id, &node_id).is_none() {
            let ghost before = self.drop_subscribers@;
            self.drop_subscribers.push(DropSubscriber { dataflow: dataflow_id, node: node_id });
            proof {
                assert(self.drop_subscribers@[before.len() as int].node@ == node_id@);
                assert forall|d: u128, n: Seq<char>|
                    old(self).is_drop_subscribed(d, n) implies self.is_drop_subscribed(d, n) by {
                    let i = choose|i: int|
                        0 <= i < before.len() && before[i].dataflow == d && before[i].node@ == n;
                    assert(self.drop_subscribers@[i] == before[i]);
                }
            }
        }
        Ok(())
    }

    /// Answers a poll of node `node_id` for finished drop tokens: `Closed`
    /// without a drop subscription; else every token owed to the node, in the
    /// order they finished, which are then no longer owed; `Wait` when there
    /// are none.
    pub fn drop_poll(&mut self, dataflow_id: u128, node_id: &String) -> (r: DropPoll)
        requires
            old(self).wf(),
        ensures
            final(self).wf(),
            final(self).regions == old(self).regions,
            Self::polled(old(self), final(self), dataflow_id, node_id@, r),
    {
        if self.find_drop_subscriber(dataflow_id, node_id).is_none() {
            return DropPoll::Closed;
        }
        let mut owed: Vec<u64> = Vec::new();
        let mut rest: Vec<DropNotice> = Vec::new();
        let mut i: usize = 0;
        while i < self.finished.len()
            invariant
                i <= self.finished@.len(),
                owed@ == tokens_for(self.finished@.take(i as int), dataflow_id, node_id@),
                rest@ == notices_not_for(self.finished@.take(i as int), dataflow_id, node_id@),
            decreases self.finished@.len() - i,
        {
            proof {
                assert(self.finished@.take(i + 1).drop_last() =~= self.finished@.take(i as int));
            }
            let n = &self.finished[i];
            if n.dataflow == dataflow_id && n.node == *node_id {
                owed.push(n.token);
            } else {
                rest.push(n.clone_notice());
            }
            i = i + 1;
        }
        proof {
            assert(self.finished@.take(self.finished@.len() as int) =~= self.finished@);
        }
        self.finished = rest;
        if owed.len() == 0 {
            DropPoll::Wait
        } else {
            DropPoll::Tokens(owed)
        }
    }

    /// Node `node_id` stopped: it loses its event sink and its drop subscription.
    pub fn node_stopped(&mut self, dataflow_id: u128, node_id: &String)
        requires
            old(self).wf(),
        ensures
            final(self).wf(),
            final(self).regions == old(self).regions,
            Self::stopped(old(self), final(self), dataflow_id, node_id@),
    {
        self.unsubscribe_node(dataflow_id, node_id);
        let ghost before = self.drop_subscribers@;
        let mut kept: Vec<DropSubscriber> = Vec::new();
        let mut i: usize = 0;
        while i < self.drop_subscribers.len()
            invariant
                i <= self.drop_subscribers@.len(),
                before == self.drop_subscribers@,
                forall|k: int|
                    0 <= k < kept@.len() ==> !(kept@[k].dataflow == dataflow_id && kept@[k].node@ == node_id@),
                forall|k: int| #![trigger kept@[k]] 0 <= k < kept@.len() ==> exists|j: int| 0 <= j < i && #[trigger] before[j] == kept@[k],
                forall|j: int|
                    0 <= j < i && !(before[j].dataflow == dataflow_id && before[j].node@ == node_id@) ==> exists|k: int|
                        0 <= k < kept@.len() && kept@[k] == #[trigger] before[j],
            decreases self.drop_subscribers@.len() - i,
        {
            let s = &self.drop_subscribers[i];
            if !(s.dataflow == dataflow_id && s.node == *node_id) {
                let ghost kv = kept@;
                kept.push(DropSubscriber { dataflow: s.dataflow, node: s.node.clone() });
                proof {
                    assert(kept@[kv.len() as int] == before[i as int]);
                    assert forall|k: int| #![trigger kept@[k]] 0 <= k < kept@.len() implies exists|j: int| 0 <= j < i + 1 && #[trigger] before[j] == kept@[k] by {
                        if k < kv.len() {
                            assert(kept@[k] == kv[k]);
                        } else {
                            assert(before[i as int] == kept@[k]);
                        }
                    }
                    assert forall|j: int|
                        0 <= j < i + 1 && !(before[j].dataflow == dataflow_id && before[j].node@ == node_id@) implies exists|k: int|
                            0 <= k < kept@.len() && kept@[k] == #[trigger] before[j] by {
                        if j < i {
                            let k = choose|k: int| 0 <= k < kv.len() && kv[k] == before[j];
                            assert(kept@[k] == kv[k]);
                        } else {
                            assert(kept@[kv.len() as int] == before[j]);
                        }
                    }
                }
            }
            i = i + 1;
        }
        self.drop_subscribers = kept;
        proof {
            assert forall|d: u128, n: Seq<char>|
                !(d == dataflow_id && n == node_id@) implies self.is_drop_subscribed(d, n) == old(self).is_drop_subscribed(d, n) by {
                if old(self).is_drop_subscribed(d, n) {
                    let j = choose|j: int| 0 <= j < before.len() && before[j].dataflow == d && before[j].node@ == n;
                    let k = choose|k: int| 0 <= k < self.drop_subscribers@.len() && self.drop_subscribers@[k] == before[j];
                }
                if self.is_drop_subscribed(d, n) {
                    let k = choose|k: int| 0 <= k < self.drop_subscribers@.len() && self.drop_subscribers@[k].dataflow == d && self.drop_subscribers@[k].node@ == n;
                    let j = choose|j: int| 0 <= j < before.len() && before[j] == self.drop_subscribers@[k];
                }
            }
        }
    }
}

impl DropNotice {
    pub fn clone_notice(&self) -> (r: Self)
        ensures
            r == *self,
    {
        DropNotice { dataflow: self.dataflow, node: self.node.clone(), token: self.token }
    }
}

} // verus!
