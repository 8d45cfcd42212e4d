//! Per-dataflow state: the nodes' event sinks and the static routing table
//! from outputs to the inputs that read them.
use vstd::prelude::*;

verus! {

/// One routing entry: output `output` of node `source` feeds input `input` of node `target`.
#[derive(Debug, Clone)]
pub struct Route {
    pub source: String,
    pub output: String,
    pub target: String,
    pub input: String,
}

/// The event sink of a node that completed its subscribe handshake.
pub struct Subscription<S> {
    pub node_id: String,
    pub sink: S,
}

/// A route as plain text values.
pub type RouteView = (Seq<char>, Seq<char>, Seq<char>, Seq<char>);

pub open spec fn route_view(r: Route) -> RouteView {
    (r.source@, r.output@, r.target@, r.input@)
}

/// The `(node, input)` pairs that the routes read from output `output` of node `node`, in order.
pub open spec fn receivers_in(routes: Seq<RouteView>, node: Seq<char>, output: Seq<char>) -> Seq<
    (Seq<char>, Seq<char>),
>
    decreases routes.len(),
{
    if routes.len() == 0 {
        Seq::empty()
    } else {
        let prev = receivers_in(routes.drop_last(), node, output);
        let r = routes.last();
        if r.0 == node && r.1 == output {
            prev.push((r.2, r.3))
        } else {
            prev
        }
    }
}

pub struct RunningDataflow<S> {
    pub subscribe_channels: Vec<Subscription<S>>,
    pub mappings: Vec<Route>,
}

impl<S> RunningDataflow<S> {
    pub open spec fn routes(&self) -> Seq<RouteView> {
        self.mappings@.map_values(|r: Route| route_view(r))
    }

    pub open spec fn subscribers(&self) -> Seq<Seq<char>> {
        self.subscribe_channels@.map_values(|s: Subscription<S>| s.node_id@)
    }

    pub open spec fn is_subscribed(&self, node: Seq<char>) -> bool {
        self.subscribers().contains(node)
    }

    /// At most one sink per node, and no route twice.
    pub open spec fn wf(&self) -> bool {
        &&& self.subscribers().no_duplicates()
        &&& self.routes().no_duplicates()
    }

    pub fn new() -> (r: Self)
        ensures
            r.wf(),
            r.routes().len() == 0,
            r.subscribers().len() == 0,
    {
        let r = RunningDataflow { subscribe_channels: Vec::new(), mappings: Vec::new() };
        proof {
            assert(r.routes() =~= Seq::<RouteView>::empty());
            assert(r.subscribers() =~= Seq::<Seq<char>>::empty());
        }
        r
    }

    /// Adds a route unless it is already there.
    pub fn add_route(&mut self, route: Route)
        requires
            old(self).wf(),
        ensures
            final(self).wf(),
            final(self).subscribe_channels@ == old(self).subscribe_channels@,
            old(self).routes().contains(route_view(route)) ==> final(self).routes() == old(self).routes(),
            !old(self).routes().contains(route_view(route)) ==> final(self).routes() == old(self).routes().push(
                route_view(route),
            ),
    {
        let mut i: usize = 0;
        while i < self.mappings.len()
            invariant
                self.wf(),
                i <= self.mappings@.len(),
                forall|j: int| 0 <= j < i ==> route_view(self.mappings@[j]) != route_view(route),
            decreases self.mappings@.len() - i,
        {
            let m = &self.mappings[i];
            if m.source == route.source && m.output == route.output && m.target == route.target
                && m.input == route.input {
                proof {
                    assert(self.routes()[i as int] == route_view(route));
                }
                return;
            }
            i = i + 1;
        }
        proof {
            assert forall|j: int| 0 <= j < self.routes().len() implies self.routes()[j] != route_view(route) by {
                assert(self.routes()[j] == route_view(self.mappings@[j]));
            }
        }
        let ghost before = self.routes();
        self.mappings.push(route);
        proof {
            assert(self.routes() =~= before.push(route_view(route)));
        }
    }

    /// The inputs that read output `output_id` of node `node_id`: empty when
    /// nobody reads it.
    pub fn resolve_receivers(&self, node_id: &String, output_id: &String) -> (r: Vec<(String, String)>)
        ensures
            r@.map_values(|p: (String, String)| (p.0@, p.1@)) == receivers_in(self.routes(), node_id@, output_id@),
    {
        let mut r: Vec<(String, String)> = Vec::new();
        let mut i: usize = 0;
        while i < self.mappings.len()
            invariant
                i <= self.mappings@.len(),
                r@.map_values(|p: (String, String)| (p.0@, p.1@)) == receivers_in(
                    self.routes().take(i as int),
                    node_id@,
                    output_id@,
                ),
            decreases self.mappings@.len() - i,
        {
            let m = &self.mappings[i];
            proof {
                assert(self.routes().take(i + 1).drop_last() =~= self.routes().take(i as int));
            }
            let ghost before = r@;
            if m.source == *node_id && m.output == *output_id {
                r.push((m.target.clone(), m.input.clone()));
                proof {
                    assert(r@.map_values(|p: (String, String)| (p.0@, p.1@)) =~= before.map_values(
                        |p: (String, String)| (p.0@, p.1@),
                    ).push((m.target@, m.input@)));
                }
            }
            i = i + 1;
        }
        proof {
            assert(self.routes().take(self.mappings@.len() as int) =~= self.routes());
        }
        r
    }
}

impl<S> RunningDataflow<S> {
    /// The position of the subscription of `node_id`, if there is one.
    pub fn find_subscription(&self, node_id: &String) -> (r: Option<usize>)
        ensures
            r is Some <==> self.is_subscribed(node_id@),
            match r {
                Some(i) => i < self.subscribe_channels@.len() && self.subscribe_channels@[i as int].node_id@
                    == node_id@,
                None => true,
            },
    {
        let mut i: usize = 0;
        while i < self.subscribe_channels.len()
            invariant
                i <= self.subscribe_channels@.len(),
                forall|j: int| 0 <= j < i ==> self.subscribe_channels@[j].node_id@ != node_id@,
            decreases self.subscribe_channels@.len() - i,
        {
            if self.subscribe_channels[i].node_id == *node_id {
                proof {
                    assert(self.subscribers()[i as int] == node_id@);
                }
                return Some(i);
            }
            i = i + 1;
        }
        proof {
            if self.is_subscribed(node_id@) {
                let k = self.subscribers().index_of(node_id@);
                assert(self.subscribe_channels@[k].node_id@ == node_id@);
            }
        }
        None
    }

    /// The event sink of `node_id`, if the node is subscribed.
    pub fn sink(&self, node_id: &String) -> (r: Option<&S>)
        ensures
            r is Some <==> self.is_subscribed(node_id@),
            match r {
                Some(s) => exists|i: int|
                    0 <= i < self.subscribe_channels@.len() && self.subscribe_channels@[i].node_id@
                        == node_id@ && self.subscribe_channels@[i].sink == *s,
                None => true,
            },
    {
        match self.find_subscription(node_id) {
            Some(i) => Some(&self.subscribe_channels[i].sink),
            None => None,
        }
    }

    /// Records the event sink of `node_id`, replacing an earlier one.
    pub fn subscribe(&mut self, node_id: String, sink: S)
        requires
            old(self).wf(),
        ensures
            final(self).wf(),
            final(self).mappings@ == old(self).mappings@,
            final(self).is_subscribed(node_id@),
            forall|n: Seq<char>| n != node_id@ ==> final(self).is_subscribed(n) == old(self).is_subscribed(n),
            exists|i: int|
                0 <= i < final(self).subscribe_channels@.len() && final(self).subscribe_channels@[i].node_id
                    == node_id && final(self).subscribe_channels@[i].sink == sink,
    {
        let ghost before = self.subscribers();
        let ghost id = node_id;
        let ghost sk = sink;
        match self.find_subscription(&node_id) {
            Some(i) => {
                self.subscribe_channels.set(i, Subscription { node_id, sink });
                proof {
                    assert(self.subscribers() =~= before);
                    assert(self.subscribe_channels@[i as int].node_id == id);
                    assert(self.subscribers()[i as int] == id@);
                }
            },
            None => {
                self.subscribe_channels.push(Subscription { node_id, sink });
                proof {
                    assert(self.subscribers() =~= before.push(id@));
                    assert forall|n: Seq<char>| n != id@ implies self.subscribers().contains(n)
                        == before.contains(n) by {
                        if before.contains(n) {
                            let k = before.index_of(n);
                            assert(self.subscribers()[k] == n);
                        }
                        if self.subscribers().contains(n) {
                            let k = self.subscribers().index_of(n);
                            assert(before[k] == n);
                        }
                    }
                    let last = self.subscribe_channels@.len() - 1;
                    assert(self.subscribe_channels@[last].node_id == id);
                    assert(self.subscribers()[last] == id@);
                }
            },
        }
    }

    /// Removes the event sink of `node_id`; says whether there was one.
    pub fn unsubscribe(&mut self, node_id: &String) -> (r: bool)
        requires
            old(self).wf(),
        ensures
            final(self).wf(),
            final(self).mappings@ == old(self).mappings@,
            r == old(self).is_subscribed(node_id@),
            !final(self).is_subscribed(node_id@),
            forall|n: Seq<char>| n != node_id@ ==> final(self).is_subscribed(n) == old(self).is_subscribed(n),
    {
        let ghost before = self.subscribers();
        match self.find_subscription(node_id) {
            Some(i) => {
                self.subscribe_channels.remove(i);
                proof {
                    assert(self.subscribers() =~= before.remove(i as int));
                    assert forall|n: Seq<char>| n != node_id@ implies self.is_subscribed(n) == before.contains(n) by {
                        if before.contains(n) {
                            let k = before.index_of(n);
                            if k < i {
                                assert(self.subscribers()[k] == n);
                            } else {
                                assert(self.subscribers()[k - 1] == n);
                            }
                        }
                    }
                    assert(before[i as int] == node_id@);
                    if self.is_subscribed(node_id@) {
                        let k = self.subscribers().index_of(node_id@);
                        if k < i {
                            assert(before[k] == node_id@);
                        } else {
                            assert(before[k + 1] == node_id@);
                        }
                    }
                }
                true
            },
            None => false,
        }
    }
}

} // verus!
