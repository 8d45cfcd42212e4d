//! The events that drive the daemon, and the dispatch of node requests.
use crate::daemon::{Daemon, DaemonError, Delivery, DropPoll, NodeSpec};
use vstd::prelude::*;

verus! {

/// A command of the cluster coordinator.
pub enum CoordinatorEvent {
    /// Start dataflow `dataflow_id` with these nodes.
    Spawn { dataflow_id: u128, nodes: Vec<NodeSpec> },
}

/// A request of a connected node; `S` is the type of a node's event sink.
pub enum DaemonNodeEvent<S> {
    PrepareOutputMessage { output_id: String, len: usize },
    SendOutMessage { id: String },
    Stopped,
    Subscribe { event_sender: S },
    SubscribeDrop,
    NextFinishedDropTokens,
    ReportDrop { token: u64 },
}

/// One event of the daemon's merged event stream: `C` is a new connection,
/// `S` a node's event sink and `R` the sender of the correlated reply.
pub enum Event<C, S, R> {
    NewConnection(C),
    ConnectError(String),
    Node { dataflow_id: u128, node_id: String, event: DaemonNodeEvent<S>, reply_sender: R },
    Coordinator(CoordinatorEvent),
}

/// The reply to a node request.
#[derive(Debug, PartialEq, Eq)]
pub enum ControlReply {
    Result(Result<(), DaemonError>),
    PreparedMessage { shared_memory_id: String },
    /// Finished drop tokens; an empty list closes the node's drop stream.
    DropTokens(Vec<u64>),
    /// No drop token has finished yet: the reply is held back.
    Pending,
}

/// The outcome of a node request: the reply, and the deliveries to hand to
/// the receivers' sinks.
pub struct NodeOutcome {
    pub reply: ControlReply,
    pub deliveries: Vec<Delivery>,
}

impl<S> Daemon<S> {
    /// Handles one request of node `node_id` of dataflow `dataflow_id`.
    pub fn handle_node_event(&mut self, dataflow_id: u128, node_id: String, event: DaemonNodeEvent<S>) -> (r:
        NodeOutcome)
        requires
            old(self).wf(),
        ensures
            final(self).wf(),
            !(event is SendOutMessage) ==> r.deliveries@.len() == 0,
            match event {
                DaemonNodeEvent::Subscribe { event_sender } => (r.reply matches ControlReply::Result(res)
                    && Self::subscribed(old(self), final(self), dataflow_id, node_id, event_sender, res)),
                DaemonNodeEvent::PrepareOutputMessage { output_id, len } => match r.reply {
                    ControlReply::PreparedMessage { shared_memory_id } => Self::prepared(
                        old(self),
                        final(self),
                        dataflow_id,
                        node_id,
                        output_id,
                        len,
                        Ok(shared_memory_id),
                    ),
                    ControlReply::Result(Err(e)) => Self::prepared(
                        old(self),
                        final(self),
                        dataflow_id,
                        node_id,
                        output_id,
                        len,
                        Err(e),
                    ),
                    _ => false,
                },
                DaemonNodeEvent::SendOutMessage { id } => match r.reply {
                    ControlReply::Result(Ok(_)) => Self::sent_out(
                        old(self),
                        final(self),
                        dataflow_id,
                        node_id,
                        id,
                        Ok(r.deliveries),
                    ),
                    ControlReply::Result(Err(e)) => r.deliveries@.len() == 0 && Self::sent_out(
                        old(self),
                        final(self),
                        dataflow_id,
                        node_id,
                        id,
                        Err(e),
                    ),
                    _ => false,
                },
                DaemonNodeEvent::Stopped => r.reply == ControlReply::Result(Ok(())) && Self::stopped(
                    old(self),
                    final(self),
                    dataflow_id,
                    node_id@,
                ),
                DaemonNodeEvent::SubscribeDrop => (r.reply matches ControlReply::Result(res)
                    && Self::drop_subscribed(old(self), final(self), dataflow_id, node_id@, res)),
                DaemonNodeEvent::NextFinishedDropTokens => match r.reply {
                    ControlReply::DropTokens(ts) => if ts@.len() == 0 {
                        Self::polled(old(self), final(self), dataflow_id, node_id@, DropPoll::Closed)
                    } else {
                        Self::polled(old(self), final(self), dataflow_id, node_id@, DropPoll::Tokens(ts))
                    },
                    ControlReply::Pending => Self::polled(
                        old(self),
                        final(self),
                        dataflow_id,
                        node_id@,
                        DropPoll::Wait,
                    ),
                    _ => false,
                },
                DaemonNodeEvent::ReportDrop { token } => (r.reply matches ControlReply::Result(res)
                    && Self::acknowledged(old(self), final(self), node_id@, token, res)),
            },
    {
        match event {
            DaemonNodeEvent::Subscribe { event_sender } => {
                let result = match self.subscribe(dataflow_id, node_id, event_sender) {
                    Ok(()) => Ok(()),
                    Err(e) => Err(e),
                };
                NodeOutcome { reply: ControlReply::Result(result), deliveries: Vec::new() }
            },
            DaemonNodeEvent::PrepareOutputMessage { output_id, len } => {
                let reply = match self.prepare_output_message(dataflow_id, node_id, output_id, len) {
                    Ok(id) => ControlReply::PreparedMessage { shared_memory_id: id },
                    Err(e) => ControlReply::Result(Err(e)),
                };
                NodeOutcome { reply, deliveries: Vec::new() }
            },
            DaemonNodeEvent::SendOutMessage { id } => match self.send_out_message(dataflow_id, &node_id, &id) {
                Ok(deliveries) => NodeOutcome { reply: ControlReply::Result(Ok(())), deliveries },
                Err(e) => NodeOutcome { reply: ControlReply::Result(Err(e)), deliveries: Vec::new() },
            },
            DaemonNodeEvent::Stopped => {
                self.node_stopped(dataflow_id, &node_id);
                NodeOutcome { reply: ControlReply::Result(Ok(())), deliveries: Vec::new() }
            },
            DaemonNodeEvent::SubscribeDrop => {
                let result = match self.subscribe_drop(dataflow_id, node_id) {
                    Ok(()) => Ok(()),
                    Err(e) => Err(e),
                };
                NodeOutcome { reply: ControlReply::Result(result), deliveries: Vec::new() }
            },
            DaemonNodeEvent::NextFinishedDropTokens => {
                let reply = match self.drop_poll(dataflow_id, &node_id) {
                    DropPoll::Tokens(ts) => ControlReply::DropTokens(ts),
                    DropPoll::Wait => ControlReply::Pending,
                    DropPoll::Closed => ControlReply::DropTokens(Vec::new()),
                };
                NodeOutcome { reply, deliveries: Vec::new() }
            },
            DaemonNodeEvent::ReportDrop { token } => {
                let result = self.report_drop(&node_id, token);
                NodeOutcome { reply: ControlReply::Result(result), deliveries: Vec::new() }
            },
        }
    }
}

} // verus!
