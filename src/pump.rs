//! The decisions of a node's drop-token pump, which long-polls the daemon for
//! finished drop tokens and forwards them to the node's application code.
use vstd::prelude::*;

verus! {

/// The daemon's answer to a poll, as the pump sees it.
#[derive(Debug, Clone)]
pub enum PollReply {
    /// Drop tokens that finished; none means the subscription is closing.
    Tokens(Vec<u64>),
    /// A reply of another kind than drop tokens.
    Unexpected,
    /// The request failed in transport.
    Failed,
}

/// What the pump does next.
#[derive(Debug, Clone)]
pub enum PumpAction {
    /// Hand these tokens, in order, to the forwarding queue, then poll again.
    Forward(Vec<u64>),
    /// Poll again.
    PollAgain,
    /// Stop polling and close the forwarding queue.
    Stop,
}

/// The daemon's answer to the request for a drop subscription.
#[derive(Debug, Clone)]
pub enum SubscribeReply {
    Accepted,
    Refused(String),
    Unexpected,
}

#[derive(Debug, Clone, PartialEq, Eq)]
pub enum SubscribeError {
    /// The daemon refused, with this reason.
    Refused(String),
    /// The daemon answered with a reply of another kind.
    UnexpectedReply,
}

/// The reply closes the subscription.
pub open spec fn is_closing(reply: PollReply) -> bool {
    reply matches PollReply::Tokens(ts) && ts@.len() == 0
}

/// Whether a pump is stopped after `replies`, starting from `stopped`: each
/// reply goes through `on_reply`.
pub open spec fn stopped_after(stopped: bool, replies: Seq<PollReply>) -> bool
    decreases replies.len(),
{
    if replies.len() == 0 {
        stopped
    } else {
        stopped_after(stopped, replies.drop_last()) || is_closing(replies.last())
    }
}

/// Once a pump receives the closing reply it is stopped, and stays stopped
/// whatever replies follow: it never polls again.
pub proof fn lemma_closing_reply_ends_polling(replies: Seq<PollReply>, k: int)
    requires
        replies.len() > 0,
        is_closing(replies[0]),
        1 <= k <= replies.len(),
    ensures
        stopped_after(false, replies.take(k)),
    decreases k,
{
    if k == 1 {
        assert(replies.take(1).drop_last() =~= Seq::<PollReply>::empty());
        assert(replies.take(1).last() == replies[0]);
    } else {
        lemma_closing_reply_ends_polling(replies, k - 1);
        assert(replies.take(k).drop_last() =~= replies.take(k - 1));
    }
}

/// The state of a drop-token pump.
pub struct DropPump {
    pub stopped: bool,
}

impl DropPump {
    pub fn new() -> (r: Self)
        ensures
            !r.stopped,
    {
        DropPump { stopped: false }
    }

    /// Whether the pump sends another poll.
    pub fn should_poll(&self) -> (r: bool)
        ensures
            r == !self.stopped,
    {
        !self.stopped
    }

    /// Decides what to do with a reply: stop on the closing reply, forward
    /// tokens, poll again after an unexpected reply or a failed request.
    pub fn on_reply(&mut self, reply: PollReply) -> (a: PumpAction)
        ensures
            final(self).stopped == (old(self).stopped || is_closing(reply)),
            final(self).stopped ==> a is Stop,
            !final(self).stopped ==> match reply {
                PollReply::Tokens(ts) => a == PumpAction::Forward(ts),
                _ => a is PollAgain,
            },
    {
        if self.stopped {
            return PumpAction::Stop;
        }
        match reply {
            PollReply::Tokens(ts) => {
                if ts.len() == 0 {
                    self.stopped = true;
                    PumpAction::Stop
                } else {
                    PumpAction::Forward(ts)
                }
            },
            _ => PumpAction::PollAgain,
        }
    }

    /// The far end of the forwarding queue is gone: the pump stops.
    pub fn on_forward_failed(&mut self)
        ensures
            final(self).stopped,
    {
        self.stopped = true;
    }
}

/// The outcome of the request for a drop subscription.
pub fn subscribe_outcome(reply: SubscribeReply) -> (r: Result<(), SubscribeError>)
    ensures
        match reply {
            SubscribeReply::Accepted => r is Ok,
            SubscribeReply::Refused(e) => r == Err::<(), SubscribeError>(SubscribeError::Refused(e)),
            SubscribeReply::Unexpected => r == Err::<(), SubscribeError>(SubscribeError::UnexpectedReply),
        },
{
    match reply {
        SubscribeReply::Accepted => Ok(()),
        SubscribeReply::Refused(e) => Err(SubscribeError::Refused(e)),
        SubscribeReply::Unexpected => Err(SubscribeError::UnexpectedReply),
    }
}

} // verus!
