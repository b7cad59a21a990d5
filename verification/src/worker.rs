//! The receiving half of the protocol, which lives inside each component:
//! the component's channels and the one entry point through which the host
//! delivers events.

use std::collections::HashMap;
use vstd::prelude::*;
use vstd::std_specs::iter::IteratorSpec;

use crate::protocol::{copy_bytes, ChannelId, Event, EventPattern, EventView, HandleError, Response};

verus! {

/// What a component is configured with when it is initialised.
pub type Env = Vec<u8>;

/// The code that a dispatch fails with where the worker was never initialised.
pub const NOT_INITIALIZED: HandleError = 0;

/// The code that a dispatch fails with where the worker has no such channel.
pub const CHANNEL_NOT_FOUND: HandleError = 1;

/// Handles the events of one channel. Components implement it.
pub trait Handler: Send + Sync + 'static {
    /// Whether `reply` is an answer that the handler gives to the event under
    /// this configuration. A handler that states nothing of itself may give
    /// any answer.
    open spec fn answers(
        &self,
        config: Seq<u8>,
        event: EventView,
        reply: Result<Response, HandleError>,
    ) -> bool {
        true
    }

    /// Handles one event.
    fn handle(&self, config: Env, event: Event) -> (reply: Result<Response, HandleError>)
        ensures
            self.answers(config@, event@, reply),
    ;
}

/// One channel of a worker: who handles its events, and which it wants.
pub struct Channel {
    pub handler: Box<dyn Handler>,
    pub pattern: EventPattern,
}

/// The state of the worker inside a component: its channels, and the
/// configuration that it was initialised with.
pub struct Worker {
    channels: HashMap<ChannelId, Channel>,
    env: Option<Env>,
}

/// What a dispatch comes to before the handler is asked: the channel and the
/// configuration to hand to its handler, or the code to fail with. A missing
/// channel is found before a missing initialisation.
pub open spec fn dispatch_target(
    channels: Map<ChannelId, Channel>,
    env: Option<Seq<u8>>,
    id: ChannelId,
) -> Result<(Channel, Seq<u8>), HandleError> {
    if !channels.contains_key(id) {
        Err(CHANNEL_NOT_FOUND)
    } else {
        match env {
            Some(env) => Ok((channels[id], env)),
            None => Err(NOT_INITIALIZED),
        }
    }
}

/// Whether `reply` is what a dispatch may come to: the failure that is due
/// before the handler is asked, or else an answer of the channel's handler to
/// the event under the worker's configuration.
pub open spec fn dispatches(
    channels: Map<ChannelId, Channel>,
    env: Option<Seq<u8>>,
    id: ChannelId,
    event: EventView,
    reply: Result<Response, HandleError>,
) -> bool {
    match dispatch_target(channels, env, id) {
        Ok((channel, env)) => channel.handler.answers(env, event, reply),
        Err(code) => reply == Err::<Response, HandleError>(code),
    }
}

impl Default for Worker {
    fn default() -> (worker: Worker)
        ensures
            worker.channels() == Map::<ChannelId, Channel>::empty(),
            worker.env() is None,
    {
        Worker::new()
    }
}

impl Worker {
    /// The channels by their ids.
    pub closed spec fn channels(&self) -> Map<ChannelId, Channel> {
        self.channels@
    }

    /// The configuration, `None` before the worker is initialised.
    pub closed spec fn env(&self) -> Option<Seq<u8>> {
        match self.env {
            Some(env) => Some(env@),
            None => None,
        }
    }

    /// A worker with no channels that was not initialised.
    pub fn new() -> (worker: Worker)
        ensures
            worker.channels() == Map::<ChannelId, Channel>::empty(),
            worker.env() is None,
    {
        Worker { channels: HashMap::new(), env: None }
    }

    /// Adds a channel. A channel that had the id before is replaced.
    pub fn with_channel(self, id: ChannelId, channel: Channel) -> (worker: Worker)
        ensures
            worker.channels() == self.channels().insert(id, channel),
            worker.env() == self.env(),
    {
        broadcast use vstd::std_specs::hash::group_hash_axioms;

        let mut worker = self;
        worker.channels.insert(id, channel);
        worker
    }

    /// Sets the configuration. An earlier one is overwritten.
    pub fn init(&mut self, env: Env)
        ensures
            final(self).channels() == old(self).channels(),
            final(self).env() == Some(env@),
    {
        self.env = Some(env);
    }

    /// What the worker has to register with the host: each channel's id with
    /// its pattern, each channel once, in no particular order.
    pub fn registrations(&self) -> (list: Vec<(ChannelId, &EventPattern)>)
        ensures
            list@.len() == self.channels().dom().len(),
            forall|i: int, j: int| 0 <= i < j < list@.len() ==> list@[i].0 != list@[j].0,
            forall|i: int|
                0 <= i < list@.len() ==> self.channels().contains_key(#[trigger] list@[i].0)
                    && *list@[i].1 == self.channels()[list@[i].0].pattern,
            forall|id: ChannelId|
                self.channels().contains_key(id) ==> exists|i: int|
                    0 <= i < list@.len() && #[trigger] list@[i].0 == id,
    {
        broadcast use vstd::std_specs::hash::group_hash_axioms;

        let mut list: Vec<(ChannelId, &EventPattern)> = Vec::new();
        let iter = self.channels.iter();
        for entry in it: iter
            invariant
                list@.len() == it.index(),
                forall|i: int|
                    0 <= i < list@.len() ==> list@[i].0 == *it.seq()[i].0 && *list@[i].1
                        == it.seq()[i].1.pattern,
        {
            let (id, channel) = entry;
            list.push((*id, &channel.pattern));
        }
        proof {
            let ids = list@.map_values(|entry: (ChannelId, &EventPattern)| entry.0);
            assert forall|id: ChannelId| self.channels@.contains_key(id) implies ids.contains(
                id,
            ) by {
                let found = (&id, &self.channels@[id]);
                assert(iter.remaining().contains(found));
                let i = choose|i: int| 0 <= i < iter.remaining().len() && iter.remaining()[i] == found;
                assert(ids[i] == id);
            }
            assert forall|i: int| 0 <= i < ids.len() implies self.channels@.contains_key(
                #[trigger] ids[i],
            ) by {
                assert(self.channels@.contains_key(*iter.remaining()[i].0));
            }
            assert(ids.to_set() =~= self.channels@.dom());
            ids.lemma_no_dup_set_cardinality();
            assert forall|i: int, j: int| 0 <= i < j < list@.len() implies list@[i].0
                != list@[j].0 by {
                assert(ids[i] != ids[j]);
            }
            assert forall|id: ChannelId| self.channels().contains_key(id) implies exists|i: int|
                0 <= i < list@.len() && #[trigger] list@[i].0 == id by {
                let i = choose|i: int| 0 <= i < ids.len() && ids[i] == id;
                assert(list@[i].0 == id);
            }
        }
        list
    }

    /// Answers which channel an event for `id` goes to and which
    /// configuration its handler gets, or which code the dispatch fails with.
    pub fn resolve(&self, id: ChannelId) -> (found: Result<(&Channel, Env), HandleError>)
        ensures
            match found {
                Ok((channel, env)) => dispatch_target(self.channels(), self.env(), id) == Ok::<
                    (Channel, Seq<u8>),
                    HandleError,
                >((*channel, env@)),
                Err(code) => dispatch_target(self.channels(), self.env(), id) == Err::<
                    (Channel, Seq<u8>),
                    HandleError,
                >(code),
            },
    {
        broadcast use vstd::std_specs::hash::group_hash_axioms;

        let channel = match self.channels.get(&id) {
            Some(channel) => channel,
            None => {
                return Err(CHANNEL_NOT_FOUND);
            },
        };
        let env = match &self.env {
            Some(env) => copy_bytes(env),
            None => {
                return Err(NOT_INITIALIZED);
            },
        };
        Ok((channel, env))
    }
}

/// Initialises a worker with its configuration. Its channels stay as they
/// are; an earlier configuration is overwritten.
pub fn global_init_worker(env: Env, worker: Worker) -> (ready: Worker)
    ensures
        ready.channels() == worker.channels(),
        ready.env() == Some(env@),
{
    let mut worker = worker;
    worker.init(env);
    worker
}

/// Delivers an event to a channel of the worker: asks the channel's handler
/// with the worker's configuration and hands back what it answers. Fails with
/// [`CHANNEL_NOT_FOUND`] where the worker has no such channel, and with
/// [`NOT_INITIALIZED`] where it has but was never initialised.
pub fn global_handle_request(worker: &Worker, id: u32, evt: Event) -> (reply: Result<
    Response,
    HandleError,
>)
    ensures
        dispatches(worker.channels(), worker.env(), id, evt@, reply),
{
    match worker.resolve(id) {
        Ok((channel, env)) => channel.handler.handle(env, evt),
        Err(code) => Err(code),
    }
}

} // verus!
