//! The orchestrator: turns blocks and outside requests into events, resolves
//! who gets them, and decides after each reply how a delivery goes on.
//!
//! The runtime never talks to a sandbox itself. It says what is to be
//! dispatched next; whoever drives it dispatches and hands the reply back.

use vstd::prelude::*;

use crate::error::RuntimeError;
use crate::json::{json_text, parsed_json, reply_text, reply_to_json, write_json};
use crate::ledger::{decoded_address, Block, LogSeq, TxOutputView};
use crate::protocol::{copy_bytes, Event, EventPattern, EventView, Response};
use crate::router::{target_views, Router, Target};
use crate::routes::{registered, request_target, utxo_targets, MatchKeyView, Routes, TargetView};

verus! {

/// One event on its way to one channel.
#[derive(Clone, Debug, PartialEq, Eq)]
pub struct Delivery {
    pub target: Target,
    pub event: Event,
}

/// The mathematical value of a [`Delivery`].
pub struct DeliveryView {
    pub target: TargetView,
    pub event: EventView,
}

impl View for Delivery {
    type V = DeliveryView;

    open spec fn view(&self) -> DeliveryView {
        DeliveryView { target: self.target@, event: self.event@ }
    }
}

/// The event of one output and the channels that get it.
#[derive(Debug)]
pub struct OutputPlan {
    event: Event,
    targets: Vec<Target>,
}

/// The mathematical value of an [`OutputPlan`].
pub struct OutputPlanView {
    pub event: EventView,
    pub targets: Seq<TargetView>,
}

impl View for OutputPlan {
    type V = OutputPlanView;

    closed spec fn view(&self) -> OutputPlanView {
        OutputPlanView { event: self.event@, targets: target_views(self.targets@) }
    }
}

/// Whether `plan` is what the routes ask for `output`: the output's address
/// decodes, the event carries the output's encoding, and the targets are
/// those registered for the address, each once, in any order.
pub open spec fn plans_output(routes: Routes, output: TxOutputView, plan: OutputPlanView) -> bool {
    &&& decoded_address(output.address) matches Ok(address)
    &&& plan.event == EventView::Utxo(output.encoded)
    &&& plan.targets.no_duplicates()
    &&& plan.targets.to_set() == utxo_targets(routes, address)
}

/// Whether `plans` is what the routes ask for the outputs of a block, taken in
/// their order. Planning stops at the first output whose address does not
/// decode: `failure` is then what decoding it failed with, and the plans cover
/// the outputs before it. Otherwise there is no failure, and the plans cover
/// every output.
pub open spec fn plans_block(
    routes: Routes,
    outputs: Seq<TxOutputView>,
    plans: Seq<OutputPlanView>,
    failure: Option<RuntimeError>,
) -> bool {
    &&& plans.len() <= outputs.len()
    &&& forall|i: int| 0 <= i < plans.len() ==> plans_output(routes, outputs[i], #[trigger] plans[i])
    &&& match failure {
        Some(failure) => {
            &&& plans.len() < outputs.len()
            &&& decoded_address(outputs[plans.len() as int].address) matches Err(cause)
            &&& failure == RuntimeError::BadAddress(cause)
        },
        None => plans.len() == outputs.len(),
    }
}

/// The deliveries of one output, in the order of its targets.
pub open spec fn output_deliveries(plan: OutputPlanView) -> Seq<DeliveryView> {
    plan.targets.map_values(|target: TargetView| DeliveryView { target, event: plan.event })
}

/// The deliveries of a block: those of its outputs, one output after the other.
pub open spec fn block_deliveries(plans: Seq<OutputPlanView>) -> Seq<DeliveryView> {
    plans.map_values(|plan: OutputPlanView| output_deliveries(plan)).flatten()
}

/// What a reply means for a delivery that nobody waits on. Any response is
/// fine, acknowledgement or not. A failure that the component reported itself
/// is passed over. Every other failure stops the block, unchanged.
pub open spec fn fire_and_forget_outcome(reply: Result<Response, RuntimeError>) -> Result<
    (),
    RuntimeError,
> {
    match reply {
        Ok(_) => Ok(()),
        Err(failure) => if failure.is_component_failure() {
            Ok(())
        } else {
            Err(failure)
        },
    }
}

/// What a block comes to when its deliveries were answered by `replies`, in
/// order: the first reply that stops it decides, and where none does, the
/// block fails exactly if one of its addresses did not decode.
pub open spec fn block_outcome(
    failure: Option<RuntimeError>,
    replies: Seq<Result<Response, RuntimeError>>,
) -> Result<(), RuntimeError>
    decreases replies.len(),
{
    if replies.len() == 0 {
        match failure {
            Some(failure) => Err(failure),
            None => Ok(()),
        }
    } else {
        match fire_and_forget_outcome(replies.first()) {
            Ok(_) => block_outcome(failure, replies.drop_first()),
            Err(failure) => Err(failure),
        }
    }
}

/// What is dispatched for a request: the event with the parameters' text, to
/// the one target of the worker and method.
pub open spec fn request_delivery(
    routes: Routes,
    worker: Seq<char>,
    method: Seq<char>,
    params: Seq<u8>,
) -> Result<DeliveryView, RuntimeError> {
    match request_target(routes, worker, method) {
        Ok(target) => Ok(DeliveryView { target, event: EventView::Request(params) }),
        Err(failure) => Err(failure),
    }
}

/// What the caller of a request gets for a reply: the JSON value that a
/// response stands for, `None` where its bytes are no JSON document, and
/// every failure unchanged.
pub open spec fn request_outcome(reply: Result<Response, RuntimeError>) -> Result<
    Option<serde_json::Value>,
    RuntimeError,
> {
    match reply {
        Ok(response) => Ok(parsed_json(reply_text(response@))),
        Err(failure) => Err(failure),
    }
}

/// A request's delivery with its parts taken by value.
pub open spec fn delivery_view(found: Result<Delivery, RuntimeError>) -> Result<
    DeliveryView,
    RuntimeError,
> {
    match found {
        Ok(delivery) => Ok(delivery@),
        Err(failure) => Err(failure),
    }
}

/// Whether a reply lets the block go on: any response does, and so does a
/// failure that the component reported itself.
pub open spec fn goes_on(reply: Result<Response, RuntimeError>) -> bool {
    fire_and_forget_outcome(reply) is Ok
}

/// A block fails on an address exactly if one of its outputs has an address
/// that does not decode. No such output is passed over.
pub proof fn law_block_fails_exactly_on_bad_address(
    routes: Routes,
    outputs: Seq<TxOutputView>,
    plans: Seq<OutputPlanView>,
    failure: Option<RuntimeError>,
)
    requires
        plans_block(routes, outputs, plans, failure),
    ensures
        failure is Some <==> exists|i: int|
            0 <= i < outputs.len() && decoded_address(#[trigger] outputs[i].address) is Err,
        failure matches Some(failure) ==> failure is BadAddress,
{
    if failure is Some {
        assert(decoded_address(outputs[plans.len() as int].address) is Err);
    } else {
        assert forall|i: int| 0 <= i < outputs.len() implies !(decoded_address(
            #[trigger] outputs[i].address,
        ) is Err) by {
            assert(plans_output(routes, outputs[i], plans[i]));
        }
    }
}

/// A block of one transaction with one output, sent to an address that one
/// channel subscribed to, has exactly one delivery: the output's event to that
/// channel. Answered by an acknowledgement, the block succeeds.
pub proof fn law_single_output_single_delivery(
    routes: Routes,
    output: TxOutputView,
    address: Seq<u8>,
    target: TargetView,
    plans: Seq<OutputPlanView>,
    failure: Option<RuntimeError>,
)
    requires
        decoded_address(output.address) == Ok::<Seq<u8>, pallas::ledger::addresses::Error>(
            address,
        ),
        utxo_targets(routes, address) == Set::<TargetView>::empty().insert(target),
        plans_block(routes, seq![seq![output]].flatten(), plans, failure),
    ensures
        failure is None,
        block_deliveries(plans) == seq![
            DeliveryView { target, event: EventView::Utxo(output.encoded) },
        ],
        block_outcome(failure, seq![Ok(Response::Acknowledge)]) == Ok::<(), RuntimeError>(()),
{
    let block = seq![seq![output]];
    block.lemma_flatten_one_element();
    assert(block.flatten() == seq![output]);
    assert(block.flatten()[0] == output);
    assert(plans.len() == 1);
    let plan = plans[0];
    assert(plans_output(routes, output, plan));
    let targets = plan.targets;
    targets.unique_seq_to_set();
    assert(Set::<TargetView>::empty().insert(target).len() == 1);
    assert(targets.len() == 1);
    assert(targets.to_set().contains(targets[0]));
    assert(targets =~= seq![target]);
    let groups = plans.map_values(|plan: OutputPlanView| output_deliveries(plan));
    groups.lemma_flatten_one_element();
    assert(groups.first() =~= seq![
        DeliveryView { target, event: EventView::Utxo(output.encoded) },
    ]);
    let replies = seq![Ok::<Response, RuntimeError>(Response::Acknowledge)];
    assert(replies.drop_first() =~= Seq::<Result<Response, RuntimeError>>::empty());
    reveal_with_fuel(block_outcome, 2);
}

/// Replies that let the block go on do not decide it: a component's own
/// failure towards one target stops neither the deliveries to the others nor
/// the block.
pub proof fn law_component_failures_do_not_stop(
    failure: Option<RuntimeError>,
    replies: Seq<Result<Response, RuntimeError>>,
)
    requires
        forall|i: int| 0 <= i < replies.len() ==> goes_on(#[trigger] replies[i]),
    ensures
        block_outcome(failure, replies) == block_outcome(failure, Seq::empty()),
    decreases replies.len(),
{
    if replies.len() > 0 {
        assert(goes_on(replies[0]));
        let rest = replies.drop_first();
        assert forall|i: int| 0 <= i < rest.len() implies goes_on(#[trigger] rest[i]) by {
            assert(rest[i] == replies[i + 1]);
        }
        law_component_failures_do_not_stop(failure, rest);
    }
}

/// The first reply that does not let the block go on ends it with its own
/// failure, whatever comes behind it.
pub proof fn law_first_host_failure_stops(
    failure: Option<RuntimeError>,
    replies: Seq<Result<Response, RuntimeError>>,
    at: int,
)
    requires
        0 <= at < replies.len(),
        forall|i: int| 0 <= i < at ==> goes_on(#[trigger] replies[i]),
        !goes_on(replies[at]),
    ensures
        block_outcome(failure, replies) == Err::<(), RuntimeError>(replies[at]->Err_0),
    decreases at,
{
    if at > 0 {
        assert(goes_on(replies[0]));
        let rest = replies.drop_first();
        assert forall|i: int| 0 <= i < at - 1 implies goes_on(#[trigger] rest[i]) by {
            assert(rest[i] == replies[i + 1]);
        }
        assert(rest[at - 1] == replies[at]);
        law_first_host_failure_stops(failure, rest, at - 1);
    }
}

/// A block with an address that does not decode fails with that, once the
/// deliveries before it went through.
pub proof fn law_bad_address_fails_block(
    failure: RuntimeError,
    replies: Seq<Result<Response, RuntimeError>>,
)
    requires
        forall|i: int| 0 <= i < replies.len() ==> goes_on(#[trigger] replies[i]),
    ensures
        block_outcome(Some(failure), replies) == Err::<(), RuntimeError>(failure),
{
    law_component_failures_do_not_stop(Some(failure), replies);
}

/// The first `k` groups are a prefix of all, and group `k` follows them.
proof fn lemma_flatten_split<A>(parts: Seq<Seq<A>>, k: int)
    requires
        0 <= k < parts.len(),
    ensures
        parts.flatten() == parts.take(k).flatten() + parts[k] + parts.skip(k + 1).flatten(),
        parts.take(k + 1).flatten() == parts.take(k).flatten() + parts[k],
{
    let head = parts.take(k);
    let tail = parts.skip(k + 1);
    assert(parts =~= head.push(parts[k]) + tail);
    assert(parts.take(k + 1) =~= head.push(parts[k]));
    head.lemma_flatten_push(parts[k]);
    vstd::seq_lib::lemma_flatten_concat(head.push(parts[k]), tail);
}

/// All groups taken are all groups.
proof fn lemma_flatten_all<A>(parts: Seq<Seq<A>>)
    ensures
        parts.take(parts.len() as int).flatten() == parts.flatten(),
        parts.take(0).flatten() == Seq::<A>::empty(),
{
    assert(parts.take(parts.len() as int) =~= parts);
    assert(parts.take(0) =~= Seq::<Seq<A>>::empty());
}

/// The progress of one block through its deliveries.
#[derive(Debug)]
pub struct BlockRun {
    plans: Vec<OutputPlan>,
    failure: Option<RuntimeError>,
    output: usize,
    target: usize,
}

/// The plans by value.
spec fn plan_views(plans: Seq<OutputPlan>) -> Seq<OutputPlanView> {
    plans.map_values(|plan: OutputPlan| plan@)
}

/// The deliveries of each output.
spec fn delivery_groups(plans: Seq<OutputPlan>) -> Seq<Seq<DeliveryView>> {
    plan_views(plans).map_values(|plan: OutputPlanView| output_deliveries(plan))
}

impl BlockRun {
    /// Whether the run stands at a delivery, or behind the last one.
    pub closed spec fn wf(&self) -> bool {
        &&& self.output <= self.plans.len()
        &&& self.output < self.plans.len() ==> self.target < self.plans[self.output as int].targets.len()
        &&& self.output == self.plans.len() ==> self.target == 0
    }

    /// The plan of each output that is delivered, in the block's order.
    pub closed spec fn plans(&self) -> Seq<OutputPlanView> {
        plan_views(self.plans@)
    }

    /// The failure that ends the block once all deliveries are answered:
    /// the first address that did not decode, if there is one.
    pub closed spec fn failure(&self) -> Option<RuntimeError> {
        self.failure
    }

    /// All deliveries of the block, in the order in which they are made.
    pub open spec fn deliveries(&self) -> Seq<DeliveryView> {
        block_deliveries(self.plans())
    }

    /// How many deliveries were answered so far.
    pub closed spec fn answered(&self) -> nat {
        (delivery_groups(self.plans@).take(self.output as int).flatten().len()
            + self.target) as nat
    }

    /// Where the run stands at a delivery, it is the one after those answered.
    proof fn lemma_position(&self)
        requires
            self.wf(),
        ensures
            self.output < self.plans.len() ==> {
                &&& self.answered() < self.deliveries().len()
                &&& self.deliveries()[self.answered() as int] == (DeliveryView {
                    target: self.plans[self.output as int].targets[self.target as int]@,
                    event: self.plans[self.output as int].event@,
                })
            },
            self.output == self.plans.len() ==> self.answered() == self.deliveries().len(),
    {
        let groups = delivery_groups(self.plans@);
        if self.output < self.plans.len() {
            lemma_flatten_split(groups, self.output as int);
        } else {
            lemma_flatten_all(groups);
        }
    }

    /// Moves past outputs that nobody wants.
    fn skip_unwanted(&mut self)
        requires
            old(self).output <= old(self).plans.len(),
            old(self).target == 0,
        ensures
            final(self).wf(),
            final(self).plans == old(self).plans,
            final(self).failure == old(self).failure,
            final(self).answered() == old(self).answered(),
    {
        while self.output < self.plans.len() && self.plans[self.output].targets.len() == 0
            invariant
                self.output <= self.plans.len(),
                self.target == 0,
                self.plans == old(self).plans,
                self.failure == old(self).failure,
                self.answered() == old(self).answered(),
            decreases self.plans.len() - self.output,
        {
            proof {
                lemma_flatten_split(delivery_groups(self.plans@), self.output as int);
            }
            self.output += 1;
        }
    }

    /// The delivery to make next: `None` once every delivery was answered.
    pub fn pending(&self) -> (next: Option<(&Target, &Event)>)
        requires
            self.wf(),
        ensures
            match next {
                Some((target, event)) => {
                    &&& self.answered() < self.deliveries().len()
                    &&& self.deliveries()[self.answered() as int] == (DeliveryView {
                        target: target@,
                        event: event@,
                    })
                },
                None => self.answered() == self.deliveries().len(),
            },
    {
        proof {
            self.lemma_position();
        }
        if self.output < self.plans.len() {
            let plan = &self.plans[self.output];
            Some((&plan.targets[self.target], &plan.event))
        } else {
            None
        }
    }

    /// Takes the reply to the pending delivery and decides how the block
    /// goes on. On `Ok` the run comes back and stands at the next delivery. On
    /// `Err` the block is over with that failure.
    pub fn fire_and_forget(self, reply: Result<Response, RuntimeError>) -> (outcome: Result<
        BlockRun,
        RuntimeError,
    >)
        requires
            self.wf(),
            self.answered() < self.deliveries().len(),
        ensures
            match outcome {
                Ok(next) => {
                    &&& fire_and_forget_outcome(reply) is Ok
                    &&& next.wf()
                    &&& next.plans() == self.plans()
                    &&& next.failure() == self.failure()
                    &&& next.answered() == self.answered() + 1
                },
                Err(failure) => fire_and_forget_outcome(reply) == Err::<(), RuntimeError>(failure),
            },
    {
        match reply {
            Ok(_) => {},
            Err(RuntimeError::Handle(_, _)) => {},
            Err(failure) => {
                return Err(failure);
            },
        }
        proof {
            self.lemma_position();
            lemma_flatten_split(delivery_groups(self.plans@), self.output as int);
        }
        let mut next = self;
        if next.target + 1 < next.plans[next.output].targets.len() {
            next.target += 1;
        } else {
            next.output += 1;
            next.target = 0;
            next.skip_unwanted();
        }
        Ok(next)
    }

    /// Ends a run whose deliveries were all answered: the block fails exactly
    /// if one of its addresses did not decode.
    pub fn finish(self) -> (outcome: Result<(), RuntimeError>)
        requires
            self.wf(),
            self.answered() == self.deliveries().len(),
        ensures
            outcome == block_outcome(self.failure(), Seq::empty()),
    {
        match self.failure {
            Some(failure) => Err(failure),
            None => Ok(()),
        }
    }
}

/// The host's runtime: the router and the decisions around it.
pub struct Runtime {
    router: Router,
}

impl View for Runtime {
    type V = Routes;

    closed spec fn view(&self) -> Routes {
        self.router@
    }
}

impl Runtime {
    /// Whether the runtime's router is sound. Every runtime that this module
    /// hands out is.
    pub closed spec fn wf(&self) -> bool {
        self.router.wf()
    }

    /// A runtime with no routes.
    pub fn new() -> (runtime: Runtime)
        ensures
            runtime.wf(),
            runtime@ == Map::<MatchKeyView, Set<TargetView>>::empty(),
    {
        Runtime { router: Router::new() }
    }

    /// The runtime's router.
    pub fn router(&self) -> (router: &Router)
        ensures
            router@ == self@,
            self.wf() ==> router.wf(),
    {
        &self.router
    }

    /// Registers a channel with the runtime's router. A component calls back
    /// into this while it is initialised.
    pub fn register_channel(&mut self, worker: &str, channel: u32, pattern: &EventPattern)
        requires
            old(self).wf(),
            pattern.is_supported(),
        ensures
            final(self).wf(),
            final(self)@ == registered(old(self)@, worker@, channel, pattern@),
    {
        self.router.register_channel(worker, channel, pattern);
    }

    /// Hands on what the store says of the lowest sequence number from which
    /// blocks can be taken up again.
    pub fn cursor(&self, lowest: Result<Option<LogSeq>, RuntimeError>) -> (cursor: Result<
        Option<LogSeq>,
        RuntimeError,
    >)
        ensures
            cursor == lowest,
    {
        lowest
    }

    /// Plans the deliveries of a block: for each output of each transaction,
    /// in their order, a `Utxo` event with the output's encoding to every
    /// channel registered for the output's address. The first address that
    /// does not decode ends the plan and fails the block.
    pub fn apply_block(&self, block: &Block, wal_seq: LogSeq) -> (run: BlockRun)
        requires
            self.wf(),
        ensures
            run.wf(),
            run.answered() == 0,
            plans_block(self@, block@.flatten(), run.plans(), run.failure()),
    {
        let ghost outputs = block@.flatten();
        let mut plans: Vec<OutputPlan> = Vec::new();
        let mut failure: Option<RuntimeError> = None;
        let mut t: usize = 0;
        proof {
            lemma_flatten_all(block@);
        }
        while t < block.txs.len() && failure.is_none()
            invariant
                self.wf(),
                t <= block.txs.len(),
                outputs == block@.flatten(),
                failure is None ==> {
                    &&& plans.len() == block@.take(t as int).flatten().len()
                    &&& forall|i: int|
                        0 <= i < plans.len() ==> plans_output(
                            self@,
                            block@.take(t as int).flatten()[i],
                            #[trigger] plan_views(plans@)[i],
                        )
                },
                failure is Some ==> plans_block(self@, outputs, plan_views(plans@), failure),
            decreases block.txs.len() - t,
        {
            let tx = &block.txs[t];
            let ghost before = block@.take(t as int).flatten();
            let mut o: usize = 0;
            proof {
                lemma_flatten_split(block@, t as int);
                assert(tx@.take(0) =~= Seq::<TxOutputView>::empty());
                assert(before + tx@.take(0) =~= before);
            }
            while o < tx.outputs.len() && failure.is_none()
                invariant
                    self.wf(),
                    t < block.txs.len(),
                    o <= tx.outputs.len(),
                    tx == block.txs[t as int],
                    outputs == block@.flatten(),
                    before == block@.take(t as int).flatten(),
                    outputs == before + tx@ + block@.skip(t + 1).flatten(),
                    failure is None ==> {
                        &&& plans.len() == before.len() + o
                        &&& forall|i: int|
                            0 <= i < plans.len() ==> plans_output(
                                self@,
                                (before + tx@.take(o as int))[i],
                                #[trigger] plan_views(plans@)[i],
                            )
                    },
                    failure is Some ==> plans_block(self@, outputs, plan_views(plans@), failure),
                decreases tx.outputs.len() - o,
            {
                let output = &tx.outputs[o];
                let ghost done = before + tx@.take(o as int);
                let ghost planned = plan_views(plans@);
                proof {
                    assert(tx@[o as int] == output@);
                    assert(outputs[before.len() + o] == output@);
                    assert forall|i: int| 0 <= i < done.len() implies done[i] == outputs[i] by {}
                }
                match self.router.find_utxo_targets(output) {
                    Ok(targets) => {
                        let plan = OutputPlan {
                            event: Event::Utxo(copy_bytes(&output.encoded)),
                            targets,
                        };
                        plans.push(plan);
                        proof {
                            let next = before + tx@.take(o + 1);
                            assert(tx@.take(o + 1) =~= tx@.take(o as int).push(output@));
                            assert(next =~= done.push(output@));
                            assert(plan_views(plans@) =~= planned.push(plan@));
                            assert forall|i: int| 0 <= i < plans.len() implies plans_output(
                                self@,
                                next[i],
                                #[trigger] plan_views(plans@)[i],
                            ) by {
                                if i < planned.len() {
                                    assert(plans_output(self@, done[i], planned[i]));
                                }
                            }
                        }
                    },
                    Err(found) => {
                        failure = Some(found);
                        proof {
                            assert forall|i: int| 0 <= i < planned.len() implies plans_output(
                                self@,
                                outputs[i],
                                #[trigger] planned[i],
                            ) by {
                                assert(plans_output(self@, done[i], planned[i]));
                            }
                        }
                    },
                }
                o += 1;
            }
            proof {
                assert(tx@.take(tx.outputs.len() as int) =~= tx@);
                assert(block@[t as int] == tx@);
            }
            t += 1;
        }
        let mut run = BlockRun { plans, failure, output: 0, target: 0 };
        proof {
            assert(block@.take(block.txs.len() as int) =~= block@);
            assert(delivery_groups(run.plans@).take(0) =~= Seq::<Seq<DeliveryView>>::empty());
            assert(run.answered() == 0);
        }
        run.skip_unwanted();
        run
    }

    /// Takes a block back. Nothing is delivered for it.
    pub fn undo_block(&self, block: &Block, wal_seq: LogSeq) -> (outcome: Result<(), RuntimeError>)
        ensures
            outcome is Ok,
    {
        Ok(())
    }

    /// Resolves the one channel that answers requests to `worker` for
    /// `method` and builds the event to dispatch to it, which carries the
    /// parameters as JSON text.
    pub fn handle_request(&self, worker: &str, method: &str, params: serde_json::Value) -> (found:
        Result<Delivery, RuntimeError>)
        requires
            self.wf(),
        ensures
            delivery_view(found) == request_delivery(self@, worker@, method@, json_text(params)),
    {
        let target = match self.router.find_request_target(worker, method) {
            Ok(target) => target,
            Err(failure) => {
                return Err(failure);
            },
        };
        let event = Event::Request(write_json(&params));
        Ok(Delivery { target, event })
    }
}

/// Takes the reply to a request and says what its caller gets: the JSON value
/// that a response stands for, and every failure as it came.
pub fn request_response(reply: Result<Response, RuntimeError>) -> (outcome: Result<
    Option<serde_json::Value>,
    RuntimeError,
>)
    ensures
        outcome == request_outcome(reply),
{
    match reply {
        Ok(response) => Ok(reply_to_json(&response)),
        Err(failure) => Err(failure),
    }
}

} // verus!
