//! What a router holds, as mathematics: the routes, what a registration
//! does to them, what the lookups find in them, and the laws that follow.

use vstd::prelude::*;

use crate::error::RuntimeError;
use crate::protocol::PatternView;

verus! {

/// The mathematical value of a [`crate::router::MatchKey`].
pub enum MatchKeyView {
    RequestMethod(Seq<char>, Seq<char>),
    UtxoAddress(Seq<u8>),
}

/// The mathematical value of a [`crate::router::Target`].
pub struct TargetView {
    pub channel: u32,
    pub worker: Seq<char>,
}

/// The mathematical value of a [`crate::router::Router`]: for each key, the set of targets
/// registered under it. Sets have no order and hold nothing twice.
pub type Routes = Map<MatchKeyView, Set<TargetView>>;

/// The targets registered under `key`, none where the key is unknown.
pub open spec fn targets_at(routes: Routes, key: MatchKeyView) -> Set<TargetView> {
    if routes.contains_key(key) {
        routes[key]
    } else {
        Set::empty()
    }
}

/// The routes after `target` was put under `key`.
pub open spec fn with_target(routes: Routes, key: MatchKeyView, target: TargetView) -> Routes {
    routes.insert(key, targets_at(routes, key).insert(target))
}

/// The routes after `target` was put under each of `keys`, first to last.
pub open spec fn with_targets(routes: Routes, keys: Seq<MatchKeyView>, target: TargetView) -> Routes
    decreases keys.len(),
{
    if keys.len() == 0 {
        routes
    } else {
        with_target(with_targets(routes, keys.drop_last(), target), keys.last(), target)
    }
}

/// The keys under which a channel with this pattern is indexed. A request
/// pattern gives one key, made of the worker and the method. An exact-address
/// pattern gives one key, the address.
pub open spec fn match_keys(worker: Seq<char>, pattern: PatternView) -> Seq<MatchKeyView> {
    match pattern {
        PatternView::Request(method) => seq![MatchKeyView::RequestMethod(worker, method)],
        PatternView::UtxoAddress(address) => seq![MatchKeyView::UtxoAddress(address)],
        PatternView::Unsupported => Seq::empty(),
    }
}

/// The routes after the channel was registered.
pub open spec fn registered(
    routes: Routes,
    worker: Seq<char>,
    channel: u32,
    pattern: PatternView,
) -> Routes {
    with_targets(routes, match_keys(worker, pattern), TargetView { channel, worker })
}

/// One registration: a channel of a worker and the pattern it wants.
pub struct Registration {
    pub worker: Seq<char>,
    pub channel: u32,
    pub pattern: PatternView,
}

impl Registration {
    /// The target that the registration adds.
    pub open spec fn target(self) -> TargetView {
        TargetView { channel: self.channel, worker: self.worker }
    }

    /// Whether the registration puts its target under `key`.
    pub open spec fn reaches(self, key: MatchKeyView) -> bool {
        match_keys(self.worker, self.pattern).contains(key)
    }
}

/// The routes after each of the registrations was made, first to last.
pub open spec fn registered_all(routes: Routes, registrations: Seq<Registration>) -> Routes
    decreases registrations.len(),
{
    if registrations.len() == 0 {
        routes
    } else {
        let last = registrations.last();
        registered(
            registered_all(routes, registrations.drop_last()),
            last.worker,
            last.channel,
            last.pattern,
        )
    }
}

/// The one target of a request: `NoTarget` where none is registered for the
/// worker and method, `AmbiguousTarget` where more than one is.
pub open spec fn request_target(routes: Routes, worker: Seq<char>, method: Seq<char>) -> Result<
    TargetView,
    RuntimeError,
> {
    let targets = targets_at(routes, MatchKeyView::RequestMethod(worker, method));
    if forall|target: TargetView| !targets.contains(target) {
        Err(RuntimeError::NoTarget)
    } else if forall|one: TargetView, other: TargetView|
        targets.contains(one) && targets.contains(other) ==> one == other {
        Ok(targets.choose())
    } else {
        Err(RuntimeError::AmbiguousTarget)
    }
}

/// The targets of an output sent to the address with these canonical bytes.
pub open spec fn utxo_targets(routes: Routes, address: Seq<u8>) -> Set<TargetView> {
    targets_at(routes, MatchKeyView::UtxoAddress(address))
}

/// A channel registered for requests is the one that a lookup for its worker
/// and method finds, where no other channel was registered for them before.
pub proof fn law_registered_request_is_found(
    routes: Routes,
    worker: Seq<char>,
    channel: u32,
    method: Seq<char>,
)
    requires
        forall|other: TargetView|
            targets_at(routes, MatchKeyView::RequestMethod(worker, method)).contains(other)
                ==> other == (TargetView { channel, worker }),
    ensures
        request_target(
            registered(routes, worker, channel, PatternView::Request(method)),
            worker,
            method,
        ) == Ok::<TargetView, RuntimeError>(TargetView { channel, worker }),
{
    let key = MatchKeyView::RequestMethod(worker, method);
    let target = TargetView { channel, worker };
    lemma_registered_one_key(routes, key, target);
    let after = registered(routes, worker, channel, PatternView::Request(method));
    let targets = targets_at(after, key);
    assert(targets.contains(target));
    assert(forall|one: TargetView| targets.contains(one) ==> one == target);
    assert(targets.contains(targets.choose()));
}

/// Two different channels registered for the same worker and method make the
/// lookup ambiguous, whatever was registered before.
pub proof fn law_two_channels_are_ambiguous(
    routes: Routes,
    worker: Seq<char>,
    first: u32,
    second: u32,
    method: Seq<char>,
)
    requires
        first != second,
    ensures
        request_target(
            registered(
                registered(routes, worker, first, PatternView::Request(method)),
                worker,
                second,
                PatternView::Request(method),
            ),
            worker,
            method,
        ) == Err::<TargetView, RuntimeError>(RuntimeError::AmbiguousTarget),
{
    let key = MatchKeyView::RequestMethod(worker, method);
    let one = TargetView { channel: first, worker };
    let other = TargetView { channel: second, worker };
    let once = registered(routes, worker, first, PatternView::Request(method));
    lemma_registered_one_key(routes, key, one);
    lemma_registered_one_key(once, key, other);
    let twice = registered(once, worker, second, PatternView::Request(method));
    let targets = targets_at(twice, key);
    assert(targets.contains(one));
    assert(targets.contains(other));
    assert(one != other);
}

/// To register the same channel with the same pattern again changes nothing.
pub proof fn law_registration_is_idempotent(
    routes: Routes,
    worker: Seq<char>,
    channel: u32,
    pattern: PatternView,
)
    ensures
        registered(registered(routes, worker, channel, pattern), worker, channel, pattern)
            == registered(routes, worker, channel, pattern),
{
    let target = TargetView { channel, worker };
    let keys = match_keys(worker, pattern);
    if keys.len() == 1 {
        let key = keys[0];
        assert(keys =~= seq![key]);
        lemma_registered_one_key(routes, key, target);
        let once = with_target(routes, key, target);
        lemma_registered_one_key(once, key, target);
        assert(targets_at(once, key).insert(target) =~= targets_at(once, key));
        assert(with_target(once, key, target) =~= once);
    } else {
        assert(keys =~= Seq::<MatchKeyView>::empty());
    }
}

/// To register a channel twice puts its target once under each of its keys.
pub proof fn law_registering_twice_adds_one_target(
    routes: Routes,
    worker: Seq<char>,
    channel: u32,
    pattern: PatternView,
    key: MatchKeyView,
)
    requires
        match_keys(worker, pattern).contains(key),
    ensures
        targets_at(
            registered(registered(routes, worker, channel, pattern), worker, channel, pattern),
            key,
        ) == targets_at(routes, key).insert(TargetView { channel, worker }),
{
    law_registration_is_idempotent(routes, worker, channel, pattern);
    law_registration_adds_target(routes, worker, channel, pattern, key);
}

/// A registration leaves the targets under every other key as they were.
pub proof fn law_registration_keeps_other_routes(
    routes: Routes,
    worker: Seq<char>,
    channel: u32,
    pattern: PatternView,
    key: MatchKeyView,
)
    requires
        !match_keys(worker, pattern).contains(key),
    ensures
        targets_at(registered(routes, worker, channel, pattern), key) == targets_at(routes, key),
{
    let target = TargetView { channel, worker };
    let keys = match_keys(worker, pattern);
    if keys.len() == 1 {
        assert(keys =~= seq![keys[0]]);
        assert(keys.contains(keys[0]));
        lemma_registered_one_key(routes, keys[0], target);
    } else {
        assert(keys =~= Seq::<MatchKeyView>::empty());
    }
}

/// A registration adds its target under each of its keys and keeps those
/// that were there.
pub proof fn law_registration_adds_target(
    routes: Routes,
    worker: Seq<char>,
    channel: u32,
    pattern: PatternView,
    key: MatchKeyView,
)
    requires
        match_keys(worker, pattern).contains(key),
    ensures
        targets_at(registered(routes, worker, channel, pattern), key) == targets_at(
            routes,
            key,
        ).insert(TargetView { channel, worker }),
{
    let target = TargetView { channel, worker };
    let keys = match_keys(worker, pattern);
    assert(keys.len() == 1);
    assert(keys =~= seq![keys[0]]);
    lemma_registered_one_key(routes, keys[0], target);
}

/// What a router holds under a key is what was registered under it, no more
/// and no less: every target there was put there by a registration, and no
/// registration is ever lost.
pub proof fn law_targets_are_those_registered(
    registrations: Seq<Registration>,
    key: MatchKeyView,
    target: TargetView,
)
    ensures
        targets_at(registered_all(Map::empty(), registrations), key).contains(target)
            <==> exists|i: int|
            0 <= i < registrations.len() && (#[trigger] registrations[i]).reaches(key)
                && registrations[i].target() == target,
    decreases registrations.len(),
{
    let routes = registered_all(Map::empty(), registrations);
    if registrations.len() > 0 {
        let last = registrations.last();
        let earlier = registrations.drop_last();
        let before = registered_all(Map::empty(), earlier);
        law_targets_are_those_registered(earlier, key, target);
        if last.reaches(key) {
            law_registration_adds_target(before, last.worker, last.channel, last.pattern, key);
        } else {
            law_registration_keeps_other_routes(
                before,
                last.worker,
                last.channel,
                last.pattern,
                key,
            );
        }
        if targets_at(routes, key).contains(target) {
            if last.reaches(key) && last.target() == target {
                assert(registrations[registrations.len() - 1] == last);
            } else {
                let i = choose|i: int|
                    0 <= i < earlier.len() && (#[trigger] earlier[i]).reaches(key) && earlier[i].target()
                        == target;
                assert(registrations[i] == earlier[i]);
            }
        }
        if exists|i: int|
            0 <= i < registrations.len() && (#[trigger] registrations[i]).reaches(key)
                && registrations[i].target() == target {
            let i = choose|i: int|
                0 <= i < registrations.len() && (#[trigger] registrations[i]).reaches(key)
                    && registrations[i].target() == target;
            if i < earlier.len() {
                assert(earlier[i] == registrations[i]);
            }
        }
    }
}

/// A lookup for a worker and method for which no channel was ever registered
/// finds no target.
pub proof fn law_unregistered_request_has_no_target(
    registrations: Seq<Registration>,
    worker: Seq<char>,
    method: Seq<char>,
)
    requires
        forall|i: int|
            0 <= i < registrations.len() ==> !((#[trigger] registrations[i]).worker == worker
                && registrations[i].pattern == PatternView::Request(method)),
    ensures
        request_target(registered_all(Map::empty(), registrations), worker, method) == Err::<
            TargetView,
            RuntimeError,
        >(RuntimeError::NoTarget),
{
    let key = MatchKeyView::RequestMethod(worker, method);
    let routes = registered_all(Map::empty(), registrations);
    assert forall|target: TargetView| !targets_at(routes, key).contains(target) by {
        law_targets_are_those_registered(registrations, key, target);
        assert forall|i: int| 0 <= i < registrations.len() implies !(
        #[trigger] registrations[i]).reaches(key) by {
            lemma_keys_of_pattern(registrations[i].worker, registrations[i].pattern, key);
        }
    }
}

/// An output sent to an address that no channel ever subscribed to has no
/// targets.
pub proof fn law_unsubscribed_address_has_no_targets(
    registrations: Seq<Registration>,
    address: Seq<u8>,
)
    requires
        forall|i: int|
            0 <= i < registrations.len() ==> (#[trigger] registrations[i]).pattern
                != PatternView::UtxoAddress(address),
    ensures
        utxo_targets(registered_all(Map::empty(), registrations), address) == Set::<
            TargetView,
        >::empty(),
{
    let key = MatchKeyView::UtxoAddress(address);
    let routes = registered_all(Map::empty(), registrations);
    assert forall|target: TargetView| !targets_at(routes, key).contains(target) by {
        law_targets_are_those_registered(registrations, key, target);
        assert forall|i: int| 0 <= i < registrations.len() implies !(
        #[trigger] registrations[i]).reaches(key) by {
            lemma_keys_of_pattern(registrations[i].worker, registrations[i].pattern, key);
        }
    }
    assert(utxo_targets(routes, address) =~= Set::<TargetView>::empty());
}

/// A pattern reaches a key exactly if it is the pattern for that key.
proof fn lemma_keys_of_pattern(worker: Seq<char>, pattern: PatternView, key: MatchKeyView)
    ensures
        match_keys(worker, pattern).contains(key) <==> match key {
            MatchKeyView::RequestMethod(of, method) => of == worker && pattern
                == PatternView::Request(method),
            MatchKeyView::UtxoAddress(address) => pattern == PatternView::UtxoAddress(address),
        },
{
    let keys = match_keys(worker, pattern);
    if keys.len() == 1 {
        assert(keys[0] == keys[0]);
        assert(keys.contains(keys[0]));
        if keys.contains(key) {
            let i = choose|i: int| 0 <= i < keys.len() && keys[i] == key;
            assert(i == 0);
        }
    }
}

/// With one key, the target goes under that key.
proof fn lemma_registered_one_key(routes: Routes, key: MatchKeyView, target: TargetView)
    ensures
        with_targets(routes, seq![key], target) == with_target(routes, key, target),
        targets_at(with_target(routes, key, target), key) == targets_at(routes, key).insert(
            target,
        ),
        forall|other: MatchKeyView|
            other != key ==> targets_at(with_target(routes, key, target), other) == targets_at(
                routes,
                other,
            ),
{
    let keys = seq![key];
    assert(keys.drop_last() =~= Seq::<MatchKeyView>::empty());
    assert(keys.last() == key);
    reveal_with_fuel(with_targets, 2);
    assert(with_targets(routes, keys.drop_last(), target) == routes);
}

} // verus!
