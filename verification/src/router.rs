//! The index from declared patterns to the channels that want the events.

use std::collections::HashMap;
use vstd::prelude::*;

use crate::error::RuntimeError;
use crate::ledger::{decode_address, decoded_address, TxOutput};
use crate::protocol::{copy_bytes, same_bytes, EventPattern, UtxoPattern};
use crate::routes::{
    match_keys, registered, request_target, targets_at, utxo_targets, with_target, with_targets,
    MatchKeyView, Routes, TargetView,
};

verus! {

/// The key under which channels are indexed.
pub enum MatchKey {
    /// Requests to one worker for one method.
    RequestMethod(String, String),
    /// Outputs sent to one address, in its canonical bytes.
    UtxoAddress(Vec<u8>),
}

/// Where an event is delivered: one channel of one worker.
#[derive(Clone, Debug, PartialEq, Eq, Hash)]
pub struct Target {
    pub channel: u32,
    pub worker: String,
}

impl View for MatchKey {
    type V = MatchKeyView;

    open spec fn view(&self) -> MatchKeyView {
        match *self {
            MatchKey::RequestMethod(worker, method) => MatchKeyView::RequestMethod(
                worker@,
                method@,
            ),
            MatchKey::UtxoAddress(address) => MatchKeyView::UtxoAddress(address@),
        }
    }
}

impl View for Target {
    type V = TargetView;

    open spec fn view(&self) -> TargetView {
        TargetView { channel: self.channel, worker: self.worker@ }
    }
}

/// The targets as a sequence of their values.
pub open spec fn target_views(targets: Seq<Target>) -> Seq<TargetView> {
    targets.map_values(|target: Target| target@)
}

/// A lookup result with its target taken by value.
pub open spec fn found_view(found: Result<Target, RuntimeError>) -> Result<
    TargetView,
    RuntimeError,
> {
    match found {
        Ok(target) => Ok(target@),
        Err(failure) => Err(failure),
    }
}

impl MatchKey {
    /// Tells whether two keys are the same key.
    pub fn same(&self, other: &MatchKey) -> (same: bool)
        ensures
            same == (self@ == other@),
    {
        match (self, other) {
            (MatchKey::RequestMethod(worker, method), MatchKey::RequestMethod(w, m)) => {
                *worker == *w && *method == *m
            },
            (MatchKey::UtxoAddress(address), MatchKey::UtxoAddress(a)) => same_bytes(address, a),
            _ => false,
        }
    }

    /// Copies the key.
    pub fn duplicate(&self) -> (copy: MatchKey)
        ensures
            copy@ == self@,
    {
        match self {
            MatchKey::RequestMethod(worker, method) => MatchKey::RequestMethod(
                worker.clone(),
                method.clone(),
            ),
            MatchKey::UtxoAddress(address) => MatchKey::UtxoAddress(copy_bytes(address)),
        }
    }
}

impl Target {
    /// Tells whether two targets are the same channel of the same worker.
    pub fn same(&self, other: &Target) -> (same: bool)
        ensures
            same == (self@ == other@),
    {
        self.channel == other.channel && self.worker == other.worker
    }

    /// Copies the target.
    pub fn duplicate(&self) -> (copy: Target)
        ensures
            copy@ == self@,
    {
        Target { channel: self.channel, worker: self.worker.clone() }
    }
}

/// Derives the keys under which a channel of `worker` with this pattern is
/// indexed.
pub fn infer_match_keys(worker: &str, pattern: &EventPattern) -> (keys: Vec<MatchKey>)
    requires
        pattern.is_supported(),
    ensures
        keys@.map_values(|key: MatchKey| key@) == match_keys(worker@, pattern@),
{
    let mut keys: Vec<MatchKey> = Vec::new();
    match pattern {
        EventPattern::Request(method) => {
            keys.push(MatchKey::RequestMethod(worker.to_owned(), method.clone()));
        },
        EventPattern::Utxo(UtxoPattern { address: Some(address), token: None }) => {
            keys.push(MatchKey::UtxoAddress(copy_bytes(address)));
        },
        _ => {},
    }
    assert(keys@.map_values(|key: MatchKey| key@) =~= match_keys(worker@, pattern@));
    keys
}

/// One entry of the index.
struct Route {
    key: MatchKey,
    targets: Vec<Target>,
}

/// The targets of one entry as a set.
spec fn route_targets(route: Route) -> Set<TargetView> {
    target_views(route.targets@).to_set()
}

/// Whether some entry has this key.
spec fn has_route(routes: Seq<Route>, key: MatchKeyView) -> bool {
    exists|i: int| 0 <= i < routes.len() && (#[trigger] routes[i]).key@ == key
}

/// The place of the entry with this key.
spec fn route_index(routes: Seq<Route>, key: MatchKeyView) -> int {
    choose|i: int| 0 <= i < routes.len() && (#[trigger] routes[i]).key@ == key
}

/// No two entries share a key, and no entry holds a target twice.
spec fn routes_distinct(routes: Seq<Route>) -> bool {
    &&& forall|i: int, j: int|
        0 <= i < j < routes.len() ==> (#[trigger] routes[i]).key@ != (#[trigger] routes[j]).key@
    &&& forall|i: int|
        0 <= i < routes.len() ==> target_views((#[trigger] routes[i]).targets@).no_duplicates()
}

/// Every entry's key has this hash.
spec fn routes_hashed(routes: Seq<Route>, hash: u64) -> bool {
    forall|i: int| 0 <= i < routes.len() ==> key_hash((#[trigger] routes[i]).key@) == hash
}

/// The entries as a map.
spec fn routes_view(routes: Seq<Route>) -> Routes {
    Map::new(
        |key: MatchKeyView| has_route(routes, key),
        |key: MatchKeyView| route_targets(routes[route_index(routes, key)]),
    )
}

/// The entries whose keys have this hash.
spec fn bucket_at(buckets: Map<u64, Vec<Route>>, hash: u64) -> Seq<Route> {
    if buckets.contains_key(hash) {
        buckets[hash]@
    } else {
        Seq::empty()
    }
}

/// Every bucket holds entries of its own hash, each key once, each target
/// once under its key.
spec fn buckets_sound(buckets: Map<u64, Vec<Route>>) -> bool {
    forall|hash: u64| #[trigger]
        buckets.contains_key(hash) ==> routes_distinct(buckets[hash]@) && routes_hashed(
            buckets[hash]@,
            hash,
        )
}

/// The buckets as a map: a key shows what its own bucket holds for it.
spec fn buckets_view(buckets: Map<u64, Vec<Route>>) -> Routes {
    Map::new(
        |key: MatchKeyView| routes_view(bucket_at(buckets, key_hash(key))).contains_key(key),
        |key: MatchKeyView| routes_view(bucket_at(buckets, key_hash(key)))[key],
    )
}

/// One step of the hash: the byte is folded into the hash, and the result
/// is multiplied by a prime, modulo 2^64.
spec fn hash_step(hash: u64, byte: u8) -> u64 {
    (((hash ^ (byte as u64)) as int * 0x100_0000_01b3) % 0x1_0000_0000_0000_0000) as u64
}

/// The hash after the bytes were folded in, first to last.
spec fn hash_bytes(hash: u64, bytes: Seq<u8>) -> u64
    decreases bytes.len(),
{
    if bytes.len() == 0 {
        hash
    } else {
        hash_step(hash_bytes(hash, bytes.drop_last()), bytes.last())
    }
}

/// The hash of a key. Keys of the two kinds start from different values, and
/// a byte that no text holds parts the worker from the method.
spec fn key_hash(key: MatchKeyView) -> u64 {
    match key {
        MatchKeyView::RequestMethod(worker, method) => hash_bytes(
            hash_step(hash_bytes(0xcbf2_9ce4_8422_2325, vstd::utf8::encode_utf8(worker)), 0xff),
            vstd::utf8::encode_utf8(method),
        ),
        MatchKeyView::UtxoAddress(address) => hash_bytes(0x8422_2325_cbf2_9ce4, address),
    }
}

/// Folds one byte into the hash.
fn fold_byte(hash: u64, byte: u8) -> (folded: u64)
    ensures
        folded == hash_step(hash, byte),
{
    let mixed: u64 = hash ^ (byte as u64);
    assert(mixed as int * 0x100_0000_01b3 <= 0xffff_ffff_ffff_ffff * 0x100_0000_01b3) by (nonlinear_arith)
        requires
            mixed <= 0xffff_ffff_ffff_ffff,
    ;
    let wide: u128 = (mixed as u128) * 0x100_0000_01b3u128;
    (wide % 0x1_0000_0000_0000_0000u128) as u64
}

/// Folds bytes into the hash, first to last.
fn fold_bytes(hash: u64, bytes: &[u8]) -> (folded: u64)
    ensures
        folded == hash_bytes(hash, bytes@),
{
    let mut folded: u64 = hash;
    let mut i: usize = 0;
    while i < bytes.len()
        invariant
            i <= bytes.len(),
            folded == hash_bytes(hash, bytes@.take(i as int)),
        decreases bytes.len() - i,
    {
        proof {
            assert(bytes@.take(i + 1).drop_last() == bytes@.take(i as int));
            assert(bytes@.take(i + 1).last() == bytes@[i as int]);
        }
        folded = fold_byte(folded, bytes[i]);
        i += 1;
    }
    assert(bytes@.take(bytes.len() as int) == bytes@);
    folded
}

/// Computes the hash of a key.
fn hash_key(key: &MatchKey) -> (hash: u64)
    ensures
        hash == key_hash(key@),
{
    match key {
        MatchKey::RequestMethod(worker, method) => {
            let hash = fold_bytes(0xcbf2_9ce4_8422_2325, worker.as_str().as_bytes());
            let hash = fold_byte(hash, 0xff);
            fold_bytes(hash, method.as_str().as_bytes())
        },
        MatchKey::UtxoAddress(address) => fold_bytes(0x8422_2325_cbf2_9ce4, address.as_slice()),
    }
}

/// The entry with a key is the one that the map shows for it.
proof fn lemma_route_found(routes: Seq<Route>, i: int)
    requires
        routes_distinct(routes),
        0 <= i < routes.len(),
    ensures
        routes_view(routes).contains_key(routes[i].key@),
        routes_view(routes)[routes[i].key@] == route_targets(routes[i]),
        targets_at(routes_view(routes), routes[i].key@) == route_targets(routes[i]),
{
    let key = routes[i].key@;
    assert(has_route(routes, key));
    let j = route_index(routes, key);
    assert(0 <= j < routes.len() && routes[j].key@ == key);
    if j < i {
        assert(routes[j].key@ != routes[i].key@);
    } else if i < j {
        assert(routes[i].key@ != routes[j].key@);
    }
    assert(j == i);
}

/// The router: which channels want which events. Keys are found by their
/// hash, so a lookup does not slow down as other keys are registered.
pub struct Router {
    buckets: HashMap<u64, Vec<Route>>,
}

impl View for Router {
    type V = Routes;

    closed spec fn view(&self) -> Routes {
        buckets_view(self.buckets@)
    }
}

impl Default for Router {
    fn default() -> (router: Router)
        ensures
            router.wf(),
            router@ == Map::<MatchKeyView, Set<TargetView>>::empty(),
    {
        Router::new()
    }
}

impl Router {
    /// Whether the index is sound: no key stands twice in it, and no target
    /// twice under one key. Every router that this module hands out is.
    pub closed spec fn wf(&self) -> bool {
        buckets_sound(self.buckets@)
    }

    /// A router with no routes.
    pub fn new() -> (router: Router)
        ensures
            router.wf(),
            router@ == Map::<MatchKeyView, Set<TargetView>>::empty(),
    {
        let router = Router { buckets: HashMap::new() };
        assert(router@ =~= Map::<MatchKeyView, Set<TargetView>>::empty());
        router
    }

    /// Puts `target` under `key`. A target that is there already stays once.
    fn insert(&mut self, key: &MatchKey, target: Target)
        requires
            old(self).wf(),
        ensures
            final(self).wf(),
            final(self)@ == with_target(old(self)@, key@, target@),
    {
        broadcast use vstd::std_specs::hash::group_hash_axioms;

        let hash = hash_key(key);
        let ghost before = self.buckets@;
        let mut bucket = match self.buckets.remove(&hash) {
            Some(bucket) => bucket,
            None => Vec::new(),
        };
        let ghost held = bucket@;
        assert(held == bucket_at(before, hash));
        insert_route(&mut bucket, key, target);
        let ghost holds = bucket@;
        self.buckets.insert(hash, bucket);
        proof {
            let after = self.buckets@;
            assert forall|other: u64| #[trigger] after.contains_key(other) implies routes_distinct(
                after[other]@,
            ) && routes_hashed(after[other]@, other) by {
                if other != hash {
                    assert(before.contains_key(other));
                }
            }
            let expected = with_target(buckets_view(before), key@, target@);
            assert forall|k: MatchKeyView| #[trigger]
                buckets_view(after).contains_key(k) == expected.contains_key(k) && (
                buckets_view(after).contains_key(k) ==> buckets_view(after)[k] == expected[k]) by {
                if key_hash(k) == hash {
                    assert(bucket_at(after, hash) == holds);
                    assert(bucket_at(before, hash) == held);
                } else {
                    assert(bucket_at(after, key_hash(k)) == bucket_at(before, key_hash(k)));
                    assert(k != key@);
                }
            }
            assert(buckets_view(after) =~= expected);
        }
    }

    /// Registers a channel of `worker` for the events that `pattern`
    /// describes. To register the same channel with the same pattern again
    /// changes nothing.
    pub fn register_channel(&mut self, worker: &str, channel: u32, pattern: &EventPattern)
        requires
            old(self).wf(),
            pattern.is_supported(),
        ensures
            final(self).wf(),
            final(self)@ == registered(old(self)@, worker@, channel, pattern@),
    {
        let keys = infer_match_keys(worker, pattern);
        let ghost key_views = keys@.map_values(|key: MatchKey| key@);
        let ghost target = TargetView { channel, worker: worker@ };
        let mut i: usize = 0;
        while i < keys.len()
            invariant
                i <= keys.len(),
                self.wf(),
                key_views == keys@.map_values(|key: MatchKey| key@),
                target == (TargetView { channel, worker: worker@ }),
                self@ == with_targets(old(self)@, key_views.take(i as int), target),
            decreases keys.len() - i,
        {
            self.insert(&keys[i], Target { worker: worker.to_owned(), channel });
            proof {
                assert(key_views.take(i + 1).drop_last() == key_views.take(i as int));
                assert(key_views.take(i + 1).last() == keys@[i as int]@);
            }
            i += 1;
        }
        proof {
            assert(key_views.take(keys.len() as int) == key_views);
        }
    }

    /// Finds the entry with this key.
    fn find(&self, key: &MatchKey) -> (found: Option<&Route>)
        requires
            self.wf(),
        ensures
            match found {
                Some(route) => {
                    &&& route.key@ == key@
                    &&& target_views(route.targets@).no_duplicates()
                    &&& targets_at(self@, key@) == route_targets(*route)
                },
                None => !self@.contains_key(key@),
            },
    {
        broadcast use vstd::std_specs::hash::group_hash_axioms;

        let hash = hash_key(key);
        let bucket = match self.buckets.get(&hash) {
            Some(bucket) => bucket,
            None => {
                assert(!has_route(bucket_at(self.buckets@, hash), key@));
                return None;
            },
        };
        assert(bucket@ == bucket_at(self.buckets@, hash));
        match find_route(bucket, key) {
            Some(i) => {
                proof {
                    lemma_route_found(bucket@, i as int);
                }
                Some(&bucket[i])
            },
            None => None,
        }
    }

    /// Finds the channels that want an output: those registered for the
    /// address it is sent to. Fails where the output's address bytes are no
    /// address.
    pub fn find_utxo_targets(&self, utxo: &TxOutput) -> (found: Result<Vec<Target>, RuntimeError>)
        requires
            self.wf(),
        ensures
            match found {
                Ok(targets) => {
                    &&& decoded_address(utxo.address@) matches Ok(address)
                    &&& target_views(targets@).no_duplicates()
                    &&& target_views(targets@).to_set() == utxo_targets(self@, address)
                },
                Err(failure) => {
                    &&& decoded_address(utxo.address@) matches Err(cause)
                    &&& failure == RuntimeError::BadAddress(cause)
                },
            },
    {
        let address = match decode_address(&utxo.address) {
            Ok(address) => address,
            Err(failure) => {
                return Err(RuntimeError::BadAddress(failure));
            },
        };
        let key = MatchKey::UtxoAddress(address);
        match self.find(&key) {
            Some(route) => Ok(copy_targets(&route.targets)),
            None => {
                let targets: Vec<Target> = Vec::new();
                assert(target_views(targets@).to_set() =~= Set::<TargetView>::empty());
                Ok(targets)
            },
        }
    }

    /// Finds the one channel that answers requests to `worker` for `method`.
    pub fn find_request_target(&self, worker: &str, method: &str) -> (found: Result<
        Target,
        RuntimeError,
    >)
        requires
            self.wf(),
        ensures
            found_view(found) == request_target(self@, worker@, method@),
    {
        let key = MatchKey::RequestMethod(worker.to_owned(), method.to_owned());
        let route = match self.find(&key) {
            Some(route) => route,
            None => {
                return Err(RuntimeError::NoTarget);
            },
        };
        let targets = &route.targets;
        let ghost views = target_views(targets@);
        proof {
            assert(forall|j: int| 0 <= j < views.len() ==> views.to_set().contains(views[j]));
        }
        if targets.len() == 0 {
            return Err(RuntimeError::NoTarget);
        }
        if targets.len() > 1 {
            proof {
                assert(views[0] != views[1]);
                assert(views.to_set().contains(views[0]));
                assert(views.to_set().contains(views[1]));
            }
            return Err(RuntimeError::AmbiguousTarget);
        }
        proof {
            let set = views.to_set();
            assert(set.contains(views[0]));
            assert(forall|one: TargetView| set.contains(one) ==> one == views[0]);
            assert(set.contains(set.choose()));
        }
        Ok(targets[0].duplicate())
    }
}

/// Finds the entry with this key among the entries of one bucket.
fn find_route(routes: &Vec<Route>, key: &MatchKey) -> (found: Option<usize>)
    ensures
        match found {
            Some(i) => i < routes.len() && routes[i as int].key@ == key@,
            None => !has_route(routes@, key@),
        },
{
    let mut i: usize = 0;
    while i < routes.len()
        invariant
            i <= routes.len(),
            forall|j: int| 0 <= j < i ==> (#[trigger] routes[j]).key@ != key@,
        decreases routes.len() - i,
    {
        if routes[i].key.same(key) {
            return Some(i);
        }
        i += 1;
    }
    None
}

/// Puts `target` under `key` among the entries of one bucket.
fn insert_route(routes: &mut Vec<Route>, key: &MatchKey, target: Target)
    requires
        routes_distinct(old(routes)@),
    ensures
        routes_distinct(final(routes)@),
        routes_view(final(routes)@) == with_target(routes_view(old(routes)@), key@, target@),
        forall|hash: u64|
            routes_hashed(old(routes)@, hash) && key_hash(key@) == hash ==> routes_hashed(
                final(routes)@,
                hash,
            ),
{
    let ghost before = routes@;
    match find_route(routes, key) {
        Some(i) => {
            proof {
                lemma_route_found(before, i as int);
            }
            if !holds_target(&routes[i].targets, &target) {
                routes[i].targets.push(target);
                proof {
                    let after = routes@;
                    assert(after.len() == before.len());
                    assert(forall|j: int|
                        0 <= j < after.len() && j != i ==> after[j] == before[j]);
                    assert(after[i as int].key == before[i as int].key);
                    assert(after[i as int].targets@ == before[i as int].targets@.push(target));
                    lemma_targets_pushed(before[i as int].targets@, target);
                    lemma_target_added(before, after, i as int, target@);
                }
            } else {
                proof {
                    assert(route_targets(before[i as int]).insert(target@) =~= route_targets(
                        before[i as int],
                    ));
                    assert(routes_view(before) =~= with_target(
                        routes_view(before),
                        key@,
                        target@,
                    ));
                }
            }
        },
        None => {
            let mut targets: Vec<Target> = Vec::new();
            targets.push(target);
            let route = Route { key: key.duplicate(), targets };
            routes.push(route);
            proof {
                let after = routes@;
                assert(target_views(route.targets@) =~= seq![target@]);
                lemma_route_added(before, after, target@);
            }
        },
    }
}

/// Tells whether `target` is among `targets`.
fn holds_target(targets: &Vec<Target>, target: &Target) -> (held: bool)
    ensures
        held == target_views(targets@).contains(target@),
{
    let mut i: usize = 0;
    while i < targets.len()
        invariant
            i <= targets.len(),
            forall|j: int| 0 <= j < i ==> target_views(targets@)[j] != target@,
        decreases targets.len() - i,
    {
        if targets[i].same(target) {
            assert(target_views(targets@)[i as int] == target@);
            return true;
        }
        i += 1;
    }
    false
}

/// Copies targets, in their order.
fn copy_targets(targets: &Vec<Target>) -> (copy: Vec<Target>)
    ensures
        target_views(copy@) == target_views(targets@),
{
    let mut copy: Vec<Target> = Vec::with_capacity(targets.len());
    let mut i: usize = 0;
    while i < targets.len()
        invariant
            i <= targets.len(),
            copy.len() == i,
            forall|j: int| 0 <= j < i ==> copy@[j]@ == targets@[j]@,
        decreases targets.len() - i,
    {
        copy.push(targets[i].duplicate());
        i += 1;
    }
    assert(target_views(copy@) =~= target_views(targets@));
    copy
}

/// A target that is pushed behind targets it is not among joins their set.
proof fn lemma_targets_pushed(targets: Seq<Target>, target: Target)
    requires
        target_views(targets).no_duplicates(),
        !target_views(targets).contains(target@),
    ensures
        target_views(targets.push(target)).no_duplicates(),
        target_views(targets.push(target)).to_set() == target_views(targets).to_set().insert(
            target@,
        ),
{
    let before = target_views(targets);
    let after = target_views(targets.push(target));
    assert(after =~= before.push(target@));
    assert forall|i: int, j: int| 0 <= i < after.len() && 0 <= j < after.len() && i != j implies after[i] != after[j] by {
        if i < before.len() && j < before.len() {
            assert(before[i] != before[j]);
        } else if i < before.len() {
            assert(before.contains(before[i]));
        } else if j < before.len() {
            assert(before.contains(before[j]));
        }
    }
    assert forall|view: TargetView| after.to_set().contains(view) == before.to_set().insert(
        target@,
    ).contains(view) by {
        if after.to_set().contains(view) {
            let i = choose|i: int| 0 <= i < after.len() && after[i] == view;
            if i < before.len() {
                assert(before[i] == view);
                assert(before.contains(view));
            }
        }
        if before.to_set().contains(view) {
            let i = choose|i: int| 0 <= i < before.len() && before[i] == view;
            assert(after[i] == view);
            assert(after.contains(view));
        }
        if view == target@ {
            assert(after[before.len() as int] == view);
            assert(after.contains(view));
        }
    }
    assert(after.to_set() =~= before.to_set().insert(target@));
}

/// The map after one entry got one more target.
proof fn lemma_target_added(before: Seq<Route>, after: Seq<Route>, i: int, target: TargetView)
    requires
        routes_distinct(before),
        0 <= i < before.len(),
        after.len() == before.len(),
        forall|j: int| 0 <= j < after.len() && j != i ==> after[j] == before[j],
        after[i].key@ == before[i].key@,
        target_views(after[i].targets@).no_duplicates(),
        route_targets(after[i]) == route_targets(before[i]).insert(target),
    ensures
        routes_distinct(after),
        routes_view(after) == with_target(routes_view(before), before[i].key@, target),
{
    assert forall|j: int| 0 <= j < after.len() implies (#[trigger] after[j]).key@
        == before[j].key@ by {}
    assert forall|a: int, b: int| 0 <= a < b < after.len() implies (#[trigger] after[a]).key@ != (
    #[trigger] after[b]).key@ by {
        assert(before[a].key@ != before[b].key@);
    }
    assert forall|j: int| 0 <= j < after.len() implies target_views(
        (#[trigger] after[j]).targets@,
    ).no_duplicates() by {
        if j != i {
            assert(target_views(before[j].targets@).no_duplicates());
        }
    }
    let key = before[i].key@;
    let expected = with_target(routes_view(before), key, target);
    lemma_route_found(before, i);
    assert forall|k: MatchKeyView| routes_view(after).contains_key(k) == expected.contains_key(
        k,
    ) by {
        if has_route(after, k) {
            let j = route_index(after, k);
            assert(before[j].key@ == k);
        }
        if has_route(before, k) {
            let j = route_index(before, k);
            assert(after[j].key@ == k);
        }
        if k == key {
            assert(after[i].key@ == k);
        }
    }
    assert forall|k: MatchKeyView| routes_view(after).contains_key(k) implies routes_view(
        after,
    )[k] == expected[k] by {
        let j = route_index(after, k);
        lemma_route_found(after, j);
        if j == i {
        } else {
            assert(before[j].key@ == k);
            lemma_route_found(before, j);
        }
    }
    assert(routes_view(after) =~= expected);
}

/// The map after an entry with a new key and one target was added.
proof fn lemma_route_added(before: Seq<Route>, after: Seq<Route>, target: TargetView)
    requires
        routes_distinct(before),
        after.len() == before.len() + 1,
        forall|j: int| 0 <= j < before.len() ==> after[j] == before[j],
        !has_route(before, after.last().key@),
        target_views(after.last().targets@) == seq![target],
    ensures
        routes_distinct(after),
        routes_view(after) == with_target(routes_view(before), after.last().key@, target),
{
    let n = before.len() as int;
    let key = after[n].key@;
    assert forall|a: int, b: int| 0 <= a < b < after.len() implies (#[trigger] after[a]).key@ != (
    #[trigger] after[b]).key@ by {
        if b < n {
            assert(before[a].key@ != before[b].key@);
        } else {
            assert(before[a].key@ != key);
        }
    }
    assert forall|j: int| 0 <= j < after.len() implies target_views(
        (#[trigger] after[j]).targets@,
    ).no_duplicates() by {
        if j < n {
            assert(target_views(before[j].targets@).no_duplicates());
        }
    }
    let expected = with_target(routes_view(before), key, target);
    assert(route_targets(after[n]) =~= Set::<TargetView>::empty().insert(target)) by {
        let views = target_views(after[n].targets@);
        assert(views[0] == target);
        assert(views.contains(target));
    }
    assert forall|k: MatchKeyView| routes_view(after).contains_key(k) == expected.contains_key(
        k,
    ) by {
        if has_route(after, k) {
            let j = route_index(after, k);
            if j < n {
                assert(before[j].key@ == k);
            }
        }
        if has_route(before, k) {
            let j = route_index(before, k);
            assert(after[j].key@ == k);
        }
        if k == key {
            assert(after[n].key@ == k);
        }
    }
    assert forall|k: MatchKeyView| routes_view(after).contains_key(k) implies routes_view(
        after,
    )[k] == expected[k] by {
        let j = route_index(after, k);
        lemma_route_found(after, j);
        if j < n {
            assert(before[j].key@ == k);
            lemma_route_found(before, j);
        }
    }
    assert(routes_view(after) =~= expected);
}

} // verus!
