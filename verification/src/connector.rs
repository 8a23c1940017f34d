//! The decisions of a generic connector: when to connect, poll, back off and
//! reconnect, and how a poll result is merged into the shared ingested state.
//! The connector task performs the actions (sleeping, connecting, polling)
//! and reports what happened back as events.
use vstd::prelude::*;
use crate::data::{DataType, DataTypeView, DeepCopy};
use crate::strmap::StrMap;

verus! {

// ============================================================================
// Backoff
// ============================================================================

/// Seconds to wait before retry number `n` (1, 2, 4, 8, 16, then 30 for
/// every later retry).
pub open spec fn backoff_table() -> Seq<u64> {
    seq![1u64, 2u64, 4u64, 8u64, 16u64, 30u64]
}

/// Number of steps in the backoff table.
pub const BACKOFF_STEPS: usize = 6;

/// The delay for an attempt count: the table entry, the last one for every
/// count past the end.
pub open spec fn backoff_delay(attempt: nat) -> u64 {
    if attempt < BACKOFF_STEPS {
        backoff_table()[attempt as int]
    } else {
        backoff_table()[BACKOFF_STEPS - 1]
    }
}

/// The delay in seconds before retrying after `attempt` failures.
pub fn backoff_secs(attempt: usize) -> (r: u64)
    ensures
        r == backoff_delay(attempt as nat),
        1 <= r <= 30,
{
    if attempt == 0 {
        1
    } else if attempt == 1 {
        2
    } else if attempt == 2 {
        4
    } else if attempt == 3 {
        8
    } else if attempt == 4 {
        16
    } else {
        30
    }
}

/// Backing off never shortens: a later attempt waits at least as long.
pub proof fn backoff_is_monotone(a: nat, b: nat)
    requires
        a <= b,
    ensures
        backoff_delay(a) <= backoff_delay(b),
        1 <= backoff_delay(a) <= 30,
{
}

// ============================================================================
// Connection state machine
// ============================================================================

/// Where a connector is: trying to connect (after `attempt` failed tries),
/// or connected and polling (after `failures` failed polls in a row).
#[derive(Clone, Copy, Debug, PartialEq, Eq, Structural)]
pub enum ConnectorState {
    Connecting { attempt: usize },
    Polling { failures: usize },
}

/// What happened when the connector task carried out the last action.
#[derive(Clone, Copy, Debug, PartialEq, Eq, Structural)]
pub enum ConnectorEvent {
    ConnectOk,
    ConnectFailed,
    PollOk,
    PollFailed,
}

/// What the connector task does next: wait `after_secs` seconds and then
/// connect, or wait `after_secs` seconds and one tick and then poll.
#[derive(Clone, Copy, Debug, PartialEq, Eq, Structural)]
pub enum ConnectorAction {
    Connect { after_secs: u64 },
    Poll { after_secs: u64 },
}

/// The state a connector starts in, and its first action: connect at once.
pub fn connector_start() -> (r: (ConnectorState, ConnectorAction))
    ensures
        r == (ConnectorState::Connecting { attempt: 0 }, ConnectorAction::Connect { after_secs: 0 }),
{
    (ConnectorState::Connecting { attempt: 0 }, ConnectorAction::Connect { after_secs: 0 })
}

/// The next state and action after an event.
pub open spec fn spec_connector_step(s: ConnectorState, e: ConnectorEvent) -> (ConnectorState, ConnectorAction) {
    match (s, e) {
        (ConnectorState::Connecting { attempt }, ConnectorEvent::ConnectOk) =>
            (ConnectorState::Polling { failures: 0 }, ConnectorAction::Poll { after_secs: 0 }),
        (ConnectorState::Connecting { attempt }, ConnectorEvent::ConnectFailed) =>
            (ConnectorState::Connecting { attempt: if attempt < usize::MAX { (attempt + 1) as usize } else { attempt } },
             ConnectorAction::Connect { after_secs: backoff_delay(attempt as nat) }),
        (ConnectorState::Polling { failures }, ConnectorEvent::PollOk) =>
            (ConnectorState::Polling { failures: 0 }, ConnectorAction::Poll { after_secs: 0 }),
        (ConnectorState::Polling { failures }, ConnectorEvent::PollFailed) => {
            let f = if failures < usize::MAX { (failures + 1) as usize } else { failures };
            if f >= BACKOFF_STEPS {
                (ConnectorState::Connecting { attempt: 0 }, ConnectorAction::Connect { after_secs: backoff_delay(f as nat) })
            } else {
                (ConnectorState::Polling { failures: f }, ConnectorAction::Poll { after_secs: backoff_delay(f as nat) })
            }
        },
        // An event that does not belong to the state changes nothing; the
        // task repeats the action of the state.
        (ConnectorState::Connecting { attempt }, _) => (s, ConnectorAction::Connect { after_secs: 0 }),
        (ConnectorState::Polling { failures }, _) => (s, ConnectorAction::Poll { after_secs: 0 }),
    }
}

/// Decide the next state and action after an event. A failed connect waits
/// by the backoff table and tries again; a successful one starts polling.
/// A successful poll clears the failure count. A failed poll waits by the
/// backoff table for the new failure count; once the count reaches the
/// length of the table the connection is re-established.
pub fn connector_step(s: ConnectorState, e: ConnectorEvent) -> (r: (ConnectorState, ConnectorAction))
    ensures
        r == spec_connector_step(s, e),
{
    match s {
        ConnectorState::Connecting { attempt } => match e {
            ConnectorEvent::ConnectOk => (ConnectorState::Polling { failures: 0 }, ConnectorAction::Poll { after_secs: 0 }),
            ConnectorEvent::ConnectFailed => {
                let delay = backoff_secs(attempt);
                (ConnectorState::Connecting { attempt: attempt.saturating_add(1) }, ConnectorAction::Connect { after_secs: delay })
            },
            _ => (s, ConnectorAction::Connect { after_secs: 0 }),
        },
        ConnectorState::Polling { failures } => match e {
            ConnectorEvent::PollOk => (ConnectorState::Polling { failures: 0 }, ConnectorAction::Poll { after_secs: 0 }),
            ConnectorEvent::PollFailed => {
                let f = failures.saturating_add(1);
                let delay = backoff_secs(f);
                if f >= BACKOFF_STEPS {
                    (ConnectorState::Connecting { attempt: 0 }, ConnectorAction::Connect { after_secs: delay })
                } else {
                    (ConnectorState::Polling { failures: f }, ConnectorAction::Poll { after_secs: delay })
                }
            },
            _ => (s, ConnectorAction::Poll { after_secs: 0 }),
        },
    }
}

/// A failed poll keeps the connection while the failure count stays below the
/// length of the backoff table, waiting by the table for the new count; the
/// failure that reaches the length drops the connection and reconnects.
pub proof fn failed_polls_reconnect(f: usize)
    ensures
        f + 1 < BACKOFF_STEPS ==> spec_connector_step((ConnectorState::Polling { failures: f }), ConnectorEvent::PollFailed)
            == ((ConnectorState::Polling { failures: (f + 1) as usize }), (ConnectorAction::Poll { after_secs: backoff_delay((f + 1) as nat) })),
        f + 1 >= BACKOFF_STEPS ==> spec_connector_step((ConnectorState::Polling { failures: f }), ConnectorEvent::PollFailed).0
            == (ConnectorState::Connecting { attempt: 0 }),
{
}

/// Every wait the state machine asks for is at most 30 seconds, and a
/// successful connect or poll always leaves the connector polling with no
/// failures.
pub proof fn connector_step_bounded(s: ConnectorState, e: ConnectorEvent)
    ensures
        match spec_connector_step(s, e).1 {
            ConnectorAction::Connect { after_secs } => after_secs <= 30,
            ConnectorAction::Poll { after_secs } => after_secs <= 30,
        },
        ((s matches ConnectorState::Polling { .. }) && e == ConnectorEvent::PollOk) ==> spec_connector_step(s, e).0 == (ConnectorState::Polling { failures: 0 }),
        ((s matches ConnectorState::Connecting { .. }) && e == ConnectorEvent::ConnectOk) ==> spec_connector_step(s, e).0 == (ConnectorState::Polling { failures: 0 }),
{
}

// ============================================================================
// Ingested state
// ============================================================================

/// The ingested state after merging a poll result: every device in the
/// result gets its polled fields written over the fields it had (a device
/// not seen before starts empty); other devices keep theirs.
pub open spec fn merged(
    ingested: Map<Seq<char>, Map<Seq<char>, DataTypeView>>,
    partial: Map<Seq<char>, Map<Seq<char>, DataTypeView>>,
) -> Map<Seq<char>, Map<Seq<char>, DataTypeView>> {
    Map::new(
        |d: Seq<char>| ingested.contains_key(d) || partial.contains_key(d),
        |d: Seq<char>| if partial.contains_key(d) {
            (if ingested.contains_key(d) { ingested[d] } else { Map::empty() }).union_prefer_right(partial[d])
        } else {
            ingested[d]
        },
    )
}

/// The entries of `m` whose keys are among the first `k` of `keys`.
pub open spec fn prefix_entries<V>(m: Map<Seq<char>, V>, keys: Seq<Seq<char>>, k: int) -> Map<Seq<char>, V> {
    Map::new(|key: Seq<char>| m.contains_key(key) && keys.take(k).contains(key), |key: Seq<char>| m[key])
}

/// Taking one more key adds exactly that key.
proof fn lemma_take_one_more(keys: Seq<Seq<char>>, k: int)
    requires
        0 <= k < keys.len(),
    ensures
        forall|key: Seq<char>| keys.take(k + 1).contains(key) <==> (keys.take(k).contains(key) || key == keys[k]),
{
    assert forall|key: Seq<char>| keys.take(k + 1).contains(key) <==> (keys.take(k).contains(key) || key == keys[k]) by {
        if keys.take(k + 1).contains(key) {
            let t = keys.take(k + 1);
            let j = choose|j: int| 0 <= j < t.len() && t[j] == key;
            if j < k {
                assert(keys.take(k)[j] == key);
            }
        }
        if keys.take(k).contains(key) {
            let t = keys.take(k);
            let j = choose|j: int| 0 <= j < t.len() && t[j] == key;
            assert(keys.take(k + 1)[j] == key);
        }
        if key == keys[k] {
            assert(keys.take(k + 1)[k] == key);
        }
    }
}

/// Write every field of `fields` into `base`, replacing values of the same
/// name.
pub fn extend_fields(base: &mut StrMap<DataType>, fields: &StrMap<DataType>)
    ensures
        final(base)@ == old(base)@.union_prefer_right(fields@),
{
    fields.key_facts();
    let ghost ks = fields.key_seq();
    let ghost start = base@;
    let mut k: usize = 0;
    assert(prefix_entries(fields@, ks, 0) =~= Map::<Seq<char>, DataTypeView>::empty());
    assert(start.union_prefer_right(Map::<Seq<char>, DataTypeView>::empty()) =~= start);
    while k < fields.len()
        invariant
            ks == fields.key_seq(),
            k <= ks.len(),
            forall|key: Seq<char>| fields@.contains_key(key) <==> ks.contains(key),
            forall|i: int, j: int| 0 <= i < ks.len() && 0 <= j < ks.len() && i != j ==> #[trigger] ks[i] != #[trigger] ks[j],
            base@ == start.union_prefer_right(prefix_entries(fields@, ks, k as int)),
        decreases ks.len() - k,
    {
        let key = fields.key_at(k);
        let value = fields.value_at(k);
        let ghost before = prefix_entries(fields@, ks, k as int);
        base.insert(key.clone(), value.deep_copy());
        proof { lemma_take_one_more(ks, k as int); }
        assert(ks.contains(ks[k as int]));
        assert(fields@.contains_key(ks[k as int]));
        assert forall|key: Seq<char>| #[trigger] prefix_entries(fields@, ks, k + 1).contains_key(key)
            <==> before.insert(ks[k as int], fields@[ks[k as int]]).contains_key(key) by {
            assert(ks.take(k + 1).contains(key) <==> (ks.take(k as int).contains(key) || key == ks[k as int]));
        }
        assert(prefix_entries(fields@, ks, k + 1) =~= before.insert(ks[k as int], fields@[ks[k as int]]));
        assert(start.union_prefer_right(before.insert(ks[k as int], fields@[ks[k as int]]))
            =~= start.union_prefer_right(before).insert(ks[k as int], fields@[ks[k as int]]));
        k = k + 1;
    }
    assert(ks.take(ks.len() as int) =~= ks);
    assert(prefix_entries(fields@, ks, ks.len() as int) =~= fields@);
}

/// Merge one poll result into the ingested state (see `merged`).
pub fn merge_partial(ingested: &mut StrMap<StrMap<DataType>>, partial: &StrMap<StrMap<DataType>>)
    ensures
        final(ingested)@ == merged(old(ingested)@, partial@),
{
    partial.key_facts();
    let ghost ks = partial.key_seq();
    let ghost start = ingested@;
    let mut k: usize = 0;
    assert(merged(start, prefix_entries(partial@, ks, 0)) =~= start);
    while k < partial.len()
        invariant
            ks == partial.key_seq(),
            k <= ks.len(),
            forall|key: Seq<char>| partial@.contains_key(key) <==> ks.contains(key),
            forall|i: int, j: int| 0 <= i < ks.len() && 0 <= j < ks.len() && i != j ==> #[trigger] ks[i] != #[trigger] ks[j],
            ingested@ == merged(start, prefix_entries(partial@, ks, k as int)),
        decreases ks.len() - k,
    {
        let dev = partial.key_at(k);
        let fields = partial.value_at(k);
        let ghost before = prefix_entries(partial@, ks, k as int);
        let mut base = match ingested.get(dev.as_str()) {
            Some(existing) => existing.deep_copy_map(),
            None => StrMap::new(),
        };
        extend_fields(&mut base, fields);
        ingested.insert(dev.clone(), base);
        proof { lemma_take_one_more(ks, k as int); }
        assert(ks.contains(ks[k as int]));
        assert(!ks.take(k as int).contains(ks[k as int])) by {
            if ks.take(k as int).contains(ks[k as int]) {
                let j = choose|j: int| 0 <= j < k && ks.take(k as int)[j] == ks[k as int];
                assert(ks[j] == ks[k as int]);
            }
        }
        assert(prefix_entries(partial@, ks, k + 1) =~= before.insert(ks[k as int], partial@[ks[k as int]]));
        assert(ingested@ =~= merged(start, before.insert(ks[k as int], partial@[ks[k as int]])));
        k = k + 1;
    }
    assert(ks.take(ks.len() as int) =~= ks);
    assert(prefix_entries(partial@, ks, ks.len() as int) =~= partial@);
}

/// After a merge every polled field reads as polled, and every field the
/// poll did not report reads as before.
pub proof fn merge_reads_back(
    ingested: Map<Seq<char>, Map<Seq<char>, DataTypeView>>,
    partial: Map<Seq<char>, Map<Seq<char>, DataTypeView>>,
    d: Seq<char>,
    f: Seq<char>,
)
    ensures
        partial.contains_key(d) && partial[d].contains_key(f) ==>
            merged(ingested, partial).contains_key(d) && merged(ingested, partial)[d].contains_key(f)
            && merged(ingested, partial)[d][f] == partial[d][f],
        !(partial.contains_key(d) && partial[d].contains_key(f)) ==> (
            (merged(ingested, partial).contains_key(d) && merged(ingested, partial)[d].contains_key(f))
                <==> (ingested.contains_key(d) && ingested[d].contains_key(f))),
        !(partial.contains_key(d) && partial[d].contains_key(f)) && ingested.contains_key(d) && ingested[d].contains_key(f) ==>
            merged(ingested, partial)[d][f] == ingested[d][f],
{
}

} // verus!
