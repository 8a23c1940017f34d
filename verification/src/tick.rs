//! The tick plan: the order in which devices are simulated, so that every
//! device runs after the devices it reads its inputs from.
use vstd::prelude::*;
use crate::data::views;
use crate::resolved::{ResolvedDevice, ResolvedDeviceView};
use crate::text::{decimal, same_text, u64_text, concat2};
use crate::data::{DataType, DataTypeView, DeepCopy, PhysicsMode, copy_vec};
use crate::schema::{InputVariableView, Param};
use crate::strmap::StrMap;
use crate::handle::{PlantConfigHandle, PlantConfigHandleView, after_set_field, device_ids, live_field};
use crate::lookup::first_index;

verus! {

// ============================================================================
// Specification
// ============================================================================

/// The id of device `j`.
pub open spec fn dev_id(devs: Seq<ResolvedDeviceView>, j: int) -> Seq<char> {
    devs[j].config.device_id
}

/// Number of inputs of device `j`.
pub open spec fn n_inputs(devs: Seq<ResolvedDeviceView>, j: int) -> int {
    devs[j].config.input_variables.len() as int
}

/// The id of the device that input `k` of device `j` reads from.
pub open spec fn source_id(devs: Seq<ResolvedDeviceView>, j: int, k: int) -> Seq<char> {
    devs[j].config.input_variables[k].source_device_id
}

/// No two devices share an id.
pub open spec fn ids_distinct(devs: Seq<ResolvedDeviceView>) -> bool {
    forall|a: int, b: int|
        0 <= a < devs.len() && 0 <= b < devs.len() && a != b ==> #[trigger] dev_id(devs, a) != #[trigger] dev_id(devs, b)
}

/// `s` is the id of some device.
pub open spec fn is_device_id(devs: Seq<ResolvedDeviceView>, s: Seq<char>) -> bool {
    exists|j: int| 0 <= j < devs.len() && #[trigger] dev_id(devs, j) == s
}

/// `s` occurs in `ord` strictly before `t`.
pub open spec fn comes_before(ord: Seq<Seq<char>>, s: Seq<char>, t: Seq<char>) -> bool {
    exists|p: int, q: int| #![trigger ord[p], ord[q]] 0 <= p < q < ord.len() && ord[p] == s && ord[q] == t
}

/// `ord` lists every device id exactly once, nothing else, and every device
/// comes after all the devices it reads inputs from.
pub open spec fn is_execution_order(devs: Seq<ResolvedDeviceView>, ord: Seq<Seq<char>>) -> bool {
    &&& forall|p: int, q: int| 0 <= p < ord.len() && 0 <= q < ord.len() && p != q ==> #[trigger] ord[p] != #[trigger] ord[q]
    &&& forall|p: int| 0 <= p < ord.len() ==> is_device_id(devs, #[trigger] ord[p])
    &&& forall|j: int| 0 <= j < devs.len() ==> ord.contains(#[trigger] dev_id(devs, j))
    &&& forall|j: int, k: int| 0 <= j < devs.len() && 0 <= k < n_inputs(devs, j) ==>
            comes_before(ord, #[trigger] source_id(devs, j, k), dev_id(devs, j))
}

/// The devices can be put in an execution order: their ids are distinct, every
/// input reads from a known device and the wiring has no cycle.
pub open spec fn orderable(devs: Seq<ResolvedDeviceView>) -> bool {
    ids_distinct(devs) && exists|ord: Seq<Seq<char>>| is_execution_order(devs, ord)
}

/// Some device marked in `done` has id `s`.
pub open spec fn provided(devs: Seq<ResolvedDeviceView>, done: Seq<bool>, s: Seq<char>) -> bool {
    exists|d: int| 0 <= d < devs.len() && #[trigger] dev_id(devs, d) == s && done[d]
}

/// All inputs of device `j` read from devices marked in `done`.
pub open spec fn inputs_ready(devs: Seq<ResolvedDeviceView>, done: Seq<bool>, j: int) -> bool {
    forall|k: int| 0 <= k < n_inputs(devs, j) ==> provided(devs, done, #[trigger] source_id(devs, j, k))
}

/// The error text for a wiring that cannot be ordered.
pub open spec fn cycle_message(ordered: nat, total: nat) -> Seq<char> {
    "Wiring cycle detected \u{2014} only "@ + decimal(ordered) + " of "@ + decimal(total) + " devices could be ordered"@
}

// ============================================================================
// Proof
// ============================================================================

/// When every device that is not done has an input that no done device
/// provides, and an execution order exists, then every device is done.
proof fn lemma_closed_set_is_everything(devs: Seq<ResolvedDeviceView>, done: Seq<bool>, ord: Seq<Seq<char>>)
    requires
        ids_distinct(devs),
        is_execution_order(devs, ord),
        done.len() == devs.len(),
        forall|j: int| 0 <= j < devs.len() && !done[j] ==> !inputs_ready(devs, done, j),
    ensures
        forall|j: int| 0 <= j < devs.len() ==> done[j],
{
    lemma_order_prefix_done(devs, done, ord, ord.len() as int);
    assert forall|j: int| 0 <= j < devs.len() implies done[j] by {
        assert(ord.contains(dev_id(devs, j)));
        let p = choose|p: int| 0 <= p < ord.len() && ord[p] == dev_id(devs, j);
        assert(ord[p] == dev_id(devs, j));
    }
}

proof fn lemma_order_prefix_done(devs: Seq<ResolvedDeviceView>, done: Seq<bool>, ord: Seq<Seq<char>>, q: int)
    requires
        ids_distinct(devs),
        is_execution_order(devs, ord),
        done.len() == devs.len(),
        forall|j: int| 0 <= j < devs.len() && !done[j] ==> !inputs_ready(devs, done, j),
        0 <= q <= ord.len(),
    ensures
        forall|p: int, j: int| 0 <= p < q && 0 <= j < devs.len() && #[trigger] ord[p] == #[trigger] dev_id(devs, j) ==> done[j],
    decreases q,
{
    if q > 0 {
        lemma_order_prefix_done(devs, done, ord, q - 1);
        assert forall|p: int, j: int| 0 <= p < q && 0 <= j < devs.len() && #[trigger] ord[p] == #[trigger] dev_id(devs, j) implies done[j] by {
            if p == q - 1 {
                assert forall|k: int| 0 <= k < n_inputs(devs, j) implies provided(devs, done, #[trigger] source_id(devs, j, k)) by {
                    let sk = source_id(devs, j, k);
                    assert(comes_before(ord, sk, dev_id(devs, j)));
                    let (a, b) = choose|a: int, b: int| #![trigger ord[a], ord[b]] 0 <= a < b < ord.len() && ord[a] == sk && ord[b] == dev_id(devs, j);
                    assert(b == p) by {
                        if b != p {
                            assert(ord[b] != ord[p]);
                        }
                    }
                    assert(is_device_id(devs, ord[a]));
                    let d = choose|d: int| 0 <= d < devs.len() && #[trigger] dev_id(devs, d) == ord[a];
                    assert(ord[a] == dev_id(devs, d));
                    assert(done[d]);
                }
                assert(inputs_ready(devs, done, j));
            }
        }
    }
}

proof fn lemma_ready_monotone(dv: Seq<ResolvedDeviceView>, before: Seq<bool>, after: Seq<bool>, j: int)
    requires
        before.len() == dv.len(),
        after.len() == dv.len(),
        forall|a: int| 0 <= a < dv.len() && #[trigger] before[a] ==> after[a],
        inputs_ready(dv, before, j),
    ensures
        inputs_ready(dv, after, j),
{
    assert forall|k: int| 0 <= k < n_inputs(dv, j) implies provided(dv, after, #[trigger] source_id(dv, j, k)) by {
        let sk = source_id(dv, j, k);
        assert(provided(dv, before, sk));
        let d = choose|d: int| 0 <= d < dv.len() && #[trigger] dev_id(dv, d) == sk && before[d];
        assert(after[d]);
    }
}

/// When some device is not done, fewer devices were processed than exist.
proof fn lemma_proc_shorter(proc: Seq<int>, done: Seq<bool>, n: int)
    requires
        done.len() == n,
        exists|b: int| 0 <= b < n && !done[b],
        forall|x: int, y: int| 0 <= x < proc.len() && 0 <= y < proc.len() && x != y ==> #[trigger] proc[x] != #[trigger] proc[y],
        forall|x: int| 0 <= x < proc.len() ==> 0 <= #[trigger] proc[x] < n,
        forall|a: int| 0 <= a < n ==> (#[trigger] done[a] <==> proc.contains(a)),
    ensures
        proc.len() < n,
{
    let b = choose|b: int| 0 <= b < n && !done[b];
    let s = proc.to_set();
    assert(proc.no_duplicates());
    proc.unique_seq_to_set();
    let range = vstd::set_lib::set_int_range(0, n);
    vstd::set_lib::lemma_int_range(0, n);
    let full = range.remove(b);
    assert(s.subset_of(full)) by {
        assert forall|a: int| s.contains(a) implies full.contains(a) by {
            let w = choose|w: int| 0 <= w < proc.len() && proc[w] == a;
            assert(0 <= proc[w] < n);
            if a == b {
                assert(proc.contains(b));
            }
        }
    }
    vstd::set_lib::lemma_len_subset(s, full);
}

/// Distinct positions below `n` number at most `n`.
proof fn lemma_proc_at_most(proc: Seq<int>, n: int)
    requires
        0 <= n,
        forall|x: int, y: int| 0 <= x < proc.len() && 0 <= y < proc.len() && x != y ==> #[trigger] proc[x] != #[trigger] proc[y],
        forall|x: int| 0 <= x < proc.len() ==> 0 <= #[trigger] proc[x] < n,
    ensures
        proc.len() <= n,
{
    let s = proc.to_set();
    assert(proc.no_duplicates());
    proc.unique_seq_to_set();
    let range = vstd::set_lib::set_int_range(0, n);
    vstd::set_lib::lemma_int_range(0, n);
    assert(s.subset_of(range)) by {
        assert forall|a: int| s.contains(a) implies range.contains(a) by {
            let w = choose|w: int| 0 <= w < proc.len() && proc[w] == a;
            assert(0 <= proc[w] < n);
        }
    }
    vstd::set_lib::lemma_len_subset(s, range);
}

/// Some device processed before position `x` of `proc` has id `s`.
pub open spec fn processed_before(dv: Seq<ResolvedDeviceView>, proc: Seq<int>, x: int, s: Seq<char>) -> bool {
    exists|y: int| 0 <= y < x && #[trigger] dev_id(dv, proc[y]) == s
}

/// The devices that can run after `k` rounds: none at first, then in each
/// round every device all of whose inputs read from devices of the round
/// before.
pub open spec fn ready_round(devs: Seq<ResolvedDeviceView>, k: nat) -> Seq<bool>
    decreases k,
{
    if k == 0 {
        Seq::new(devs.len(), |j: int| false)
    } else {
        let prev = ready_round(devs, (k - 1) as nat);
        Seq::new(devs.len(), |j: int| inputs_ready(devs, prev, j))
    }
}

/// Number of `true` entries.
pub open spec fn count_true(s: Seq<bool>) -> nat
    decreases s.len(),
{
    if s.len() == 0 {
        0
    } else {
        count_true(s.drop_last()) + if s.last() { 1nat } else { 0nat }
    }
}

/// How many devices (with distinct ids) can be put in an order where each
/// runs after the devices it reads from: those that can run after as many
/// rounds as there are devices.
pub open spec fn ordered_count(devs: Seq<ResolvedDeviceView>) -> nat {
    count_true(ready_round(devs, devs.len()))
}

/// Device `j` is the last device with its id.
pub open spec fn last_of_its_id(devs: Seq<ResolvedDeviceView>, j: int) -> bool {
    forall|l: int| j < l < devs.len() ==> #[trigger] dev_id(devs, l) != dev_id(devs, j)
}

/// The first `k` devices that are the last with their id, in order.
pub open spec fn last_devices(devs: Seq<ResolvedDeviceView>, k: int) -> Seq<ResolvedDeviceView>
    decreases k,
{
    if k <= 0 {
        Seq::empty()
    } else if last_of_its_id(devs, k - 1) {
        last_devices(devs, k - 1).push(devs[k - 1])
    } else {
        last_devices(devs, k - 1)
    }
}

/// How many devices the ordering gets through: with repeated ids, a later
/// device replaces an earlier one of the same id.
pub open spec fn kahn_count(devs: Seq<ResolvedDeviceView>) -> nat {
    if ids_distinct(devs) {
        ordered_count(devs)
    } else {
        ordered_count(last_devices(devs, devs.len() as int))
    }
}

/// Each round contains the one before.
proof fn lemma_round_grows(dv: Seq<ResolvedDeviceView>, k: nat)
    ensures
        forall|j: int| 0 <= j < dv.len() && #[trigger] ready_round(dv, k)[j] ==> ready_round(dv, k + 1)[j],
    decreases k,
{
    if k > 0 {
        lemma_round_grows(dv, (k - 1) as nat);
        let prev = ready_round(dv, (k - 1) as nat);
        let cur = ready_round(dv, k);
        assert forall|j: int| 0 <= j < dv.len() && #[trigger] ready_round(dv, k)[j] implies ready_round(dv, k + 1)[j] by {
            lemma_ready_monotone(dv, prev, cur, j);
        }
    }
}

/// A later round contains an earlier one.
proof fn lemma_round_grows_to(dv: Seq<ResolvedDeviceView>, k: nat, m: nat)
    requires
        k <= m,
    ensures
        forall|j: int| 0 <= j < dv.len() && #[trigger] ready_round(dv, k)[j] ==> ready_round(dv, m)[j],
    decreases m - k,
{
    if k < m {
        lemma_round_grows(dv, k);
        lemma_round_grows_to(dv, k + 1, m);
    }
}

/// Every round lies within a set of done devices that no further device is
/// ready after.
proof fn lemma_round_within_closed(dv: Seq<ResolvedDeviceView>, done: Seq<bool>, k: nat)
    requires
        done.len() == dv.len(),
        forall|j: int| 0 <= j < dv.len() && !done[j] ==> !inputs_ready(dv, done, j),
    ensures
        forall|j: int| 0 <= j < dv.len() && #[trigger] ready_round(dv, k)[j] ==> done[j],
    decreases k,
{
    if k > 0 {
        lemma_round_within_closed(dv, done, (k - 1) as nat);
        let prev = ready_round(dv, (k - 1) as nat);
        assert forall|j: int| 0 <= j < dv.len() && #[trigger] ready_round(dv, k)[j] implies done[j] by {
            lemma_ready_monotone(dv, prev, done, j);
        }
    }
}

/// Devices processed in an order where each reads only from earlier ones
/// are ready by the round after their position.
proof fn lemma_processed_in_rounds(dv: Seq<ResolvedDeviceView>, proc: Seq<int>, x: int)
    requires
        0 <= x < proc.len(),
        forall|y: int| 0 <= y < proc.len() ==> 0 <= #[trigger] proc[y] < dv.len(),
        forall|y: int, k: int| 0 <= y < proc.len() && 0 <= k < n_inputs(dv, proc[y]) ==>
            processed_before(dv, proc, y, #[trigger] source_id(dv, proc[y], k)),
    ensures
        ready_round(dv, (x + 1) as nat)[proc[x]],
    decreases x,
{
    let rx = ready_round(dv, x as nat);
    assert forall|y: int| 0 <= y < x implies #[trigger] rx[proc[y]] by {
        lemma_processed_in_rounds(dv, proc, y);
        lemma_round_grows_to(dv, (y + 1) as nat, x as nat);
    }
    assert forall|k: int| 0 <= k < n_inputs(dv, proc[x]) implies provided(dv, rx, #[trigger] source_id(dv, proc[x], k)) by {
        let sk = source_id(dv, proc[x], k);
        assert(processed_before(dv, proc, x, sk));
        let y = choose|y: int| 0 <= y < x && #[trigger] dev_id(dv, proc[y]) == sk;
        assert(rx[proc[y]]);
    }
}

/// The number of `true` entries of a sequence is the number of distinct
/// positions a list names, when the list names exactly the `true` positions.
proof fn lemma_count_true_is_len(s: Seq<bool>, proc: Seq<int>)
    requires
        forall|x: int, y: int| 0 <= x < proc.len() && 0 <= y < proc.len() && x != y ==> #[trigger] proc[x] != #[trigger] proc[y],
        forall|x: int| 0 <= x < proc.len() ==> 0 <= #[trigger] proc[x] < s.len(),
        forall|a: int| 0 <= a < s.len() ==> (#[trigger] s[a] <==> proc.contains(a)),
    ensures
        count_true(s) == proc.len(),
    decreases s.len(),
{
    if s.len() == 0 {
        if proc.len() > 0 {
            assert(0 <= proc[0] < s.len());
        }
    } else {
        let last = s.len() - 1;
        let t = s.drop_last();
        let rest = proc.filter(|a: int| a != last);
        broadcast use vstd::seq_lib::group_filter_ensures;
        assert forall|x: int, y: int| 0 <= x < rest.len() && 0 <= y < rest.len() && x != y implies #[trigger] rest[x] != #[trigger] rest[y] by {
            lemma_filter_distinct(proc, last, x, y);
        }
        assert forall|x: int| 0 <= x < rest.len() implies 0 <= #[trigger] rest[x] < t.len() by {
            assert(proc.filter(|a: int| a != last).contains(rest[x]));
            assert(rest[x] != last) by {
                proc.lemma_filter_pred(|a: int| a != last, x);
            }
            proc.lemma_filter_contains_rev(|a: int| a != last, rest[x]);
            let w = choose|w: int| 0 <= w < proc.len() && proc[w] == rest[x];
            assert(0 <= proc[w] < s.len());
        }
        assert forall|a: int| 0 <= a < t.len() implies (#[trigger] t[a] <==> rest.contains(a)) by {
            assert(t[a] == s[a]);
            if s[a] {
                let w = choose|w: int| 0 <= w < proc.len() && proc[w] == a;
                proc.lemma_filter_contains(|b: int| b != last, w);
            }
            if rest.contains(a) {
                proc.lemma_filter_contains_rev(|b: int| b != last, a);
            }
        }
        lemma_count_true_is_len(t, rest);
        lemma_filter_len_drop(proc, last, s.last());
    }
}

/// Distinct entries stay distinct after filtering.
proof fn lemma_filter_distinct(proc: Seq<int>, last: int, x: int, y: int)
    requires
        forall|i: int, j: int| 0 <= i < proc.len() && 0 <= j < proc.len() && i != j ==> #[trigger] proc[i] != #[trigger] proc[j],
        0 <= x < proc.filter(|a: int| a != last).len(),
        0 <= y < proc.filter(|a: int| a != last).len(),
        x != y,
    ensures
        proc.filter(|a: int| a != last)[x] != proc.filter(|a: int| a != last)[y],
    decreases proc.len(),
{
    reveal(Seq::filter);
    if proc.len() > 0 {
        let init = proc.drop_last();
        assert forall|i: int, j: int| 0 <= i < init.len() && 0 <= j < init.len() && i != j implies #[trigger] init[i] != #[trigger] init[j] by {
            assert(init[i] == proc[i] && init[j] == proc[j]);
        }
        let f = proc.filter(|a: int| a != last);
        let fi = init.filter(|a: int| a != last);
        if proc.last() != last {
            assert(f == fi.push(proc.last()));
            if x < fi.len() && y < fi.len() {
                lemma_filter_distinct(init, last, x, y);
            } else {
                let k = if x < fi.len() { x } else { y };
                broadcast use vstd::seq_lib::group_filter_ensures;
                init.lemma_filter_contains_rev(|a: int| a != last, fi[k]);
                let w = choose|w: int| 0 <= w < init.len() && init[w] == fi[k];
                assert(proc[w] != proc[proc.len() - 1]);
            }
        } else {
            assert(f == fi);
            lemma_filter_distinct(init, last, x, y);
        }
    }
}

/// Dropping one value from a list of distinct values shortens it by one
/// exactly when the value occurs.
proof fn lemma_filter_len_drop(proc: Seq<int>, last: int, present: bool)
    requires
        forall|i: int, j: int| 0 <= i < proc.len() && 0 <= j < proc.len() && i != j ==> #[trigger] proc[i] != #[trigger] proc[j],
        present <==> proc.contains(last),
    ensures
        proc.filter(|a: int| a != last).len() + (if present { 1int } else { 0int }) == proc.len(),
    decreases proc.len(),
{
    reveal(Seq::filter);
    if proc.len() > 0 {
        let init = proc.drop_last();
        assert forall|i: int, j: int| 0 <= i < init.len() && 0 <= j < init.len() && i != j implies #[trigger] init[i] != #[trigger] init[j] by {
            assert(init[i] == proc[i] && init[j] == proc[j]);
        }
        if proc.last() == last {
            assert(!init.contains(last)) by {
                if init.contains(last) {
                    let w = choose|w: int| 0 <= w < init.len() && init[w] == last;
                    assert(proc[w] == proc[proc.len() - 1]);
                }
            }
            lemma_filter_len_drop(init, last, false);
        } else {
            assert(init.contains(last) <==> proc.contains(last)) by {
                if proc.contains(last) {
                    let w = choose|w: int| 0 <= w < proc.len() && proc[w] == last;
                    assert(init[w] == last);
                }
                if init.contains(last) {
                    let w = choose|w: int| 0 <= w < init.len() && init[w] == last;
                    assert(proc[w] == last);
                }
            }
            lemma_filter_len_drop(init, last, present);
        }
    }
}

/// When the done devices are closed (no device that is not done is ready)
/// and were processed in an order where each reads only from earlier ones,
/// they are exactly the devices ready after as many rounds as there are
/// devices, and the order is as long as their number.
proof fn lemma_done_is_ordered_count(dv: Seq<ResolvedDeviceView>, done: Seq<bool>, proc: Seq<int>)
    requires
        done.len() == dv.len(),
        forall|j: int| 0 <= j < dv.len() && !done[j] ==> !inputs_ready(dv, done, j),
        forall|x: int, y: int| 0 <= x < proc.len() && 0 <= y < proc.len() && x != y ==> #[trigger] proc[x] != #[trigger] proc[y],
        forall|x: int| 0 <= x < proc.len() ==> 0 <= #[trigger] proc[x] < dv.len(),
        forall|a: int| 0 <= a < dv.len() ==> (#[trigger] done[a] <==> proc.contains(a)),
        forall|x: int, k: int| 0 <= x < proc.len() && 0 <= k < n_inputs(dv, proc[x]) ==>
            processed_before(dv, proc, x, #[trigger] source_id(dv, proc[x], k)),
    ensures
        proc.len() == ordered_count(dv),
{
    let n = dv.len();
    lemma_proc_at_most(proc, n as int);
    let rn = ready_round(dv, n);
    lemma_round_within_closed(dv, done, n);
    assert forall|a: int| 0 <= a < n implies (#[trigger] rn[a] <==> done[a]) by {
        if done[a] {
            let x = choose|x: int| 0 <= x < proc.len() && proc[x] == a;
            lemma_processed_in_rounds(dv, proc, x);
            lemma_round_grows_to(dv, (x + 1) as nat, n);
        }
    }
    assert(rn =~= done);
    lemma_count_true_is_len(done, proc);
}

/// Number of `false` entries.
pub open spec fn count_false(s: Seq<bool>) -> nat
    decreases s.len(),
{
    if s.len() == 0 {
        0
    } else {
        count_false(s.drop_last()) + if s.last() { 0nat } else { 1nat }
    }
}

proof fn lemma_count_false_set(s: Seq<bool>, j: int)
    requires
        0 <= j < s.len(),
        !s[j],
    ensures
        count_false(s.update(j, true)) + 1 == count_false(s),
    decreases s.len(),
{
    let t = s.update(j, true);
    if j == s.len() - 1 {
        assert(t.drop_last() =~= s.drop_last());
    } else {
        lemma_count_false_set(s.drop_last(), j);
        assert(t.drop_last() =~= s.drop_last().update(j, true));
    }
}

// ============================================================================
// Implementation
// ============================================================================

/// Device execution order, computed once from the wiring.
pub struct TickPlan {
    order: Vec<String>,
}

impl View for TickPlan {
    type V = Seq<Seq<char>>;

    closed spec fn view(&self) -> Seq<Seq<char>> {
        views(self.order@)
    }
}

/// For each input of each device, the index of the device it reads from.
fn resolve_sources(devs: &Vec<ResolvedDevice>) -> (r: Vec<Vec<Option<usize>>>)
    ensures
        r.len() == devs.len(),
        forall|j: int| 0 <= j < devs.len() ==> #[trigger] r[j].len() == n_inputs(views(devs@), j),
        forall|j: int, k: int| 0 <= j < devs.len() && 0 <= k < n_inputs(views(devs@), j) ==>
            match #[trigger] r[j][k] {
                Some(d) => d < devs.len() && dev_id(views(devs@), d as int) == source_id(views(devs@), j, k),
                None => !is_device_id(views(devs@), source_id(views(devs@), j, k)),
            },
{
    let ghost dv = views(devs@);
    let mut r: Vec<Vec<Option<usize>>> = Vec::new();
    let mut j: usize = 0;
    while j < devs.len()
        invariant
            dv == views(devs@),
            j <= devs.len(),
            r.len() == j,
            forall|a: int| 0 <= a < j ==> #[trigger] r[a].len() == n_inputs(dv, a),
            forall|a: int, k: int| 0 <= a < j && 0 <= k < n_inputs(dv, a) ==>
                match #[trigger] r[a][k] {
                    Some(d) => d < devs.len() && dev_id(dv, d as int) == source_id(dv, a, k),
                    None => !is_device_id(dv, source_id(dv, a, k)),
                },
        decreases devs.len() - j,
    {
        let inputs = &devs[j].config.input_variables;
        let mut row: Vec<Option<usize>> = Vec::new();
        let mut k: usize = 0;
        while k < inputs.len()
            invariant
                dv == views(devs@),
                j < devs.len(),
                inputs@ == devs@[j as int].config.input_variables@,
                k <= inputs.len(),
                row.len() == k,
                forall|b: int| 0 <= b < k ==>
                    match #[trigger] row[b] {
                        Some(d) => d < devs.len() && dev_id(dv, d as int) == source_id(dv, j as int, b),
                        None => !is_device_id(dv, source_id(dv, j as int, b)),
                    },
            decreases inputs.len() - k,
        {
            let src = &inputs[k].source_device_id;
            let mut found: Option<usize> = None;
            let mut d: usize = 0;
            while d < devs.len()
                invariant
                    dv == views(devs@),
                    j < devs.len(),
                    k < inputs.len(),
                    inputs@ == devs@[j as int].config.input_variables@,
                    src@ == source_id(dv, j as int, k as int),
                    d <= devs.len(),
                    match found {
                        Some(f) => f < d && dev_id(dv, f as int) == src@,
                        None => forall|e: int| 0 <= e < d ==> #[trigger] dev_id(dv, e) != src@,
                    },
                decreases devs.len() - d,
            {
                if found.is_none() && same_text(devs[d].config.device_id.as_str(), src.as_str()) {
                    found = Some(d);
                }
                d = d + 1;
            }
            proof {
                if found is None {
                    assert forall|e: int| 0 <= e < dv.len() implies #[trigger] dev_id(dv, e) != source_id(dv, j as int, k as int) by {}
                }
            }
            row.push(found);
            k = k + 1;
        }
        r.push(row);
        j = j + 1;
    }
    r
}

/// Whether two devices share an id.
fn has_duplicate_ids(devs: &Vec<ResolvedDevice>) -> (r: bool)
    ensures
        r == !ids_distinct(views(devs@)),
{
    let ghost dv = views(devs@);
    let mut a: usize = 0;
    while a < devs.len()
        invariant
            dv == views(devs@),
            a <= devs.len(),
            forall|x: int, y: int| 0 <= x < a && 0 <= y < devs.len() && x != y ==> #[trigger] dev_id(dv, x) != #[trigger] dev_id(dv, y),
        decreases devs.len() - a,
    {
        let mut b: usize = 0;
        while b < devs.len()
            invariant
                dv == views(devs@),
                a < devs.len(),
                b <= devs.len(),
                forall|x: int, y: int| 0 <= x < a && 0 <= y < devs.len() && x != y ==> #[trigger] dev_id(dv, x) != #[trigger] dev_id(dv, y),
                forall|y: int| 0 <= y < b && y != a ==> dev_id(dv, a as int) != #[trigger] dev_id(dv, y),
            decreases devs.len() - b,
        {
            if a != b && same_text(devs[a].config.device_id.as_str(), devs[b].config.device_id.as_str()) {
                assert(dev_id(dv, a as int) == dev_id(dv, b as int));
                return true;
            }
            b = b + 1;
        }
        a = a + 1;
    }
    false
}

/// Whether all inputs of device `j` come from devices marked done.
fn ready(src: &Vec<Vec<Option<usize>>>, done: &Vec<bool>, j: usize, Ghost(dv): Ghost<Seq<ResolvedDeviceView>>) -> (r: bool)
    requires
        ids_distinct(dv),
        src.len() == dv.len(),
        done.len() == dv.len(),
        j < dv.len(),
        forall|a: int| 0 <= a < dv.len() ==> #[trigger] src[a].len() == n_inputs(dv, a),
        forall|a: int, k: int| 0 <= a < dv.len() && 0 <= k < n_inputs(dv, a) ==>
            match #[trigger] src[a][k] {
                Some(d) => d < dv.len() && dev_id(dv, d as int) == source_id(dv, a, k),
                None => !is_device_id(dv, source_id(dv, a, k)),
            },
    ensures
        r == inputs_ready(dv, done@, j as int),
{
    let mut k: usize = 0;
    while k < src[j].len()
        invariant
            j < dv.len(),
            src.len() == dv.len(),
            done.len() == dv.len(),
            src[j as int].len() == n_inputs(dv, j as int),
            k <= src[j as int].len(),
            forall|a: int, k: int| 0 <= a < dv.len() && 0 <= k < n_inputs(dv, a) ==>
                match #[trigger] src[a][k] {
                    Some(d) => d < dv.len() && dev_id(dv, d as int) == source_id(dv, a, k),
                    None => !is_device_id(dv, source_id(dv, a, k)),
                },
            ids_distinct(dv),
            forall|b: int| 0 <= b < k ==> provided(dv, done@, #[trigger] source_id(dv, j as int, b)),
        decreases src[j as int].len() - k,
    {
        let ghost sk = source_id(dv, j as int, k as int);
        match src[j][k] {
            Some(d) => {
                assert(dev_id(dv, d as int) == sk);
                if done[d] {
                    assert(provided(dv, done@, sk));
                }
                if !done[d] {
                    assert(!provided(dv, done@, sk)) by {
                        if provided(dv, done@, sk) {
                            let e = choose|e: int| 0 <= e < dv.len() && #[trigger] dev_id(dv, e) == sk && done@[e];
                            if e != d as int {
                                assert(dev_id(dv, e) != dev_id(dv, d as int));
                            }
                        }
                    }
                    return false;
                }
            },
            None => {
                assert(!is_device_id(dv, sk));
                assert(!provided(dv, done@, sk));
                return false;
            },
        }
        k = k + 1;
    }
    true
}

/// The devices that are the last with their id, in order: what ordering
/// works on when ids repeat (a later device replaces an earlier one of the
/// same id).
fn last_per_id(devs: &Vec<ResolvedDevice>) -> (r: Vec<ResolvedDevice>)
    ensures
        views(r@) == last_devices(views(devs@), devs.len() as int),
        ids_distinct(views(r@)),
        !ids_distinct(views(devs@)) ==> r.len() < devs.len(),
        r.len() <= devs.len(),
{
    let ghost dv = views(devs@);
    let n = devs.len();
    let ghost lo: int = if ids_distinct(dv) { n as int } else {
        let (a, b) = choose|a: int, b: int| 0 <= a < dv.len() && 0 <= b < dv.len() && a != b && dev_id(dv, a) == dev_id(dv, b);
        if a < b { a } else { b }
    };
    assert(lo < n ==> exists|l: int| lo < l < n && dev_id(dv, l) == dev_id(dv, lo));
    let mut out: Vec<ResolvedDevice> = Vec::new();
    let ghost mut idx: Seq<int> = Seq::empty();
    let mut j: usize = 0;
    while j < n
        invariant
            n == devs.len(),
            dv == views(devs@),
            j <= n,
            out.len() == idx.len(),
            lo <= n,
            lo < n ==> exists|l: int| lo < l < n && dev_id(dv, l) == dev_id(dv, lo),
            !ids_distinct(dv) ==> lo < n,
            forall|t: int| 0 <= t < idx.len() ==> 0 <= #[trigger] idx[t] < j && views(out@)[t] == dv[idx[t]],
            forall|t: int, u: int| 0 <= t < u < idx.len() ==> #[trigger] idx[t] < #[trigger] idx[u],
            forall|t: int, l: int| 0 <= t < idx.len() && idx[t] < l < n ==> #[trigger] dev_id(dv, l) != dev_id(dv, #[trigger] idx[t]),
            out.len() + (if j > lo { 1int } else { 0int }) <= j,
            views(out@) == last_devices(dv, j as int),
        decreases n - j,
    {
        let mut last = true;
        let mut l: usize = j + 1;
        while l < n
            invariant
                n == devs.len(),
                dv == views(devs@),
                j < n,
                j + 1 <= l <= n,
                last == forall|x: int| j < x < l ==> dev_id(dv, x) != dev_id(dv, j as int),
            decreases n - l,
        {
            assert(dev_id(dv, l as int) == devs@[l as int].config.device_id@);
            assert(dev_id(dv, j as int) == devs@[j as int].config.device_id@);
            if same_text(devs[l].config.device_id.as_str(), devs[j].config.device_id.as_str()) {
                last = false;
            }
            l = l + 1;
        }
        assert(last == last_of_its_id(dv, j as int));
        if last {
            assert(j as int != lo) by {
                if j as int == lo {
                    let w = choose|w: int| lo < w < n && dev_id(dv, w) == dev_id(dv, lo);
                }
            }
            let d = devs[j].deep_copy();
            let ghost old_out = views(out@);
            assert(last_of_its_id(dv, j as int));
            out.push(d);
            assert(views(out@) =~= old_out.push(dv[j as int]));
            proof {
                idx = idx.push(j as int);
                assert forall|t: int| 0 <= t < idx.len() implies 0 <= #[trigger] idx[t] < j + 1 && views(out@)[t] == dv[idx[t]] by {
                    if t < idx.len() - 1 {
                        assert(views(out@)[t] == old_out[t]);
                    }
                }
            }
        }
        j = j + 1;
    }
    proof {
        let ov = views(out@);
        assert forall|a: int, b: int| 0 <= a < ov.len() && 0 <= b < ov.len() && a != b implies #[trigger] dev_id(ov, a) != #[trigger] dev_id(ov, b) by {
            assert(dev_id(ov, a) == dev_id(dv, idx[a]));
            assert(dev_id(ov, b) == dev_id(dv, idx[b]));
            if a < b {
                assert(idx[a] < idx[b]);
            } else {
                assert(idx[b] < idx[a]);
            }
        }
    }
    out
}

impl TickPlan {
    /// The execution order of the handle's devices (see `build_from`).
    pub fn build(handle: &PlantConfigHandle) -> (r: Result<TickPlan, String>)
        ensures
            match r {
                Ok(plan) => orderable(handle@.devices) && is_execution_order(handle@.devices, plan@),
                Err(msg) => !orderable(handle@.devices) && kahn_count(handle@.devices) < handle@.devices.len()
                    && msg@ == cycle_message(kahn_count(handle@.devices), handle@.devices.len()),
            },
    {
        Self::build_from(handle.resolved_devices())
    }

    /// The device ids in execution order.
    pub fn order(&self) -> (r: &Vec<String>)
        ensures
            views(r@) == self@,
    {
        &self.order
    }

    /// Order the devices so that each runs after the devices it reads inputs
    /// from (Kahn's algorithm). Fails when two devices share an id, an input
    /// names an unknown device, or the wiring has a cycle; the error tells how
    /// many devices could be ordered (see `kahn_count`).
    pub fn build_from(devs: &Vec<ResolvedDevice>) -> (r: Result<TickPlan, String>)
        ensures
            match r {
                Ok(plan) => orderable(views(devs@)) && is_execution_order(views(devs@), plan@),
                Err(msg) => !orderable(views(devs@)) && kahn_count(views(devs@)) < devs.len()
                    && msg@ == cycle_message(kahn_count(views(devs@)), devs.len() as nat),
            },
    {
        let n = devs.len();
        if has_duplicate_ids(devs) {
            let unique = last_per_id(devs);
            let (order, _) = kahn_order(&unique);
            return Err(cycle_error(order.len(), n));
        }
        let (order, ok) = kahn_order(devs);
        if ok {
            Ok(TickPlan { order })
        } else {
            Err(cycle_error(order.len(), n))
        }
    }
}

/// Kahn's algorithm on devices with distinct ids: the ids of the devices
/// that could be ordered, in order, and whether all of them could.
#[verifier::loop_isolation(false)]
fn kahn_order(devs: &Vec<ResolvedDevice>) -> (r: (Vec<String>, bool))
requires
    ids_distinct(views(devs@)),
ensures
    r.0.len() <= devs.len(),
    r.0.len() == ordered_count(views(devs@)),
    r.1 ==> orderable(views(devs@)) && is_execution_order(views(devs@), views(r.0@)),
    !r.1 ==> !orderable(views(devs@)) && r.0.len() < devs.len(),
{
    let ghost dv = views(devs@);
    let n = devs.len();
    let src = resolve_sources(devs);
    assert(ids_distinct(dv));

    let mut done: Vec<bool> = Vec::new();
    let mut queued: Vec<bool> = Vec::new();
    let mut queue: Vec<usize> = Vec::new();
    let mut i: usize = 0;
    while i < n
        invariant
            n == devs.len(),
            dv == views(devs@),
            i <= n,
            done.len() == i,
            queued.len() == i,
            forall|a: int| 0 <= a < i ==> !done[a],
            forall|a: int| 0 <= a < i ==> (#[trigger] queued[a] <==> n_inputs(dv, a) == 0),
            forall|t: int| 0 <= t < queue.len() ==> #[trigger] queue[t] < i && queued[queue[t] as int],
            forall|a: int| 0 <= a < i && queued[a] ==> exists|t: int| 0 <= t < queue.len() && #[trigger] queue[t] == a,
            forall|t: int| 0 <= t < queue.len() ==> n_inputs(dv, #[trigger] queue[t] as int) == 0,
        decreases n - i,
    {
        let ghost old_queue = queue@;
        done.push(false);
        let no_inputs = devs[i].config.input_variables.len() == 0;
        queued.push(no_inputs);
        if no_inputs {
            queue.push(i);
            assert(queue[queue.len() - 1] == i);
        }
        assert forall|a: int| 0 <= a <= i && queued[a] implies exists|t: int| 0 <= t < queue.len() && #[trigger] queue[t] == a by {
            if a < i {
                let t = choose|t: int| 0 <= t < old_queue.len() && old_queue[t] == a;
                assert(queue[t] == a);
            } else {
                assert(queue[queue.len() - 1] == i);
            }
        }
        i = i + 1;
    }
    assert forall|t: int| 0 <= t < queue.len() implies inputs_ready(dv, done@, #[trigger] queue[t] as int) by {
        assert(n_inputs(dv, queue[t] as int) == 0);
    }
    assert forall|a: int| 0 <= a < n && !done[a] && inputs_ready(dv, done@, a) implies #[trigger] queued[a] by {
        if n_inputs(dv, a) > 0 {
            let s0 = source_id(dv, a, 0);
            assert(provided(dv, done@, s0));
            let d = choose|d: int| 0 <= d < dv.len() && #[trigger] dev_id(dv, d) == s0 && done@[d];
            assert(!done@[d]);
        }
    }

    let mut order: Vec<String> = Vec::new();
    let ghost mut proc: Seq<int> = Seq::empty();
    let mut head: usize = 0;
    while head < queue.len()
        invariant
            n == devs.len(),
            dv == views(devs@),
            ids_distinct(dv),
            src.len() == n,
            forall|a: int| 0 <= a < n ==> #[trigger] src[a].len() == n_inputs(dv, a),
            forall|a: int, k: int| 0 <= a < n && 0 <= k < n_inputs(dv, a) ==>
                match #[trigger] src[a][k] {
                    Some(d) => d < n && dev_id(dv, d as int) == source_id(dv, a, k),
                    None => !is_device_id(dv, source_id(dv, a, k)),
                },
            done.len() == n,
            queued.len() == n,
            head <= queue.len(),
            forall|x: int, y: int| 0 <= x < proc.len() && 0 <= y < proc.len() && x != y ==> #[trigger] proc[x] != #[trigger] proc[y],
            forall|x: int| 0 <= x < proc.len() ==> 0 <= #[trigger] proc[x] < n,
            forall|a: int| 0 <= a < n ==> (#[trigger] done[a] <==> proc.contains(a)),
            views(order@) == proc.map_values(|a: int| dev_id(dv, a)),
            forall|x: int, k: int| 0 <= x < proc.len() && 0 <= k < n_inputs(dv, proc[x]) ==>
                processed_before(dv, proc, x, #[trigger] source_id(dv, proc[x], k)),
            forall|t: int| 0 <= t < queue.len() ==> #[trigger] queue[t] < n && queued[queue[t] as int],
            forall|t: int| head <= t < queue.len() ==> inputs_ready(dv, done@, #[trigger] queue[t] as int),
            forall|a: int| 0 <= a < n && queued[a] && !done[a] ==> exists|t: int| head <= t < queue.len() && #[trigger] queue[t] == a,
            forall|a: int| 0 <= a < n && !done[a] && inputs_ready(dv, done@, a) ==> #[trigger] queued[a],
            forall|a: int| 0 <= a < n && #[trigger] done[a] ==> queued[a],
        decreases count_false(queued@), queue.len() - head,
    {
        let cur = queue[head];
        head = head + 1;
        if done[cur] {
            continue;
        }
        let ghost old_done = done@;
        assert(inputs_ready(dv, old_done, cur as int));
        done.set(cur, true);
        order.push(devs[cur].config.device_id.clone());
        proof {
            let old_proc = proc;
            proc = proc.push(cur as int);
            assert(views(order@) =~= old_proc.map_values(|a: int| dev_id(dv, a)).push(dev_id(dv, cur as int)));
            assert(proc.map_values(|a: int| dev_id(dv, a)) =~= old_proc.map_values(|a: int| dev_id(dv, a)).push(dev_id(dv, cur as int)));
            assert forall|a: int| 0 <= a < n implies (#[trigger] done[a] <==> proc.contains(a)) by {
                if a == cur as int {
                    assert(proc[proc.len() - 1] == a);
                } else if old_proc.contains(a) {
                    let w = choose|w: int| 0 <= w < old_proc.len() && old_proc[w] == a;
                    assert(proc[w] == a);
                } else if proc.contains(a) {
                    let w = choose|w: int| 0 <= w < proc.len() && proc[w] == a;
                    assert(w < old_proc.len());
                    assert(old_proc[w] == a);
                }
            }
            assert forall|x: int, k: int| 0 <= x < proc.len() && 0 <= k < n_inputs(dv, proc[x]) implies
                processed_before(dv, proc, x, #[trigger] source_id(dv, proc[x], k)) by {
                let sk = source_id(dv, proc[x], k);
                if x == proc.len() - 1 {
                    assert(proc[x] == cur as int);
                    assert(provided(dv, old_done, sk));
                    let d = choose|d: int| 0 <= d < n && #[trigger] dev_id(dv, d) == sk && old_done[d];
                    assert(old_proc.contains(d));
                    let y = choose|y: int| 0 <= y < old_proc.len() && old_proc[y] == d;
                    assert(proc[y] == d);
                    assert(dev_id(dv, proc[y]) == sk);
                } else {
                    assert(proc[x] == old_proc[x]);
                    assert(processed_before(dv, old_proc, x, source_id(dv, old_proc[x], k)));
                    let y = choose|y: int| 0 <= y < x && #[trigger] dev_id(dv, old_proc[y]) == sk;
                    assert(proc[y] == old_proc[y]);
                    assert(dev_id(dv, proc[y]) == sk);
                }
            }
            assert forall|x: int, y: int| 0 <= x < proc.len() && 0 <= y < proc.len() && x != y implies #[trigger] proc[x] != #[trigger] proc[y] by {
                if x == proc.len() - 1 && y < old_proc.len() {
                    assert(old_proc.contains(proc[y]));
                } else if y == proc.len() - 1 && x < old_proc.len() {
                    assert(old_proc.contains(proc[x]));
                }
            }
            assert forall|t: int| head <= t < queue.len() implies inputs_ready(dv, done@, #[trigger] queue[t] as int) by {
                lemma_ready_monotone(dv, old_done, done@, queue[t] as int);
            }
        }

        let ghost q_before = queued@;
        let ghost qlen_before = queue.len();
        let mut j: usize = 0;
        while j < n
            invariant
                count_false(queued@) + queue.len() == count_false(q_before) + qlen_before,
                qlen_before <= queue.len(),
                n == devs.len(),
                dv == views(devs@),
                ids_distinct(dv),
                src.len() == n,
                forall|a: int| 0 <= a < n ==> #[trigger] src[a].len() == n_inputs(dv, a),
                forall|a: int, k: int| 0 <= a < n && 0 <= k < n_inputs(dv, a) ==>
                    match #[trigger] src[a][k] {
                        Some(d) => d < n && dev_id(dv, d as int) == source_id(dv, a, k),
                        None => !is_device_id(dv, source_id(dv, a, k)),
                    },
                done.len() == n,
                queued.len() == n,
                head <= queue.len(),
                j <= n,
                forall|t: int| 0 <= t < queue.len() ==> #[trigger] queue[t] < n && queued[queue[t] as int],
                forall|t: int| head <= t < queue.len() ==> inputs_ready(dv, done@, #[trigger] queue[t] as int),
                forall|a: int| 0 <= a < n && queued[a] && !done[a] ==> exists|t: int| head <= t < queue.len() && #[trigger] queue[t] == a,
                forall|a: int| 0 <= a < j && !done[a] && inputs_ready(dv, done@, a) ==> #[trigger] queued[a],
                forall|a: int| 0 <= a < n && #[trigger] done[a] ==> queued[a],
            decreases n - j,
        {
            if !done[j] && !queued[j] && ready(&src, &done, j, Ghost(dv)) {
                proof {
                    lemma_count_false_set(queued@, j as int);
                }
                let ghost old_queue = queue@;
                let ghost old_queued = queued@;
                queued.set(j, true);
                queue.push(j);
                assert(queue[queue.len() - 1] == j);
                assert forall|a: int| 0 <= a < n && queued[a] && !done[a] implies exists|t: int| head <= t < queue.len() && #[trigger] queue[t] == a by {
                    if a == j as int {
                        assert(queue[queue.len() - 1] == j);
                    } else {
                        assert(old_queued[a]);
                        let t = choose|t: int| head <= t < old_queue.len() && old_queue[t] == a;
                        assert(queue[t] == a);
                    }
                }
            }
            j = j + 1;
        }
    }

    let mut all_done = true;
    let mut a: usize = 0;
    while a < n
        invariant
            done.len() == n,
            a <= n,
            all_done == (forall|b: int| 0 <= b < a ==> done[b]),
        decreases n - a,
    {
        if !done[a] {
            all_done = false;
        }
        a = a + 1;
    }

    if !all_done {
        proof {
            assert forall|b: int| 0 <= b < n && !done[b] implies !inputs_ready(dv, done@, b) by {
                if inputs_ready(dv, done@, b) {
                    assert(queued[b]);
                }
            }
            if orderable(dv) {
                let ord = choose|ord: Seq<Seq<char>>| is_execution_order(dv, ord);
                lemma_closed_set_is_everything(dv, done@, ord);
            }
            lemma_proc_shorter(proc, done@, n as int);
            lemma_done_is_ordered_count(dv, done@, proc);
            assert(views(order@).len() == proc.len());
        }
        return (order, false);
    }
    proof {
        let ord = views(order@);
        assert forall|p: int, q: int| 0 <= p < ord.len() && 0 <= q < ord.len() && p != q implies #[trigger] ord[p] != #[trigger] ord[q] by {
            assert(ord[p] == dev_id(dv, proc[p]));
            assert(ord[q] == dev_id(dv, proc[q]));
        }
        assert forall|p: int| 0 <= p < ord.len() implies is_device_id(dv, #[trigger] ord[p]) by {
            assert(ord[p] == dev_id(dv, proc[p]));
        }
        assert forall|b: int| 0 <= b < n implies ord.contains(#[trigger] dev_id(dv, b)) by {
            assert(done[b]);
            let w = choose|w: int| 0 <= w < proc.len() && proc[w] == b;
            assert(ord[w] == dev_id(dv, b));
        }
        assert forall|b: int, k: int| 0 <= b < n && 0 <= k < n_inputs(dv, b) implies
            comes_before(ord, #[trigger] source_id(dv, b, k), dev_id(dv, b)) by {
            let sk = source_id(dv, b, k);
            assert(done[b]);
            let x = choose|x: int| 0 <= x < proc.len() && proc[x] == b;
            assert(processed_before(dv, proc, x, source_id(dv, proc[x], k)));
            let y = choose|y: int| 0 <= y < x && #[trigger] dev_id(dv, proc[y]) == sk;
            assert(ord[y] == dev_id(dv, proc[y]));
            assert(ord[x] == dev_id(dv, proc[x]));
        }
        assert(is_execution_order(dv, ord));
        lemma_proc_at_most(proc, n as int);
        lemma_done_is_ordered_count(dv, done@, proc);
        assert(views(order@).len() == proc.len());
    }
    (order, true)
}


/// The error text for a wiring that cannot be ordered.
fn cycle_error(ordered: usize, total: usize) -> (r: String)
    ensures
        r@ == cycle_message(ordered as nat, total as nat),
{
    let mut r = concat2("Wiring cycle detected \u{2014} only ", u64_text(ordered as u64).as_str());
    r.append(" of ");
    r.append(u64_text(total as u64).as_str());
    r.append(" devices could be ordered");
    r
}

// ============================================================================
// One device's step of a tick
// ============================================================================

/// The (port, value) pairs a device copies into its input ports: for each
/// input, in order, the live value of its source field, when there is one.
pub open spec fn input_copies(state: Map<Seq<char>, Map<Seq<char>, DataTypeView>>, inputs: Seq<InputVariableView>) -> Seq<(Seq<char>, DataTypeView)>
    decreases inputs.len(),
{
    if inputs.len() == 0 {
        Seq::empty()
    } else {
        let rest = input_copies(state, inputs.drop_last());
        let p = inputs.last();
        match live_field(state, p.source_device_id, p.source_field) {
            Some(v) => rest.push((p.name, v)),
            None => rest,
        }
    }
}

/// The handle after setting the given fields of device `d`, in order.
pub open spec fn apply_sets(h: PlantConfigHandleView, d: Seq<char>, copies: Seq<(Seq<char>, DataTypeView)>) -> PlantConfigHandleView
    decreases copies.len(),
{
    if copies.len() == 0 {
        h
    } else {
        after_set_field(apply_sets(h, d, copies.drop_last()), d, copies.last().0, copies.last().1)
    }
}

/// The physics work for one device in one tick: its type, its params and a
/// copy of its live fields, which the physics script updates.
pub struct PhysicsJob {
    pub device_type: String,
    pub params: Vec<Param>,
    pub fields: StrMap<DataType>,
}

/// The first step of a tick for one device: copy the live values of its
/// input sources into its input ports, then hand back the physics work for
/// it, unless it is a live device (its state comes from the real PLC) or has
/// no live state. A device id the plant does not know is skipped.
pub fn prepare_device_tick(handle: &mut PlantConfigHandle, device_id: &str) -> (r: Option<PhysicsJob>)
    ensures
        match first_index(device_ids(old(handle)@.devices), device_id@) {
            None => final(handle)@ == old(handle)@ && r is None,
            Some(i) => {
                let d = old(handle)@.devices[i];
                let h1 = apply_sets(old(handle)@, device_id@, input_copies(old(handle)@.state, d.config.input_variables));
                &&& final(handle)@ == h1
                &&& if d.type_def.physics_mode == PhysicsMode::Live || !h1.state.contains_key(device_id@) {
                    r is None
                } else {
                    r matches Some(job) && job.device_type@ == d.config.device_type
                        && views(job.params@) == d.config.params && job.fields@ == h1.state[device_id@]
                }
            },
        },
{
    let ghost h0 = handle@;
    let mut copies: Vec<(String, DataType)> = Vec::new();
    let ghost mut inputs_v: Seq<InputVariableView> = Seq::empty();
    let (mode, device_type, params) = match handle.get_resolved(device_id) {
        None => return None,
        Some(dev) => {
            let inputs = &dev.config.input_variables;
            proof { inputs_v = views(inputs@); }
            let mut k: usize = 0;
            assert(inputs_v.take(0) =~= Seq::<InputVariableView>::empty());
            assert(views(copies@).len() == 0);
            while k < inputs.len()
                invariant
                    inputs_v == views(inputs@),
                    k <= inputs.len(),
                    copy_views(copies@) == input_copies(h0.state, inputs_v.take(k as int)),
                    handle@ == h0,
                decreases inputs.len() - k,
            {
                let port = &inputs[k];
                assert(inputs_v.take(k + 1).drop_last() =~= inputs_v.take(k as int));
                assert(inputs_v[k as int] == port@);
                match handle.get_field(port.source_device_id.as_str(), port.source_field.as_str()) {
                    Some(v) => {
                        let ghost before = copy_views(copies@);
                        copies.push((port.name.clone(), v.deep_copy()));
                        assert(copy_views(copies@) =~= before.push((port@.name, v@)));
                    },
                    None => {},
                }
                k = k + 1;
            }
            assert(inputs_v.take(inputs.len() as int) =~= inputs_v);
            (dev.type_def.physics_mode, dev.config.device_type.clone(), copy_vec(&dev.config.params))
        },
    };
    let ghost cv = copy_views(copies@);
    let mut k: usize = 0;
    assert(cv.take(0) =~= Seq::<(Seq<char>, DataTypeView)>::empty());
    while k < copies.len()
        invariant
            cv == copy_views(copies@),
            k <= copies.len(),
            handle@ == apply_sets(h0, device_id@, cv.take(k as int)),
        decreases copies.len() - k,
    {
        assert(cv.take(k + 1).drop_last() =~= cv.take(k as int));
        let value = copies[k].1.deep_copy();
        handle.set_field(device_id, copies[k].0.as_str(), value);
        k = k + 1;
    }
    assert(cv.take(copies.len() as int) =~= cv);
    match mode {
        PhysicsMode::Live => None,
        PhysicsMode::Simulation => {
            match handle.get_device_state(device_id) {
                Some(fields) => Some(PhysicsJob { device_type, params, fields: fields.deep_copy_map() }),
                None => None,
            }
        },
    }
}

/// Views of (name, value) pairs.
pub open spec fn copy_views(v: Seq<(String, DataType)>) -> Seq<(Seq<char>, DataTypeView)> {
    v.map_values(|p: (String, DataType)| (p.0@, p.1@))
}

/// The input copies of a device tick change only that device's live fields:
/// every other device keeps its live state, and the configuration, the
/// registry and the resolved devices stay as they were.
pub proof fn device_tick_changes_only_its_device(
    h: PlantConfigHandleView,
    d: Seq<char>,
    copies: Seq<(Seq<char>, DataTypeView)>,
    other: Seq<char>,
)
    requires
        other != d,
    ensures
        apply_sets(h, d, copies).state.contains_key(other) == h.state.contains_key(other),
        h.state.contains_key(other) ==> apply_sets(h, d, copies).state[other] == h.state[other],
        apply_sets(h, d, copies).state.contains_key(d) == h.state.contains_key(d),
        apply_sets(h, d, copies).config == h.config,
        apply_sets(h, d, copies).registry == h.registry,
        apply_sets(h, d, copies).devices == h.devices,
        apply_sets(h, d, copies).default_tick_ms == h.default_tick_ms,
    decreases copies.len(),
{
    if copies.len() > 0 {
        device_tick_changes_only_its_device(h, d, copies.drop_last(), other);
    }
}

} // verus!
