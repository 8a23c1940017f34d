//! The SCADA side of an OPC-UA connector: turning browsed nodes into reads
//! and read results into a poll result.
use vstd::prelude::*;
use crate::data::{DataType, DataTypeView, DeepCopy, views};
use crate::strmap::StrMap;
use crate::split::{split_char, split_on};
use crate::text::concat2;
use crate::schema::{NodeReadConfigView, PlcEndpointConfig};
use std::collections::VecDeque;

verus! {

/// The device id and metric name of a browse path
/// `{plc_folder}/{device_id}/{metric_name}`: the last two pieces of a path
/// with at least three.
pub open spec fn device_metric_of(path: Option<Seq<char>>) -> Option<(Seq<char>, Seq<char>)> {
    match path {
        None => None,
        Some(p) => {
            let parts = split_on(p, '/');
            if parts.len() >= 3 {
                Some((parts[parts.len() - 2], parts[parts.len() - 1]))
            } else {
                None
            }
        },
    }
}

/// The device id and metric name a browse path names (see `device_metric_of`).
pub fn path_to_device_metric(path: &Option<String>) -> (r: Option<(String, String)>)
    ensures
        match r {
            Some((d, m)) => device_metric_of(crate::data::opt_view(*path)) == Some((d@, m@)),
            None => device_metric_of(crate::data::opt_view(*path)) is None,
        },
{
    let p = match path {
        Some(p) => p,
        None => return None,
    };
    let parts = split_char(p.as_str(), '/');
    let n = parts.len();
    if n >= 3 {
        assert(views(parts@)[n - 2] == parts@[n - 2]@);
        Some((parts[n - 2].clone(), parts[n - 1].clone()))
    } else {
        None
    }
}

/// The browse path of a child node: the parent's path, `/` and the child's
/// name; a child of the start node has its name as its path.
pub open spec fn child_path(parent: Option<Seq<char>>, name: Seq<char>) -> Seq<char> {
    match parent {
        Some(p) => p + "/"@ + name,
        None => name,
    }
}

/// The browse path of a child node (see `child_path`).
pub fn child_browse_path(parent: &Option<String>, name: &str) -> (r: String)
    ensures
        r@ == child_path(crate::data::opt_view(*parent), name@),
{
    match parent {
        Some(p) => {
            let mut r = concat2(p.as_str(), "/");
            r.append(name);
            r
        },
        None => crate::text::owned(name),
    }
}

/// How a polled node's value is decoded.
#[derive(Clone, Copy, Debug, PartialEq, Eq, Structural)]
pub enum NodeDataType {
    Float,
    Str,
    Boolean,
}

/// The decoding of a node from its `DataType` attribute, a node id
/// `(namespace, numeric identifier)` when it is numeric: in namespace 0, `1`
/// is Boolean and `12` is String; everything else, and a missing or
/// non-numeric attribute, decodes as a float.
pub open spec fn node_kind(type_id: Option<(u16, Option<u32>)>) -> NodeDataType {
    match type_id {
        Some((0, Some(1))) => NodeDataType::Boolean,
        Some((0, Some(12))) => NodeDataType::Str,
        _ => NodeDataType::Float,
    }
}

/// The decoding of a node from its `DataType` attribute (see `node_kind`).
pub fn node_data_type(type_id: Option<(u16, Option<u32>)>) -> (r: NodeDataType)
    ensures
        r == node_kind(type_id),
{
    match type_id {
        Some((ns, Some(n))) => {
            if ns == 0 && n == 1 {
                NodeDataType::Boolean
            } else if ns == 0 && n == 12 {
                NodeDataType::Str
            } else {
                NodeDataType::Float
            }
        },
        _ => NodeDataType::Float,
    }
}

/// A polled node: the device and metric its value belongs to.
#[derive(Clone, Debug)]
pub struct PolledNode {
    pub device_id: String,
    pub metric_name: String,
}

/// A browsed variable node whose node id parsed, with its browse path and
/// decoding.
#[derive(Clone, Debug)]
pub struct BrowsedVariable {
    pub browse_path: Option<String>,
    pub data_type: NodeDataType,
}

/// The reads a connector polls after a browse: for each browsed variable, in
/// order, whose path names a device and a metric, that device and metric
/// and the variable's position among the browsed variables.
pub open spec fn pollable(vars: Seq<BrowsedVariable>) -> Seq<(Seq<char>, Seq<char>, NodeDataType, int)>
    decreases vars.len(),
{
    if vars.len() == 0 {
        Seq::empty()
    } else {
        let rest = pollable(vars.drop_last());
        match device_metric_of(crate::data::opt_view(vars.last().browse_path)) {
            Some((d, m)) => rest.push((d, m, vars.last().data_type, vars.len() - 1)),
            None => rest,
        }
    }
}

/// A read built from a browse: device, metric, decoding and the index of the
/// variable it reads.
pub struct BrowseRead {
    pub device_id: String,
    pub metric_name: String,
    pub data_type: NodeDataType,
    pub index: usize,
}

/// Views of browse reads.
pub open spec fn browse_read_views(v: Seq<BrowseRead>) -> Seq<(Seq<char>, Seq<char>, NodeDataType, int)> {
    v.map_values(|r: BrowseRead| (r.device_id@, r.metric_name@, r.data_type, r.index as int))
}

/// The reads to poll after a browse (see `pollable`); variables whose path
/// does not name a device and a metric are left out.
pub fn reads_from_browse(vars: &Vec<BrowsedVariable>) -> (r: Vec<BrowseRead>)
    ensures
        browse_read_views(r@) == pollable(vars@),
{
    let mut out: Vec<BrowseRead> = Vec::new();
    let mut i: usize = 0;
    assert(vars@.take(0) =~= Seq::<BrowsedVariable>::empty());
    assert(browse_read_views(out@) =~= Seq::<(Seq<char>, Seq<char>, NodeDataType, int)>::empty());
    while i < vars.len()
        invariant
            i <= vars.len(),
            browse_read_views(out@) == pollable(vars@.take(i as int)),
        decreases vars.len() - i,
    {
        assert(vars@.take(i + 1).drop_last() =~= vars@.take(i as int));
        assert(vars@.take(i + 1).last() == vars@[i as int]);
        match path_to_device_metric(&vars[i].browse_path) {
            Some((d, m)) => {
                let rd = BrowseRead { device_id: d, metric_name: m, data_type: vars[i].data_type, index: i };
                let ghost before = browse_read_views(out@);
                out.push(rd);
                assert(browse_read_views(out@) =~= before.push((rd.device_id@, rd.metric_name@, rd.data_type, i as int)));
            },
            None => {},
        }
        i = i + 1;
    }
    assert(vars@.take(vars.len() as int) =~= vars@);
    out
}

/// The poll result of the first `k` reads: each read whose value decoded
/// sets its metric of its device (a later read of the same field wins).
pub open spec fn poll_result(
    reads: Seq<(Seq<char>, Seq<char>)>,
    values: Seq<Option<DataTypeView>>,
    k: int,
) -> Map<Seq<char>, Map<Seq<char>, DataTypeView>>
    decreases k,
{
    if k <= 0 {
        Map::empty()
    } else {
        let m = poll_result(reads, values, k - 1);
        let (d, f) = reads[k - 1];
        match values[k - 1] {
            Some(v) => m.insert(d, (if m.contains_key(d) { m[d] } else { Map::empty() }).insert(f, v)),
            None => m,
        }
    }
}

/// Views of polled nodes.
pub open spec fn polled_views(v: Seq<PolledNode>) -> Seq<(Seq<char>, Seq<char>)> {
    v.map_values(|n: PolledNode| (n.device_id@, n.metric_name@))
}

/// Views of decoded values.
pub open spec fn value_views(v: Seq<Option<DataType>>) -> Seq<Option<DataTypeView>> {
    v.map_values(|x: Option<DataType>| match x {
        Some(d) => Some(d@),
        None => None,
    })
}

/// The poll result from the reads and their decoded values, paired in order
/// (a value that did not decode is skipped; extra reads or values beyond
/// the shorter list are ignored).
pub fn collect_partial(reads: &Vec<PolledNode>, values: &Vec<Option<DataType>>) -> (r: StrMap<StrMap<DataType>>)
    ensures
        r@ == poll_result(polled_views(reads@), value_views(values@),
            if reads.len() <= values.len() { reads.len() as int } else { values.len() as int }),
{
    let n = if reads.len() <= values.len() { reads.len() } else { values.len() };
    let mut partial: StrMap<StrMap<DataType>> = StrMap::new();
    let mut i: usize = 0;
    while i < n
        invariant
            n <= reads.len(),
            n <= values.len(),
            i <= n,
            partial@ == poll_result(polled_views(reads@), value_views(values@), i as int),
        decreases n - i,
    {
        let node = &reads[i];
        assert(polled_views(reads@)[i as int] == (node.device_id@, node.metric_name@));
        match &values[i] {
            Some(v) => {
                assert(value_views(values@)[i as int] == Some(v@));
                let mut fields = match partial.get(node.device_id.as_str()) {
                    Some(existing) => existing.deep_copy_map(),
                    None => StrMap::new(),
                };
                fields.insert(node.metric_name.clone(), v.deep_copy());
                partial.insert(node.device_id.clone(), fields);
            },
            None => {
                assert(value_views(values@)[i as int] is None);
            },
        }
        i = i + 1;
    }
    partial
}

/// The decoding a node read expects, by the kind of its start value.
pub open spec fn kind_of(v: DataTypeView) -> NodeDataType {
    match v {
        DataTypeView::Float(_) => NodeDataType::Float,
        DataTypeView::Str(_) => NodeDataType::Str,
        DataTypeView::Boolean(_) => NodeDataType::Boolean,
    }
}

/// A node a connector polls: the device and metric its value belongs to,
/// the node id, and how its value is decoded.
pub struct NodeRead {
    pub device_id: String,
    pub metric_name: String,
    pub node_id: String,
    pub data_type: NodeDataType,
}

/// Views of node reads.
pub open spec fn node_read_views(v: Seq<NodeRead>) -> Seq<(Seq<char>, Seq<char>, Seq<char>, NodeDataType)> {
    v.map_values(|n: NodeRead| (n.device_id@, n.metric_name@, n.node_id@, n.data_type))
}

/// The connector of one OPC-UA endpoint: where it connects and the nodes it
/// polls, built from the endpoint's description alone.
pub struct ScadaPlcConnector {
    pub endpoint: String,
    pub plc_name: String,
    pub node_reads: Vec<NodeRead>,
}

impl ScadaPlcConnector {
    /// The connector of an endpoint, with the endpoint's name: it connects to
    /// the endpoint's URL and polls each of its node reads, decoding each by
    /// the kind of the read's start value.
    pub fn new(config: PlcEndpointConfig) -> (r: (String, ScadaPlcConnector))
        ensures
            r.0@ == config@.name,
            r.1.plc_name@ == config@.name,
            r.1.endpoint@ == config@.url,
            node_read_views(r.1.node_reads@) == config@.node_reads.map_values(|n: NodeReadConfigView|
                (n.device_id, n.metric_name, n.node_id, kind_of(n.data_type))),
    {
        let ghost target = config@.node_reads.map_values(|n: NodeReadConfigView|
            (n.device_id, n.metric_name, n.node_id, kind_of(n.data_type)));
        let mut reads: Vec<NodeRead> = Vec::new();
        let mut i: usize = 0;
        while i < config.node_reads.len()
            invariant
                target == config@.node_reads.map_values(|n: NodeReadConfigView|
                    (n.device_id, n.metric_name, n.node_id, kind_of(n.data_type))),
                i <= config.node_reads.len(),
                node_read_views(reads@) == target.take(i as int),
            decreases config.node_reads.len() - i,
        {
            let n = &config.node_reads[i];
            assert(config@.node_reads[i as int] == n@);
            let kind = match &n.data_type {
                DataType::Float(_) => NodeDataType::Float,
                DataType::Str(_) => NodeDataType::Str,
                DataType::Boolean(_) => NodeDataType::Boolean,
            };
            let rd = NodeRead {
                device_id: n.device_id.clone(),
                metric_name: n.metric_name.clone(),
                node_id: n.node_id.clone(),
                data_type: kind,
            };
            let ghost before = node_read_views(reads@);
            reads.push(rd);
            assert(node_read_views(reads@) =~= before.push(target[i as int]));
            assert(target.take(i + 1) =~= target.take(i as int).push(target[i as int]));
            i = i + 1;
        }
        assert(target.take(config.node_reads.len() as int) =~= target);
        let name = config.name.clone();
        (name, ScadaPlcConnector { endpoint: config.url, plc_name: config.name, node_reads: reads })
    }
}

// ============================================================================
// Browsing the address space
// ============================================================================

/// How deep a browse goes below the start node.
pub const BROWSE_DEPTH: u32 = 6;

/// One reference a browse of a node returned: the child's node id (as
/// text), its browse name and whether it is a variable.
#[derive(Clone, Debug)]
pub struct BrowsedRef {
    pub node_id: String,
    pub name: String,
    pub is_variable: bool,
}

/// A node found by browsing, with its path from the start node.
#[derive(Clone, Debug)]
pub struct RawNode {
    pub node_id: String,
    pub browse_name: String,
    pub browse_path: Option<String>,
    pub is_variable: bool,
}

/// A node still to browse, with its path and the depth left below it.
#[derive(Clone, Debug)]
pub struct PendingBrowse {
    pub node_id: String,
    pub path: Option<String>,
    pub depth: u32,
}

/// The nodes one browse step finds: every reference, with its path below
/// the browsed node's path.
pub open spec fn found_nodes(parent: Option<Seq<char>>, refs: Seq<BrowsedRef>) -> Seq<(Seq<char>, Seq<char>, Seq<char>, bool)> {
    refs.map_values(|r: BrowsedRef| (r.node_id@, r.name@, child_path(parent, r.name@), r.is_variable))
}

/// The nodes left to browse after one step: every reference that is not a
/// variable, in order, one level less deep.
pub open spec fn next_browses(parent: Option<Seq<char>>, depth: u32, refs: Seq<BrowsedRef>) -> Seq<(Seq<char>, Seq<char>, int)> {
    refs.filter(|r: BrowsedRef| !r.is_variable).map_values(|r: BrowsedRef| (r.node_id@, child_path(parent, r.name@), depth - 1))
}

/// Views of found nodes.
pub open spec fn raw_views(v: Seq<RawNode>) -> Seq<(Seq<char>, Seq<char>, Seq<char>, bool)> {
    v.map_values(|n: RawNode| (n.node_id@, n.browse_name@, match n.browse_path { Some(p) => p@, None => Seq::empty() }, n.is_variable))
}

/// Views of pending browses.
pub open spec fn pending_views(v: Seq<PendingBrowse>) -> Seq<(Seq<char>, Seq<char>, int)> {
    v.map_values(|p: PendingBrowse| (p.node_id@, match p.path { Some(x) => x@, None => Seq::empty() }, p.depth as int))
}

/// One browse step below a node with path `parent` and `depth` levels left:
/// the nodes found (each with a path) and the non-variable children still to
/// browse, one level less deep. A node with no depth left is not browsed.
pub fn expand_node(parent: &Option<String>, depth: u32, refs: &Vec<BrowsedRef>) -> (r: (Vec<RawNode>, Vec<PendingBrowse>))
    requires
        depth > 0,
    ensures
        raw_views(r.0@) == found_nodes(crate::data::opt_view(*parent), refs@),
        forall|i: int| 0 <= i < r.0.len() ==> (#[trigger] r.0@[i]).browse_path is Some,
        pending_views(r.1@) == next_browses(crate::data::opt_view(*parent), depth, refs@),
        forall|i: int| 0 <= i < r.1.len() ==> (#[trigger] r.1@[i]).path is Some,
{
    let ghost pv = crate::data::opt_view(*parent);
    let mut found: Vec<RawNode> = Vec::new();
    let mut next: Vec<PendingBrowse> = Vec::new();
    let mut i: usize = 0;
    assert(refs@.take(0) =~= Seq::<BrowsedRef>::empty());
    assert(refs@.take(0).filter(|r: BrowsedRef| !r.is_variable) =~= Seq::<BrowsedRef>::empty());
    while i < refs.len()
        invariant
            depth > 0,
            pv == crate::data::opt_view(*parent),
            i <= refs.len(),
            raw_views(found@) == found_nodes(pv, refs@.take(i as int)),
            forall|j: int| 0 <= j < found.len() ==> (#[trigger] found@[j]).browse_path is Some,
            pending_views(next@) == next_browses(pv, depth, refs@.take(i as int)),
            forall|j: int| 0 <= j < next.len() ==> (#[trigger] next@[j]).path is Some,
        decreases refs.len() - i,
    {
        let r = &refs[i];
        let path = child_browse_path(parent, r.name.as_str());
        let node = RawNode {
            node_id: r.node_id.clone(),
            browse_name: r.name.clone(),
            browse_path: Some(path.clone()),
            is_variable: r.is_variable,
        };
        let ghost fbefore = raw_views(found@);
        found.push(node);
        assert(refs@.take(i + 1) =~= refs@.take(i as int).push(refs@[i as int]));
        assert(raw_views(found@) =~= fbefore.push((r.node_id@, r.name@, path@, r.is_variable)));
        proof {
            refs@.take(i as int).lemma_filter_push(refs@[i as int], |r: BrowsedRef| !r.is_variable);
        }
        if !r.is_variable {
            let ghost nbefore = pending_views(next@);
            next.push(PendingBrowse { node_id: r.node_id.clone(), path: Some(path), depth: depth - 1 });
            assert(pending_views(next@) =~= nbefore.push((r.node_id@, child_path(pv, r.name@), depth - 1)));
        }
        i = i + 1;
    }
    assert(refs@.take(refs.len() as int) =~= refs@);
    (found, next)
}

/// A queued browse as a plain value: node id, path (none for the start
/// node) and depth left.
pub open spec fn entry_view(p: PendingBrowse) -> (Seq<char>, Option<Seq<char>>, int) {
    (p.node_id@, crate::data::opt_view(p.path), p.depth as int)
}

/// Views of queued browses.
pub open spec fn entry_views(v: Seq<PendingBrowse>) -> Seq<(Seq<char>, Option<Seq<char>>, int)> {
    v.map_values(|p: PendingBrowse| entry_view(p))
}

/// What one browse step adds to the queue: every child that is not a
/// variable, in order, with its path and one level less depth.
pub open spec fn queued_children(parent: Option<Seq<char>>, depth: u32, refs: Seq<BrowsedRef>) -> Seq<(Seq<char>, Option<Seq<char>>, int)> {
    next_browses(parent, depth, refs).map_values(|e: (Seq<char>, Seq<char>, int)| (e.0, Some(e.1), e.2))
}

/// How many entries at the front of a queue have no depth left (they are
/// dropped unbrowsed).
pub open spec fn spent_prefix(q: Seq<(Seq<char>, Option<Seq<char>>, int)>) -> nat
    decreases q.len(),
{
    if q.len() == 0 {
        0
    } else if q[0].2 > 0 {
        0
    } else {
        1 + spent_prefix(q.drop_first())
    }
}

/// A breadth-first browse in progress: the nodes still to browse, first in
/// first out, and the nodes found so far, in the order found.
pub struct BrowseWalk {
    queue: VecDeque<PendingBrowse>,
    found: Vec<RawNode>,
}

impl BrowseWalk {
    /// The nodes still to browse, in order.
    pub closed spec fn pending(&self) -> Seq<(Seq<char>, Option<Seq<char>>, int)> {
        entry_views(self.queue@)
    }

    /// The nodes found so far, in order.
    pub closed spec fn found_so_far(&self) -> Seq<(Seq<char>, Seq<char>, Seq<char>, bool)> {
        raw_views(self.found@)
    }

    /// A browse from `node_id`, which has no path and `BROWSE_DEPTH` levels
    /// below it; nothing found yet.
    pub fn start(node_id: String) -> (w: BrowseWalk)
        ensures
            w.pending() == seq![(node_id@, None::<Seq<char>>, BROWSE_DEPTH as int)],
            w.found_so_far() == Seq::<(Seq<char>, Seq<char>, Seq<char>, bool)>::empty(),
    {
        let mut queue: VecDeque<PendingBrowse> = VecDeque::new();
        let first = PendingBrowse { node_id, path: None, depth: BROWSE_DEPTH };
        queue.push_back(first);
        let w = BrowseWalk { queue, found: Vec::new() };
        assert(w.pending() =~= seq![entry_view(first)]);
        assert(w.found_so_far() =~= Seq::<(Seq<char>, Seq<char>, Seq<char>, bool)>::empty());
        w
    }

    /// The next node to browse: the queue's first entry with depth left.
    /// The entries before it, which have none, are dropped; `None` when the
    /// queue runs out.
    pub fn next_browse(&mut self) -> (r: Option<PendingBrowse>)
        ensures
            final(self).found_so_far() == old(self).found_so_far(),
            spent_prefix(old(self).pending()) < old(self).pending().len() ==> (r matches Some(p)
                && entry_view(p) == old(self).pending()[spent_prefix(old(self).pending()) as int]
                && final(self).pending() == old(self).pending().skip(spent_prefix(old(self).pending()) as int + 1)),
            spent_prefix(old(self).pending()) >= old(self).pending().len() ==> (r is None
                && final(self).pending() == Seq::<(Seq<char>, Option<Seq<char>>, int)>::empty()),
    {
        let ghost q = self.pending();
        let ghost k = spent_prefix(q) as int;
        let ghost found0 = self.found@;
        let ghost mut j: int = 0;
        proof {
            lemma_spent_prefix_bound(q);
            assert(q.skip(0) =~= q);
        }
        loop
            invariant
                0 <= j <= k,
                k <= q.len(),
                k == spent_prefix(q),
                self.pending() == q.skip(j),
                spent_prefix(q.skip(j)) == k - j,
                self.found@ == found0,
                found0 == old(self).found@,
                q == old(self).pending(),
            decreases self.queue@.len(),
        {
            let ghost cur = self.pending();
            match self.queue.pop_front() {
                None => {
                    assert(cur.len() == 0);
                    assert(self.pending() =~= Seq::<(Seq<char>, Option<Seq<char>>, int)>::empty());
                    return None;
                },
                Some(p) => {
                    assert(cur[0] == entry_view(p));
                    assert(self.pending() =~= cur.drop_first());
                    assert(q.skip(j).drop_first() =~= q.skip(j + 1));
                    if p.depth > 0 {
                        assert(q.skip(j)[0] == q[j]);
                        return Some(p);
                    }
                    proof {
                        j = j + 1;
                    }
                },
            }
        }
    }

    /// Record what browsing `at` returned: every reference is found (with
    /// its path below `at`), and every child that is not a variable is
    /// queued one level less deep.
    pub fn record(&mut self, at: &PendingBrowse, refs: &Vec<BrowsedRef>)
        requires
            at.depth > 0,
        ensures
            final(self).pending() == old(self).pending() + queued_children(crate::data::opt_view(at.path), at.depth, refs@),
            final(self).found_so_far() == old(self).found_so_far() + found_nodes(crate::data::opt_view(at.path), refs@),
    {
        let ghost pv = crate::data::opt_view(at.path);
        let (mut nodes, mut next) = expand_node(&at.path, at.depth, refs);
        let ghost q0 = self.pending();
        let ghost f0 = self.found@;
        let ghost nodes0 = nodes@;
        let ghost nx = next@;
        let ghost target = queued_children(pv, at.depth, refs@);
        assert(target.len() == nx.len());
        assert forall|i: int| 0 <= i < nx.len() implies #[trigger] entry_view(nx[i]) == target[i] by {
            assert(pending_views(nx)[i] == next_browses(pv, at.depth, refs@)[i]);
            assert(nx[i].path is Some);
        }
        self.found.append(&mut nodes);
        assert(self.found@ == f0 + nodes0);
        assert(raw_views(self.found@) =~= raw_views(f0) + raw_views(nodes0));
        let mut taken: usize = 0;
        let n = next.len();
        assert(nx.skip(0) =~= nx);
        assert(target.take(0) =~= Seq::<(Seq<char>, Option<Seq<char>>, int)>::empty());
        assert(q0 + target.take(0) =~= q0);
        while taken < n
            invariant
                n == nx.len(),
                taken <= n,
                next@ == nx.skip(taken as int),
                target.len() == nx.len(),
                forall|i: int| 0 <= i < nx.len() ==> #[trigger] entry_view(nx[i]) == target[i],
                self.pending() == q0 + target.take(taken as int),
                raw_views(self.found@) == raw_views(f0) + found_nodes(pv, refs@),
            decreases n - taken,
        {
            assert(next@[0] == nx[taken as int]);
            let item = next.remove(0);
            assert(next@ =~= nx.skip(taken + 1));
            let ghost before = self.queue@;
            self.queue.push_back(item);
            assert(entry_views(self.queue@) =~= entry_views(before).push(entry_view(item)));
            assert(target.take(taken + 1) =~= target.take(taken as int).push(target[taken as int]));
            assert(self.pending() =~= q0 + target.take(taken + 1));
            taken = taken + 1;
        }
        assert(target.take(n as int) =~= target);
    }

    /// The nodes found, in the order found.
    pub fn into_found(self) -> (r: Vec<RawNode>)
        ensures
            raw_views(r@) == self.found_so_far(),
    {
        self.found
    }
}

/// A queue's spent prefix is no longer than the queue.
proof fn lemma_spent_prefix_bound(q: Seq<(Seq<char>, Option<Seq<char>>, int)>)
    ensures
        spent_prefix(q) <= q.len(),
        spent_prefix(q) < q.len() ==> q[spent_prefix(q) as int].2 > 0,
    decreases q.len(),
{
    if q.len() > 0 && q[0].2 <= 0 {
        lemma_spent_prefix_bound(q.drop_first());
    }
}

// ============================================================================
// The whole walk
// ============================================================================

/// What browsing a queued entry adds to the queue: its non-variable
/// children one level less deep, or nothing when it has no depth left.
pub open spec fn entry_kids(tree: spec_fn(Seq<char>) -> Seq<BrowsedRef>, e: (Seq<char>, Option<Seq<char>>, int)) -> Seq<(Seq<char>, Option<Seq<char>>, int)> {
    if e.2 > 0 { queued_children(e.1, e.2 as u32, tree(e.0)) } else { Seq::empty() }
}

/// What browsing a queued entry finds: every reference below it, or nothing
/// when it has no depth left.
pub open spec fn entry_finds(tree: spec_fn(Seq<char>) -> Seq<BrowsedRef>, e: (Seq<char>, Option<Seq<char>>, int)) -> Seq<(Seq<char>, Seq<char>, Seq<char>, bool)> {
    if e.2 > 0 { found_nodes(e.1, tree(e.0)) } else { Seq::empty() }
}

/// The entries that browsing each of `es` queues, in order.
pub open spec fn kids_of(tree: spec_fn(Seq<char>) -> Seq<BrowsedRef>, es: Seq<(Seq<char>, Option<Seq<char>>, int)>) -> Seq<(Seq<char>, Option<Seq<char>>, int)>
    decreases es.len(),
{
    if es.len() == 0 { Seq::empty() } else { kids_of(tree, es.drop_last()) + entry_kids(tree, es.last()) }
}

/// The nodes that browsing each of `es` finds, in order.
pub open spec fn finds_of(tree: spec_fn(Seq<char>) -> Seq<BrowsedRef>, es: Seq<(Seq<char>, Option<Seq<char>>, int)>) -> Seq<(Seq<char>, Seq<char>, Seq<char>, bool)>
    decreases es.len(),
{
    if es.len() == 0 { Seq::empty() } else { finds_of(tree, es.drop_last()) + entry_finds(tree, es.last()) }
}

/// The entries `k` levels below the start node of an address space whose
/// browse of node `n` returns `tree(n)`: one per path of `k` non-variable
/// steps, in breadth-first order.
pub open spec fn browse_level(tree: spec_fn(Seq<char>) -> Seq<BrowsedRef>, start: Seq<char>, k: nat) -> Seq<(Seq<char>, Option<Seq<char>>, int)>
    decreases k,
{
    if k == 0 {
        seq![(start, None::<Seq<char>>, BROWSE_DEPTH as int)]
    } else {
        kids_of(tree, browse_level(tree, start, (k - 1) as nat))
    }
}

/// The nodes found by browsing the first `k` levels, level by level.
pub open spec fn found_by_level(tree: spec_fn(Seq<char>) -> Seq<BrowsedRef>, start: Seq<char>, k: nat) -> Seq<(Seq<char>, Seq<char>, Seq<char>, bool)>
    decreases k,
{
    if k == 0 {
        Seq::empty()
    } else {
        found_by_level(tree, start, (k - 1) as nat) + finds_of(tree, browse_level(tree, start, (k - 1) as nat))
    }
}

/// Everything within `BROWSE_DEPTH` levels of the start node, level by
/// level: every reference of every non-variable node reached by a path of
/// fewer than `BROWSE_DEPTH` steps, once per such path.
pub open spec fn breadth_first_nodes(tree: spec_fn(Seq<char>) -> Seq<BrowsedRef>, start: Seq<char>) -> Seq<(Seq<char>, Seq<char>, Seq<char>, bool)> {
    found_by_level(tree, start, (BROWSE_DEPTH + 1) as nat)
}

/// One round of a walk: `next_browse`, then `record` of what browsing that
/// node returns (its `tree` entry). A walk whose queue has run out stays
/// as it is, with an empty queue.
pub open spec fn walk_step(
    tree: spec_fn(Seq<char>) -> Seq<BrowsedRef>,
    q: Seq<(Seq<char>, Option<Seq<char>>, int)>,
    f: Seq<(Seq<char>, Seq<char>, Seq<char>, bool)>,
) -> (Seq<(Seq<char>, Option<Seq<char>>, int)>, Seq<(Seq<char>, Seq<char>, Seq<char>, bool)>) {
    let k = spent_prefix(q) as int;
    if k < q.len() {
        (q.skip(k + 1) + entry_kids(tree, q[k]), f + entry_finds(tree, q[k]))
    } else {
        (Seq::empty(), f)
    }
}

/// The walk after `n` rounds.
pub open spec fn walk_after(
    tree: spec_fn(Seq<char>) -> Seq<BrowsedRef>,
    q: Seq<(Seq<char>, Option<Seq<char>>, int)>,
    f: Seq<(Seq<char>, Seq<char>, Seq<char>, bool)>,
    n: nat,
) -> (Seq<(Seq<char>, Option<Seq<char>>, int)>, Seq<(Seq<char>, Seq<char>, Seq<char>, bool)>)
    decreases n,
{
    if n == 0 {
        (q, f)
    } else {
        let s = walk_step(tree, q, f);
        walk_after(tree, s.0, s.1, (n - 1) as nat)
    }
}

/// The walk is at level `k`, position `j`: the queue holds the rest of
/// level `k` and then what the first `j` entries of it queued, and the
/// nodes found are those of the levels above and of those `j` entries.
pub open spec fn walk_at(
    tree: spec_fn(Seq<char>) -> Seq<BrowsedRef>,
    start: Seq<char>,
    q: Seq<(Seq<char>, Option<Seq<char>>, int)>,
    f: Seq<(Seq<char>, Seq<char>, Seq<char>, bool)>,
    k: nat,
    j: int,
) -> bool {
    let lev = browse_level(tree, start, k);
    &&& k <= BROWSE_DEPTH
    &&& 0 <= j <= lev.len()
    &&& q == lev.skip(j) + kids_of(tree, lev.take(j))
    &&& f == found_by_level(tree, start, k) + finds_of(tree, lev.take(j))
}

/// Browsing entries that all have depth `d` queues entries of depth
/// `d - 1`; with no depth left it queues and finds nothing.
proof fn lemma_kids_depth(tree: spec_fn(Seq<char>) -> Seq<BrowsedRef>, es: Seq<(Seq<char>, Option<Seq<char>>, int)>, d: int)
    requires
        0 <= d <= BROWSE_DEPTH,
        forall|i: int| 0 <= i < es.len() ==> (#[trigger] es[i]).2 == d,
    ensures
        forall|i: int| 0 <= i < kids_of(tree, es).len() ==> (#[trigger] kids_of(tree, es)[i]).2 == d - 1,
        d == 0 ==> kids_of(tree, es) == Seq::<(Seq<char>, Option<Seq<char>>, int)>::empty(),
        d == 0 ==> finds_of(tree, es) == Seq::<(Seq<char>, Seq<char>, Seq<char>, bool)>::empty(),
    decreases es.len(),
{
    if es.len() > 0 {
        let p = es.drop_last();
        assert forall|i: int| 0 <= i < p.len() implies (#[trigger] p[i]).2 == d by {
            assert(p[i] == es[i]);
        }
        lemma_kids_depth(tree, p, d);
        let e = es.last();
        let ks = entry_kids(tree, e);
        if d > 0 {
            assert(e.2 as u32 == d);
            assert forall|i: int| 0 <= i < ks.len() implies (#[trigger] ks[i]).2 == d - 1 by {
                let nb = next_browses(e.1, e.2 as u32, tree(e.0));
                assert(ks[i] == (nb[i].0, Some(nb[i].1), nb[i].2));
            }
        }
        let all = kids_of(tree, es);
        assert(all == kids_of(tree, p) + ks);
        assert forall|i: int| 0 <= i < all.len() implies (#[trigger] all[i]).2 == d - 1 by {
            if i < kids_of(tree, p).len() {
                assert(all[i] == kids_of(tree, p)[i]);
            } else {
                assert(all[i] == ks[i - kids_of(tree, p).len()]);
            }
        }
        if d == 0 {
            assert(kids_of(tree, es) =~= Seq::<(Seq<char>, Option<Seq<char>>, int)>::empty());
            assert(finds_of(tree, es) =~= Seq::<(Seq<char>, Seq<char>, Seq<char>, bool)>::empty());
        }
    }
}

/// Level `k` (within the depth) holds entries of depth `BROWSE_DEPTH - k`.
proof fn lemma_level_depth(tree: spec_fn(Seq<char>) -> Seq<BrowsedRef>, start: Seq<char>, k: nat)
    requires
        k <= BROWSE_DEPTH,
    ensures
        forall|i: int| 0 <= i < browse_level(tree, start, k).len() ==>
            (#[trigger] browse_level(tree, start, k)[i]).2 == BROWSE_DEPTH - k,
    decreases k,
{
    if k > 0 {
        lemma_level_depth(tree, start, (k - 1) as nat);
        lemma_kids_depth(tree, browse_level(tree, start, (k - 1) as nat), BROWSE_DEPTH - (k - 1));
    }
}

/// The first `j + 1` entries queue and find what the first `j` do, and then
/// what the next one does.
proof fn lemma_take_one_more_entry(tree: spec_fn(Seq<char>) -> Seq<BrowsedRef>, es: Seq<(Seq<char>, Option<Seq<char>>, int)>, j: int)
    requires
        0 <= j < es.len(),
    ensures
        kids_of(tree, es.take(j + 1)) == kids_of(tree, es.take(j)) + entry_kids(tree, es[j]),
        finds_of(tree, es.take(j + 1)) == finds_of(tree, es.take(j)) + entry_finds(tree, es[j]),
{
    assert(es.take(j + 1).drop_last() =~= es.take(j));
    assert(es.take(j + 1).last() == es[j]);
}

/// A queue whose spent prefix is all of it has no entry with depth left.
proof fn lemma_spent_all(q: Seq<(Seq<char>, Option<Seq<char>>, int)>)
    requires
        spent_prefix(q) >= q.len(),
    ensures
        forall|i: int| 0 <= i < q.len() ==> (#[trigger] q[i]).2 <= 0,
    decreases q.len(),
{
    if q.len() > 0 {
        assert(q[0].2 <= 0);
        lemma_spent_all(q.drop_first());
        assert forall|i: int| 0 <= i < q.len() implies (#[trigger] q[i]).2 <= 0 by {
            if i > 0 {
                assert(q[i] == q.drop_first()[i - 1]);
            }
        }
    }
}

/// A queue with no entry with depth left is spent.
proof fn lemma_all_spent(q: Seq<(Seq<char>, Option<Seq<char>>, int)>)
    requires
        forall|i: int| 0 <= i < q.len() ==> (#[trigger] q[i]).2 <= 0,
    ensures
        spent_prefix(q) >= q.len(),
    decreases q.len(),
{
    if q.len() > 0 {
        assert(q[0].2 <= 0);
        assert forall|i: int| 0 <= i < q.drop_first().len() implies (#[trigger] q.drop_first()[i]).2 <= 0 by {
            assert(q.drop_first()[i] == q[i + 1]);
        }
        lemma_all_spent(q.drop_first());
    }
}

/// At the end of a level the walk is at the start of the next one.
proof fn lemma_next_level(tree: spec_fn(Seq<char>) -> Seq<BrowsedRef>, start: Seq<char>, q: Seq<(Seq<char>, Option<Seq<char>>, int)>, f: Seq<(Seq<char>, Seq<char>, Seq<char>, bool)>, k: nat)
    requires
        k < BROWSE_DEPTH,
        walk_at(tree, start, q, f, k, browse_level(tree, start, k).len() as int),
    ensures
        walk_at(tree, start, q, f, k + 1, 0),
{
    let lev = browse_level(tree, start, k);
    let next = browse_level(tree, start, k + 1);
    assert(lev.take(lev.len() as int) =~= lev);
    assert(lev.skip(lev.len() as int) =~= Seq::<(Seq<char>, Option<Seq<char>>, int)>::empty());
    assert(next.skip(0) =~= next);
    assert(next.take(0) =~= Seq::<(Seq<char>, Option<Seq<char>>, int)>::empty());
    assert(q =~= next.skip(0) + kids_of(tree, next.take(0)));
    assert(f =~= found_by_level(tree, start, k + 1) + finds_of(tree, next.take(0)));
}

/// When the queue of a walk at some level has run out, the walk has found
/// everything within the depth.
proof fn lemma_done_found_all(tree: spec_fn(Seq<char>) -> Seq<BrowsedRef>, start: Seq<char>, q: Seq<(Seq<char>, Option<Seq<char>>, int)>, f: Seq<(Seq<char>, Seq<char>, Seq<char>, bool)>, k: nat, j: int)
    requires
        walk_at(tree, start, q, f, k, j),
        spent_prefix(q) >= q.len(),
    ensures
        f == breadth_first_nodes(tree, start),
    decreases BROWSE_DEPTH - k,
{
    let lev = browse_level(tree, start, k);
    lemma_level_depth(tree, start, k);
    lemma_spent_all(q);
    if k == BROWSE_DEPTH {
        lemma_kids_depth(tree, lev.take(j), 0);
        lemma_kids_depth(tree, lev, 0);
        assert(found_by_level(tree, start, (BROWSE_DEPTH + 1) as nat) == found_by_level(tree, start, k) + finds_of(tree, lev));
        assert(f =~= found_by_level(tree, start, k));
    } else if j < lev.len() {
        assert(q[0] == lev.skip(j)[0]);
        assert(lev.skip(j)[0] == lev[j]);
    } else {
        lemma_next_level(tree, start, q, f, k);
        lemma_done_found_all(tree, start, q, f, k + 1, 0);
    }
}

/// A round of a walk that has not run out moves it to another position.
proof fn lemma_step_keeps_place(tree: spec_fn(Seq<char>) -> Seq<BrowsedRef>, start: Seq<char>, q: Seq<(Seq<char>, Option<Seq<char>>, int)>, f: Seq<(Seq<char>, Seq<char>, Seq<char>, bool)>, k: nat, j: int) -> (r: (nat, int))
    requires
        walk_at(tree, start, q, f, k, j),
        spent_prefix(q) < q.len(),
    ensures
        walk_at(tree, start, walk_step(tree, q, f).0, walk_step(tree, q, f).1, r.0, r.1),
    decreases BROWSE_DEPTH - k,
{
    let lev = browse_level(tree, start, k);
    lemma_level_depth(tree, start, k);
    if j == lev.len() {
        if k == BROWSE_DEPTH {
            lemma_kids_depth(tree, lev, 0);
            assert(lev.take(j) =~= lev);
            assert(q =~= Seq::<(Seq<char>, Option<Seq<char>>, int)>::empty());
            assert(false);
            (k, j)
        } else {
            lemma_next_level(tree, start, q, f, k);
            lemma_step_keeps_place(tree, start, q, f, k + 1, 0)
        }
    } else {
        if k == BROWSE_DEPTH {
            lemma_kids_depth(tree, lev.take(j), 0);
            assert forall|i: int| 0 <= i < q.len() implies (#[trigger] q[i]).2 <= 0 by {
                assert(q[i] == lev.skip(j)[i]);
                assert(lev.skip(j)[i] == lev[i + j]);
            }
            lemma_all_spent(q);
            assert(false);
            (k, j)
        } else {
            let e = lev[j];
            assert(q[0] == lev.skip(j)[0]);
            assert(lev.skip(j)[0] == e);
            assert(spent_prefix(q) == 0);
            lemma_take_one_more_entry(tree, lev, j);
            assert(q.skip(1) =~= lev.skip(j + 1) + kids_of(tree, lev.take(j)));
            assert(walk_step(tree, q, f).0 =~= lev.skip(j + 1) + kids_of(tree, lev.take(j + 1)));
            assert(walk_step(tree, q, f).1 =~= found_by_level(tree, start, k) + finds_of(tree, lev.take(j + 1)));
            (k, j + 1)
        }
    }
}

/// A browse walk is breadth first and depth limited: started at a node, and
/// run round by round (`next_browse`, then `record` of that node's
/// references), whenever its queue has run out it has found exactly every
/// reference of every non-variable node within `BROWSE_DEPTH` levels of the
/// start, once per path, level by level; variables are never browsed.
pub proof fn browse_walk_is_breadth_first(tree: spec_fn(Seq<char>) -> Seq<BrowsedRef>, start: Seq<char>, n: nat)
    ensures
        ({
            let s = walk_after(tree, seq![(start, None::<Seq<char>>, BROWSE_DEPTH as int)], Seq::empty(), n);
            spent_prefix(s.0) >= s.0.len() ==> s.1 == breadth_first_nodes(tree, start)
        }),
{
    let q0 = seq![(start, None::<Seq<char>>, BROWSE_DEPTH as int)];
    let f0 = Seq::<(Seq<char>, Seq<char>, Seq<char>, bool)>::empty();
    let lev0 = browse_level(tree, start, 0);
    assert(lev0.skip(0) =~= lev0);
    assert(lev0.take(0) =~= Seq::<(Seq<char>, Option<Seq<char>>, int)>::empty());
    assert(q0 =~= lev0.skip(0) + kids_of(tree, lev0.take(0)));
    assert(f0 =~= found_by_level(tree, start, 0) + finds_of(tree, lev0.take(0)));
    lemma_walk_runs(tree, start, q0, f0, 0, 0, n);
}

/// From a walk at some position, after any number of rounds the walk is at
/// some position or has run out having found everything.
proof fn lemma_walk_runs(tree: spec_fn(Seq<char>) -> Seq<BrowsedRef>, start: Seq<char>, q: Seq<(Seq<char>, Option<Seq<char>>, int)>, f: Seq<(Seq<char>, Seq<char>, Seq<char>, bool)>, k: nat, j: int, n: nat)
    requires
        walk_at(tree, start, q, f, k, j),
    ensures
        ({
            let s = walk_after(tree, q, f, n);
            spent_prefix(s.0) >= s.0.len() ==> s.1 == breadth_first_nodes(tree, start)
        }),
    decreases n,
{
    if n == 0 {
        if spent_prefix(q) >= q.len() {
            lemma_done_found_all(tree, start, q, f, k, j);
        }
    } else if spent_prefix(q) < q.len() {
        let (k2, j2) = lemma_step_keeps_place(tree, start, q, f, k, j);
        let s = walk_step(tree, q, f);
        lemma_walk_runs(tree, start, s.0, s.1, k2, j2, (n - 1) as nat);
    } else {
        lemma_done_found_all(tree, start, q, f, k, j);
        lemma_run_out_stays(tree, Seq::empty(), f, (n - 1) as nat);
    }
}

/// A walk that has run out stays as it is.
proof fn lemma_run_out_stays(tree: spec_fn(Seq<char>) -> Seq<BrowsedRef>, q: Seq<(Seq<char>, Option<Seq<char>>, int)>, f: Seq<(Seq<char>, Seq<char>, Seq<char>, bool)>, n: nat)
    requires
        q.len() == 0,
    ensures
        walk_after(tree, q, f, n) == (q, f),
    decreases n,
{
    if n > 0 {
        assert(walk_step(tree, q, f) == (q, f));
        lemma_run_out_stays(tree, q, f, (n - 1) as nat);
    }
}

// ============================================================================
// What a poll result holds
// ============================================================================

/// Read `i` decoded a value and no read after it, among the first `k`,
/// decoded a value for the same device and metric.
pub open spec fn last_decoded(reads: Seq<(Seq<char>, Seq<char>)>, values: Seq<Option<DataTypeView>>, k: int, i: int) -> bool {
    &&& values[i] is Some
    &&& forall|j: int| i < j < k && #[trigger] reads[j] == reads[i] ==> values[j] is None
}

/// A poll result holds exactly the decoded reads, each device with every
/// metric decoded for it, each metric with the value of its last decoded
/// read: among the first `k` reads, a device is present exactly when some
/// read of it decoded; a metric of a device is present exactly when some
/// read of that device and metric decoded; and it holds the value of the
/// last such read. No decoded metric of a device is lost to a later metric
/// of the same device.
pub proof fn poll_result_holds_decoded_reads(
    reads: Seq<(Seq<char>, Seq<char>)>,
    values: Seq<Option<DataTypeView>>,
    k: int,
)
    requires
        0 <= k <= reads.len(),
        k <= values.len(),
    ensures
        forall|d: Seq<char>| #[trigger] poll_result(reads, values, k).contains_key(d)
            <==> exists|i: int| 0 <= i < k && values[i] is Some && (#[trigger] reads[i]).0 == d,
        forall|d: Seq<char>, f: Seq<char>| poll_result(reads, values, k).contains_key(d) ==>
            (#[trigger] poll_result(reads, values, k)[d].contains_key(f)
                <==> exists|i: int| 0 <= i < k && values[i] is Some && #[trigger] reads[i] == (d, f)),
        forall|i: int| 0 <= i < k && #[trigger] last_decoded(reads, values, k, i) ==>
            poll_result(reads, values, k).contains_key(reads[i].0)
            && poll_result(reads, values, k)[reads[i].0].contains_key(reads[i].1)
            && Some(poll_result(reads, values, k)[reads[i].0][reads[i].1]) == values[i],
    decreases k,
{
    if k > 0 {
        poll_result_holds_decoded_reads(reads, values, k - 1);
        let m = poll_result(reads, values, k - 1);
        let r = poll_result(reads, values, k);
        let (d0, f0) = reads[k - 1];
        match values[k - 1] {
            None => {
                assert(r == m);
                assert forall|d: Seq<char>| #[trigger] r.contains_key(d)
                    <==> exists|i: int| 0 <= i < k && values[i] is Some && (#[trigger] reads[i]).0 == d by {
                    if exists|i: int| 0 <= i < k && values[i] is Some && (#[trigger] reads[i]).0 == d {
                        let i = choose|i: int| 0 <= i < k && values[i] is Some && (#[trigger] reads[i]).0 == d;
                        assert(i < k - 1);
                    }
                }
                assert forall|d: Seq<char>, f: Seq<char>| r.contains_key(d) implies
                    (#[trigger] r[d].contains_key(f) <==> exists|i: int| 0 <= i < k && values[i] is Some && #[trigger] reads[i] == (d, f)) by {
                    if exists|i: int| 0 <= i < k && values[i] is Some && #[trigger] reads[i] == (d, f) {
                        let i = choose|i: int| 0 <= i < k && values[i] is Some && #[trigger] reads[i] == (d, f);
                        assert(i < k - 1);
                    }
                }
                assert forall|i: int| 0 <= i < k && #[trigger] last_decoded(reads, values, k, i) implies
                    r.contains_key(reads[i].0) && r[reads[i].0].contains_key(reads[i].1)
                    && Some(r[reads[i].0][reads[i].1]) == values[i] by {
                    assert(i < k - 1);
                    assert(last_decoded(reads, values, k - 1, i));
                }
            },
            Some(v) => {
                let base = if m.contains_key(d0) { m[d0] } else { Map::<Seq<char>, DataTypeView>::empty() };
                assert(r == m.insert(d0, base.insert(f0, v)));
                assert forall|d: Seq<char>| #[trigger] r.contains_key(d)
                    <==> exists|i: int| 0 <= i < k && values[i] is Some && (#[trigger] reads[i]).0 == d by {
                    if d == d0 {
                        assert(reads[k - 1].0 == d);
                    } else if exists|i: int| 0 <= i < k && values[i] is Some && (#[trigger] reads[i]).0 == d {
                        let i = choose|i: int| 0 <= i < k && values[i] is Some && (#[trigger] reads[i]).0 == d;
                        assert(i < k - 1);
                    }
                }
                assert forall|d: Seq<char>, f: Seq<char>| r.contains_key(d) implies
                    (#[trigger] r[d].contains_key(f) <==> exists|i: int| 0 <= i < k && values[i] is Some && #[trigger] reads[i] == (d, f)) by {
                    if d == d0 && f == f0 {
                        assert(reads[k - 1] == (d, f));
                    } else if exists|i: int| 0 <= i < k && values[i] is Some && #[trigger] reads[i] == (d, f) {
                        let i = choose|i: int| 0 <= i < k && values[i] is Some && #[trigger] reads[i] == (d, f);
                        assert(i < k - 1);
                        assert(m.contains_key(d)) by {
                            assert(reads[i].0 == d);
                        }
                    } else if d == d0 {
                        if m.contains_key(d) && m[d].contains_key(f) {
                            let i = choose|i: int| 0 <= i < k - 1 && values[i] is Some && #[trigger] reads[i] == (d, f);
                            assert(false);
                        }
                    } else {
                        if m[d].contains_key(f) {
                            let i = choose|i: int| 0 <= i < k - 1 && values[i] is Some && #[trigger] reads[i] == (d, f);
                            assert(false);
                        }
                    }
                }
                assert forall|i: int| 0 <= i < k && #[trigger] last_decoded(reads, values, k, i) implies
                    r.contains_key(reads[i].0) && r[reads[i].0].contains_key(reads[i].1)
                    && Some(r[reads[i].0][reads[i].1]) == values[i] by {
                    if i < k - 1 {
                        assert(last_decoded(reads, values, k - 1, i));
                        assert(reads[k - 1] != reads[i]);
                        assert(m.contains_key(reads[i].0));
                    }
                }
            },
        }
    }
}

} // verus!
