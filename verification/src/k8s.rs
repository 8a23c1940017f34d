//! The Kubernetes reconciler's decisions: the desired simulator
//! deployments, which to create and which to delete, the manifest of a
//! simulator, and reading `kubectl` output (deployment names, node status and
//! memory sizes).
use vstd::prelude::*;
use crate::data::{DeepCopy, views, opt_view};
use crate::naming::{slugify, plc_deploy_name, spec_slugify, spec_deploy_name};
use crate::strmap::StrMap;
use crate::split::{split_char, split_on, split_whitespace, words_of, trim, trimmed, lines, lines_of};
use crate::text::{chars_of, concat2, ends_with, parse_in_range, parse_i64, parse_i32, same_text, string_of_range, vec_ends_with, owned};

verus! {

// ============================================================================
// Memory sizes
// ============================================================================

/// Integer division rounding toward zero (as Rust's `/` on integers).
pub open spec fn trunc_div(a: int, b: int) -> int {
    if a >= 0 { a / b } else { -((-a) / b) }
}

/// The value of a decimal `i64`.
pub open spec fn i64_value(s: Seq<char>) -> Option<int> {
    parse_in_range(s, true, i64::MIN as int, i64::MAX as int)
}

/// A Kubernetes memory quantity in MiB: `Ki` (divided by 1024), `Mi` (as it
/// is, as an `i32`), `Gi` (times 1024) or plain bytes (divided by 1048576);
/// results are cut to `i32` the way an `as` cast cuts them; `None` when the
/// number does not parse.
pub open spec fn mem_to_mb(s: Seq<char>) -> Option<i32> {
    if ends_with(s, "Ki"@) {
        match i64_value(s.take(s.len() - 2)) {
            Some(v) => Some(trunc_div(v, 1024) as i32),
            None => None,
        }
    } else if ends_with(s, "Mi"@) {
        match parse_in_range(s.take(s.len() - 2), true, i32::MIN as int, i32::MAX as int) {
            Some(v) => Some(v as i32),
            None => None,
        }
    } else if ends_with(s, "Gi"@) {
        match i64_value(s.take(s.len() - 2)) {
            Some(v) => Some((v * 1024) as i32),
            None => None,
        }
    } else {
        match i64_value(s) {
            Some(v) => Some(trunc_div(v, 1048576) as i32),
            None => None,
        }
    }
}

/// A `Gi` quantity whose MiB value overflows an `i64` cannot be converted
/// (the multiplication overflows); every other string can.
pub open spec fn mem_fits(s: Seq<char>) -> bool {
    ends_with(s, "Gi"@) ==> match i64_value(s.take(s.len() - 2)) {
        Some(v) => i64::MIN <= v * 1024 <= i64::MAX,
        None => true,
    }
}

/// Whether `parse_mem_to_mb` can convert `s` (see `mem_fits`).
pub fn mem_in_range(s: &str) -> (r: bool)
    ensures
        r == mem_fits(s@),
{
    let cs = chars_of(s);
    let gi = chars_of("Gi");
    proof { reveal_strlit("Gi"); }
    if !vec_ends_with(&cs, &gi) {
        return true;
    }
    let num = string_of_range(&cs, 0, cs.len() - 2);
    assert(cs@.subrange(0, cs.len() - 2) =~= s@.take(s@.len() - 2));
    match parse_i64(num.as_str()) {
        Some(v) => v >= i64::MIN / 1024 && v <= i64::MAX / 1024,
        None => true,
    }
}

/// A memory quantity in MiB (see `mem_to_mb`).
pub fn parse_mem_to_mb(s: &str) -> (r: Option<i32>)
    requires
        mem_fits(s@),
    ensures
        r == mem_to_mb(s@),
{
    let cs = chars_of(s);
    let ki = chars_of("Ki");
    let mi = chars_of("Mi");
    let gi = chars_of("Gi");
    proof {
        reveal_strlit("Ki");
        reveal_strlit("Mi");
        reveal_strlit("Gi");
    }
    if vec_ends_with(&cs, &ki) {
        let num = string_of_range(&cs, 0, cs.len() - 2);
        assert(cs@.subrange(0, cs.len() - 2) =~= s@.take(s@.len() - 2));
        match parse_i64(num.as_str()) {
            Some(v) => {
                let q = v / 1024;
                assert(q == trunc_div(v as int, 1024));
                Some(q as i32)
            },
            None => None,
        }
    } else if vec_ends_with(&cs, &mi) {
        let num = string_of_range(&cs, 0, cs.len() - 2);
        assert(cs@.subrange(0, cs.len() - 2) =~= s@.take(s@.len() - 2));
        parse_i32(num.as_str())
    } else if vec_ends_with(&cs, &gi) {
        let num = string_of_range(&cs, 0, cs.len() - 2);
        assert(cs@.subrange(0, cs.len() - 2) =~= s@.take(s@.len() - 2));
        match parse_i64(num.as_str()) {
            Some(v) => Some((v * 1024) as i32),
            None => None,
        }
    } else {
        match parse_i64(s) {
            Some(v) => {
                let q = v / 1048576;
                assert(q == trunc_div(v as int, 1048576));
                Some(q as i32)
            },
            None => None,
        }
    }
}

// ============================================================================
// Desired state and the reconcile plan
// ============================================================================

/// A simulated PLC as the database lists it.
#[derive(Clone, Debug)]
pub struct SimPlcRow {
    pub plc_id: Option<String>,
    pub name: String,
    pub deploy_node: Option<String>,
}

/// A simulator deployment that should exist.
#[derive(Clone, Debug)]
pub struct DesiredPlc {
    pub plc_id: String,
    pub deploy_name: String,
    pub deploy_target: Option<String>,
}

pub struct DesiredPlcView {
    pub plc_id: Seq<char>,
    pub deploy_name: Seq<char>,
    pub deploy_target: Option<Seq<char>>,
}

impl View for DesiredPlc {
    type V = DesiredPlcView;

    open spec fn view(&self) -> DesiredPlcView {
        DesiredPlcView { plc_id: self.plc_id@, deploy_name: self.deploy_name@, deploy_target: opt_view(self.deploy_target) }
    }
}

impl DeepCopy for DesiredPlc {
    fn deep_copy(&self) -> (r: DesiredPlc) {
        DesiredPlc {
            plc_id: self.plc_id.clone(),
            deploy_name: self.deploy_name.clone(),
            deploy_target: crate::data::copy_opt_string(&self.deploy_target),
        }
    }
}

/// The deployment a simulated PLC should have: its id (or, without one, the
/// slug of its name), the deployment name derived from that, and its node.
pub open spec fn desired_of(row: SimPlcRow) -> DesiredPlcView {
    let slug = match row.plc_id {
        Some(p) => p@,
        None => spec_slugify(row.name@),
    };
    DesiredPlcView { plc_id: slug, deploy_name: spec_deploy_name(slug), deploy_target: opt_view(row.deploy_node) }
}

/// The desired deployments by name (a later PLC with the same deployment
/// name wins).
pub open spec fn desired_map(rows: Seq<SimPlcRow>) -> Map<Seq<char>, DesiredPlcView>
    decreases rows.len(),
{
    if rows.len() == 0 {
        Map::empty()
    } else {
        desired_map(rows.drop_last()).insert(desired_of(rows.last()).deploy_name, desired_of(rows.last()))
    }
}

/// The desired deployments of the simulated PLCs, by deployment name.
pub fn desired_plcs(rows: &Vec<SimPlcRow>) -> (r: StrMap<DesiredPlc>)
    ensures
        r@ == desired_map(rows@),
{
    let mut m: StrMap<DesiredPlc> = StrMap::new();
    let mut i: usize = 0;
    assert(rows@.take(0) =~= Seq::<SimPlcRow>::empty());
    while i < rows.len()
        invariant
            i <= rows.len(),
            m@ == desired_map(rows@.take(i as int)),
        decreases rows.len() - i,
    {
        assert(rows@.take(i + 1).drop_last() =~= rows@.take(i as int));
        let row = &rows[i];
        assert(rows@.take(i + 1).last() == *row);
        let slug = match &row.plc_id {
            Some(p) => p.clone(),
            None => slugify(row.name.as_str()),
        };
        let deploy_name = plc_deploy_name(slug.as_str());
        let d = DesiredPlc {
            plc_id: slug,
            deploy_name: deploy_name.clone(),
            deploy_target: crate::data::copy_opt_string(&row.deploy_node),
        };
        assert(d@ == desired_of(*row));
        m.insert(deploy_name, d);
        i = i + 1;
    }
    assert(rows@.take(rows.len() as int) =~= rows@);
    m
}

/// What a reconcile pass does: the deployments to create and the names of
/// the deployments to delete.
pub struct ReconcilePlan {
    pub create: Vec<DesiredPlc>,
    pub delete: Vec<String>,
}

/// The deployment names to create: the desired names, in order, that are not
/// running.
pub open spec fn names_to_create(desired_names: Seq<Seq<char>>, actual: Seq<Seq<char>>) -> Seq<Seq<char>> {
    desired_names.filter(|k: Seq<char>| !actual.contains(k))
}

/// The running deployments to delete: those, in order, that are not desired.
pub open spec fn names_to_delete(desired: Map<Seq<char>, DesiredPlcView>, actual: Seq<Seq<char>>) -> Seq<Seq<char>> {
    actual.filter(|a: Seq<char>| !desired.contains_key(a))
}

/// Whether `name` is among `names`.
fn contains_name(names: &Vec<String>, name: &str) -> (r: bool)
    ensures
        r == views(names@).contains(name@),
{
    let mut i: usize = 0;
    while i < names.len()
        invariant
            i <= names.len(),
            forall|j: int| 0 <= j < i ==> #[trigger] views(names@)[j] != name@,
        decreases names.len() - i,
    {
        if same_text(names[i].as_str(), name) {
            assert(views(names@)[i as int] == name@);
            return true;
        }
        i = i + 1;
    }
    false
}

/// Compare the desired deployments with the running ones: create every
/// desired deployment that is not running, delete every running one that is
/// not desired.
pub fn reconcile_plan(desired: &StrMap<DesiredPlc>, actual: &Vec<String>) -> (r: ReconcilePlan)
    ensures
        views(r.create@) == names_to_create(desired.key_seq(), views(actual@)).map_values(|k: Seq<char>| desired@[k]),
        views(r.delete@) == names_to_delete(desired@, views(actual@)),
{
    let ghost ks = desired.key_seq();
    let ghost av = views(actual@);
    let mut create: Vec<DesiredPlc> = Vec::new();
    let mut k: usize = 0;
    assert(ks.take(0).filter(|x: Seq<char>| !av.contains(x)) =~= Seq::<Seq<char>>::empty());
    while k < desired.len()
        invariant
            ks == desired.key_seq(),
            av == views(actual@),
            k <= ks.len(),
            views(create@) == ks.take(k as int).filter(|x: Seq<char>| !av.contains(x)).map_values(|x: Seq<char>| desired@[x]),
        decreases ks.len() - k,
    {
        let name = desired.key_at(k);
        let d = desired.value_at(k);
        proof { ks.take(k as int).lemma_filter_push(ks[k as int], |x: Seq<char>| !av.contains(x)); }
        assert(ks.take(k + 1) =~= ks.take(k as int).push(ks[k as int]));
        if !contains_name(actual, name.as_str()) {
            let ghost before = views(create@);
            create.push(d.deep_copy());
            assert(views(create@) =~= before.push(d@));
            assert(ks.take(k + 1).filter(|x: Seq<char>| !av.contains(x)).map_values(|x: Seq<char>| desired@[x])
                =~= ks.take(k as int).filter(|x: Seq<char>| !av.contains(x)).map_values(|x: Seq<char>| desired@[x]).push(desired@[ks[k as int]]));
        }
        k = k + 1;
    }
    assert(ks.take(ks.len() as int) =~= ks);

    let mut delete: Vec<String> = Vec::new();
    let mut i: usize = 0;
    assert(av.take(0).filter(|a: Seq<char>| !desired@.contains_key(a)) =~= Seq::<Seq<char>>::empty());
    while i < actual.len()
        invariant
            av == views(actual@),
            i <= actual.len(),
            views(delete@) == av.take(i as int).filter(|a: Seq<char>| !desired@.contains_key(a)),
        decreases actual.len() - i,
    {
        proof { av.take(i as int).lemma_filter_push(av[i as int], |a: Seq<char>| !desired@.contains_key(a)); }
        assert(av.take(i + 1) =~= av.take(i as int).push(av[i as int]));
        if !desired.contains_key(actual[i].as_str()) {
            let ghost before = views(delete@);
            delete.push(actual[i].clone());
            assert(views(delete@) =~= before.push(av[i as int]));
        }
        i = i + 1;
    }
    assert(av.take(actual.len() as int) =~= av);
    ReconcilePlan { create, delete }
}

/// After a reconcile pass the running deployments are exactly the desired
/// ones: a name is running afterwards (it ran and was not deleted, or it was
/// created) if and only if it is desired.
pub proof fn reconcile_converges(desired: Map<Seq<char>, DesiredPlcView>, desired_names: Seq<Seq<char>>, actual: Seq<Seq<char>>, name: Seq<char>)
    requires
        forall|k: Seq<char>| desired.contains_key(k) <==> desired_names.contains(k),
    ensures
        ((actual.contains(name) && !names_to_delete(desired, actual).contains(name))
            || names_to_create(desired_names, actual).contains(name)) <==> desired.contains_key(name),
{
    broadcast use vstd::seq_lib::group_filter_ensures;
    let del = names_to_delete(desired, actual);
    let cre = names_to_create(desired_names, actual);
    if desired.contains_key(name) {
        if !actual.contains(name) {
            assert(desired_names.contains(name));
            let i = choose|i: int| 0 <= i < desired_names.len() && desired_names[i] == name;
            desired_names.lemma_filter_contains(|k: Seq<char>| !actual.contains(k), i);
        } else {
            if del.contains(name) {
                actual.lemma_filter_contains_rev(|a: Seq<char>| !desired.contains_key(a), name);
                let j = choose|j: int| 0 <= j < del.len() && del[j] == name;
                actual.lemma_filter_pred(|a: Seq<char>| !desired.contains_key(a), j);
            }
        }
    } else {
        if actual.contains(name) {
            let i = choose|i: int| 0 <= i < actual.len() && actual[i] == name;
            actual.lemma_filter_contains(|a: Seq<char>| !desired.contains_key(a), i);
        }
        if cre.contains(name) {
            desired_names.lemma_filter_contains_rev(|k: Seq<char>| !actual.contains(k), name);
        }
    }
}

// ============================================================================
// kubectl output
// ============================================================================

/// The deployment names `kubectl get deployments -o jsonpath=...` printed:
/// its whitespace-separated words.
pub fn deployment_names(output: &str) -> (r: Vec<String>)
    ensures
        views(r@) == words_of(output@),
{
    split_whitespace(output)
}

/// The names of the resources of a simulator deployment that a delete
/// removes: the deployment, its service and its volume claim
/// (`{deploy_name}-data`).
pub fn volume_claim_name(deploy_name: &str) -> (r: String)
    ensures
        r@ == deploy_name@ + "-data"@,
{
    concat2(deploy_name, "-data")
}

/// One node as the node listing reports it.
pub struct NodeEntry {
    pub k8s_node: String,
    pub deploy_target: String,
    pub arch: String,
    pub mem: String,
    pub status: String,
}

pub struct NodeEntryView {
    pub k8s_node: Seq<char>,
    pub deploy_target: Seq<char>,
    pub arch: Seq<char>,
    pub mem: Seq<char>,
    pub status: Seq<char>,
}

impl View for NodeEntry {
    type V = NodeEntryView;

    open spec fn view(&self) -> NodeEntryView {
        NodeEntryView {
            k8s_node: self.k8s_node@,
            deploy_target: self.deploy_target@,
            arch: self.arch@,
            mem: self.mem@,
            status: self.status@,
        }
    }
}

/// Everything after the fourth tab of a line whose tab-separated pieces are
/// `parts` (the fifth piece of a split into at most five).
pub open spec fn after_four(line: Seq<char>, parts: Seq<Seq<char>>) -> Seq<char> {
    line.skip((parts[0].len() + parts[1].len() + parts[2].len() + parts[3].len() + 4) as int)
}

/// The node one line of the node listing describes: the line holds the node
/// name, its `deploy_target` label, its architecture, its allocatable memory
/// and its Ready condition, separated by tabs (the last field takes the rest
/// of the line and is trimmed). Lines with fewer than five fields, or with an
/// empty `deploy_target`, describe no node; a node is `ready` when its Ready
/// condition is `True`, else `notready`.
pub open spec fn node_of_line(line: Seq<char>) -> Option<NodeEntryView> {
    let parts = split_on(line, '\t');
    if parts.len() < 5 || parts[1].len() == 0 {
        None
    } else {
        Some(NodeEntryView {
            k8s_node: parts[0],
            deploy_target: parts[1],
            arch: parts[2],
            mem: parts[3],
            status: if trimmed(after_four(line, parts)) == "True"@ { "ready"@ } else { "notready"@ },
        })
    }
}

/// The nodes of a node listing, line by line.
pub open spec fn nodes_of(lines: Seq<Seq<char>>) -> Seq<NodeEntryView>
    decreases lines.len(),
{
    if lines.len() == 0 {
        Seq::empty()
    } else {
        match node_of_line(lines.last()) {
            Some(n) => nodes_of(lines.drop_last()).push(n),
            None => nodes_of(lines.drop_last()),
        }
    }
}

/// The node described by one line of the node listing (see `node_of_line`).
pub fn node_from_line(line: &str) -> (r: Option<NodeEntry>)
    ensures
        match r {
            Some(n) => node_of_line(line@) == Some(n@),
            None => node_of_line(line@) is None,
        },
{
    let parts = split_char(line, '\t');
    if parts.len() < 5 {
        return None;
    }
    let target = chars_of(parts[1].as_str());
    if target.len() == 0 {
        return None;
    }
    let cs = chars_of(line);
    let l0 = chars_of(parts[0].as_str()).len();
    let l1 = target.len();
    let l2 = chars_of(parts[2].as_str()).len();
    let l3 = chars_of(parts[3].as_str()).len();
    proof { lemma_split_join(line@, '\t'); }
    assert(views(parts@)[0] == parts@[0]@);
    assert(views(parts@)[1] == parts@[1]@);
    assert(views(parts@)[2] == parts@[2]@);
    assert(views(parts@)[3] == parts@[3]@);
    assert(l0 + l1 + l2 + l3 + 4 <= cs.len());
    let start = l0 + l1 + l2 + l3 + 4;
    let rest = string_of_range(&cs, start, cs.len());
    assert(cs@.subrange(start as int, cs.len() as int) =~= line@.skip(start as int));
    let ready = trim(rest.as_str());
    let status = if same_text(ready.as_str(), "True") { owned("ready") } else { owned("notready") };
    assert(views(parts@)[0] == parts@[0]@);
    Some(NodeEntry {
        k8s_node: parts[0].clone(),
        deploy_target: parts[1].clone(),
        arch: parts[2].clone(),
        mem: parts[3].clone(),
        status,
    })
}

/// The lengths of the first pieces of a split, with one separator after
/// each, fit in the text.
proof fn lemma_split_join(s: Seq<char>, c: char)
    ensures
        split_on(s, c).len() >= 5 ==>
            split_on(s, c)[0].len() + split_on(s, c)[1].len() + split_on(s, c)[2].len() + split_on(s, c)[3].len() + 4 <= s.len(),
{
    lemma_split_len(s, c);
    let p = split_on(s, c);
    if p.len() >= 5 {
        lemma_pieces_first_four(p);
    }
}

/// The pieces of a split and the separators between them add up to the text.
pub open spec fn pieces_len(parts: Seq<Seq<char>>) -> int
    decreases parts.len(),
{
    if parts.len() == 0 {
        0
    } else {
        pieces_len(parts.drop_last()) + parts.last().len()
    }
}

proof fn lemma_pieces_len_nonneg(parts: Seq<Seq<char>>)
    ensures
        pieces_len(parts) >= 0,
        forall|k: int| 0 <= k <= parts.len() ==> pieces_len(#[trigger] parts.take(k)) <= pieces_len(parts),
    decreases parts.len(),
{
    if parts.len() > 0 {
        lemma_pieces_len_nonneg(parts.drop_last());
        assert forall|k: int| 0 <= k <= parts.len() implies pieces_len(#[trigger] parts.take(k)) <= pieces_len(parts) by {
            if k == parts.len() {
                assert(parts.take(k) =~= parts);
            } else {
                assert(parts.take(k) =~= parts.drop_last().take(k));
            }
        }
    }
}

proof fn lemma_split_len(s: Seq<char>, c: char)
    ensures
        split_on(s, c).len() >= 1,
        pieces_len(split_on(s, c)) + split_on(s, c).len() - 1 == s.len(),
    decreases s.len(),
{
    crate::split::lemma_split_nonempty(s, c);
    if s.len() == 0 {
        let e = seq![Seq::<char>::empty()];
        assert(e.drop_last() =~= Seq::<Seq<char>>::empty());
        assert(pieces_len(e) == pieces_len(e.drop_last()) + e.last().len());
    } else {
        lemma_split_len(s.drop_last(), c);
        let parts = split_on(s.drop_last(), c);
        let np = split_on(s, c);
        if s.last() == c {
            assert(np.drop_last() =~= parts);
            assert(np.last().len() == 0);
        } else {
            lemma_pieces_update_last(parts, parts.last().push(s.last()));
        }
    }
}

proof fn lemma_pieces_update_last(parts: Seq<Seq<char>>, x: Seq<char>)
    requires
        parts.len() >= 1,
    ensures
        pieces_len(parts.update(parts.len() - 1, x)) == pieces_len(parts) - parts.last().len() + x.len(),
{
    let u = parts.update(parts.len() - 1, x);
    assert(u.drop_last() =~= parts.drop_last());
}

proof fn lemma_pieces_first_four(p: Seq<Seq<char>>)
    requires
        p.len() >= 5,
    ensures
        p[0].len() + p[1].len() + p[2].len() + p[3].len() <= pieces_len(p),
{
    lemma_pieces_len_nonneg(p);
    reveal_with_fuel(pieces_len, 6);
    let t = p.take(4);
    assert(t.drop_last().drop_last().drop_last().drop_last() =~= Seq::<Seq<char>>::empty());
    assert(t.drop_last().drop_last().drop_last() =~= seq![p[0]]);
    assert(t.drop_last().drop_last() =~= seq![p[0], p[1]]);
    assert(t.drop_last() =~= seq![p[0], p[1], p[2]]);
    assert(pieces_len(seq![p[0]]) == p[0].len()) by {
        assert(seq![p[0]].drop_last() =~= Seq::<Seq<char>>::empty());
    }
    assert(seq![p[0], p[1]].drop_last() =~= seq![p[0]]);
    assert(seq![p[0], p[1], p[2]].drop_last() =~= seq![p[0], p[1]]);
    assert(pieces_len(t) == p[0].len() + p[1].len() + p[2].len() + p[3].len());
}

/// The nodes of the node listing `kubectl get nodes` printed, line by line
/// (see `node_of_line`).
pub fn node_entries(output: &str) -> (r: Vec<NodeEntry>)
    ensures
        views(r@) == nodes_of(lines_of(output@)),
{
    let ls = lines(output);
    let ghost lv = views(ls@);
    let mut out: Vec<NodeEntry> = Vec::new();
    let mut i: usize = 0;
    assert(lv.take(0) =~= Seq::<Seq<char>>::empty());
    while i < ls.len()
        invariant
            lv == views(ls@),
            lv == lines_of(output@),
            i <= ls.len(),
            views(out@) == nodes_of(lv.take(i as int)),
        decreases ls.len() - i,
    {
        assert(lv.take(i + 1).drop_last() =~= lv.take(i as int));
        assert(lv.take(i + 1).last() == ls@[i as int]@);
        match node_from_line(ls[i].as_str()) {
            Some(n) => {
                let ghost before = views(out@);
                out.push(n);
                assert(views(out@) =~= before.push(n@));
            },
            None => {},
        }
        i = i + 1;
    }
    assert(lv.take(ls.len() as int) =~= lv);
    out
}

// ============================================================================
// Simulator manifest
// ============================================================================

/// The node selector block of a simulator's pod spec: empty without a
/// target node, else a `nodeSelector` on the `deploy_target` label.
pub open spec fn node_selector_yaml(deploy_target: Option<Seq<char>>) -> Seq<char> {
    match deploy_target {
        Some(t) => "      nodeSelector:\n        deploy_target: "@ + t + "\n"@,
        None => Seq::empty(),
    }
}

/// The node selector block (see `node_selector_yaml`).
pub fn node_selector_block(deploy_target: &Option<String>) -> (r: String)
    ensures
        r@ == node_selector_yaml(opt_view(*deploy_target)),
{
    match deploy_target {
        Some(t) => {
            let mut r = concat2("      nodeSelector:\n        deploy_target: ", t.as_str());
            r.append("\n");
            r
        },
        None => String::new(),
    }
}

/// The manifest of a simulator: a Deployment running the simulator image
/// for the PLC (with its id, the backend URL, a 100 ms tick, its own
/// deployment name as OPC-UA host and its data volume), a 100Mi volume claim
/// and a ClusterIP Service on port 4840, all labelled `managed-by:
/// factory-sim`.
pub open spec fn sim_manifest(
    deploy_name: Seq<char>,
    namespace: Seq<char>,
    plc_id: Seq<char>,
    image: Seq<char>,
    backend_url: Seq<char>,
    node_selector_yaml: Seq<char>,
) -> Seq<char> {
    "---\napiVersion: apps/v1\nkind: Deployment\nmetadata:\n  name: "@
        + deploy_name
        + "\n  namespace: "@
        + namespace
        + "\n  labels:\n    app: "@
        + deploy_name
        + "\n    managed-by: factory-sim\nspec:\n  replicas: 1\n  selector:\n    matchLabels:\n      app: "@
        + deploy_name
        + "\n  template:\n    metadata:\n      labels:\n        app: "@
        + deploy_name
        + "\n    spec:\n"@
        + node_selector_yaml
        + "      containers:\n      - name: simulator\n        image: "@
        + image
        + "\n        imagePullPolicy: Always\n        env:\n        - name: SIM_PLC_ID\n          value: \""@
        + plc_id
        + "\"\n        - name: BACKEND_URL\n          value: \""@
        + backend_url
        + "\"\n        - name: SIM_TICK_MS\n          value: \"100\"\n        - name: OPCUA_HOST\n          value: "@
        + deploy_name
        + "\n        - name: PKI_DIR\n          value: /data/pki\n        ports:\n        - containerPort: 4840\n        - containerPort: 9000\n          name: health\n        livenessProbe:\n          httpGet:\n            path: /health\n            port: 9000\n          initialDelaySeconds: 15\n          periodSeconds: 15\n          failureThreshold: 3\n        volumeMounts:\n        - name: data\n          mountPath: /data\n      volumes:\n      - name: data\n        persistentVolumeClaim:\n          claimName: "@
        + deploy_name
        + "-data\n---\napiVersion: v1\nkind: PersistentVolumeClaim\nmetadata:\n  name: "@
        + deploy_name
        + "-data\n  namespace: "@
        + namespace
        + "\n  labels:\n    app: "@
        + deploy_name
        + "\n    managed-by: factory-sim\nspec:\n  accessModes:\n  - ReadWriteOnce\n  resources:\n    requests:\n      storage: 100Mi\n---\napiVersion: v1\nkind: Service\nmetadata:\n  name: "@
        + deploy_name
        + "\n  namespace: "@
        + namespace
        + "\n  labels:\n    app: "@
        + deploy_name
        + "\n    managed-by: factory-sim\nspec:\n  type: ClusterIP\n  selector:\n    app: "@
        + deploy_name
        + "\n  ports:\n  - port: 4840\n    targetPort: 4840\n"@
}

/// The manifest applied for a desired simulator (see `sim_manifest`).
pub fn sim_resources_yaml(d: &DesiredPlc, image: &str, backend_url: &str, namespace: &str) -> (r: String)
    ensures
        r@ == sim_manifest(d.deploy_name@, namespace@, d.plc_id@, image@, backend_url@, node_selector_yaml(opt_view(d.deploy_target))),
{
    let selector = node_selector_block(&d.deploy_target);
    let deploy_name = d.deploy_name.as_str();
    let plc_id = d.plc_id.as_str();
    let node_selector_yaml = selector.as_str();
    let mut r = owned("---\napiVersion: apps/v1\nkind: Deployment\nmetadata:\n  name: ");
    r.append(deploy_name);
    r.append("\n  namespace: ");
    r.append(namespace);
    r.append("\n  labels:\n    app: ");
    r.append(deploy_name);
    r.append("\n    managed-by: factory-sim\nspec:\n  replicas: 1\n  selector:\n    matchLabels:\n      app: ");
    r.append(deploy_name);
    r.append("\n  template:\n    metadata:\n      labels:\n        app: ");
    r.append(deploy_name);
    r.append("\n    spec:\n");
    r.append(node_selector_yaml);
    r.append("      containers:\n      - name: simulator\n        image: ");
    r.append(image);
    r.append("\n        imagePullPolicy: Always\n        env:\n        - name: SIM_PLC_ID\n          value: \"");
    r.append(plc_id);
    r.append("\"\n        - name: BACKEND_URL\n          value: \"");
    r.append(backend_url);
    r.append("\"\n        - name: SIM_TICK_MS\n          value: \"100\"\n        - name: OPCUA_HOST\n          value: ");
    r.append(deploy_name);
    r.append("\n        - name: PKI_DIR\n          value: /data/pki\n        ports:\n        - containerPort: 4840\n        - containerPort: 9000\n          name: health\n        livenessProbe:\n          httpGet:\n            path: /health\n            port: 9000\n          initialDelaySeconds: 15\n          periodSeconds: 15\n          failureThreshold: 3\n        volumeMounts:\n        - name: data\n          mountPath: /data\n      volumes:\n      - name: data\n        persistentVolumeClaim:\n          claimName: ");
    r.append(deploy_name);
    r.append("-data\n---\napiVersion: v1\nkind: PersistentVolumeClaim\nmetadata:\n  name: ");
    r.append(deploy_name);
    r.append("-data\n  namespace: ");
    r.append(namespace);
    r.append("\n  labels:\n    app: ");
    r.append(deploy_name);
    r.append("\n    managed-by: factory-sim\nspec:\n  accessModes:\n  - ReadWriteOnce\n  resources:\n    requests:\n      storage: 100Mi\n---\napiVersion: v1\nkind: Service\nmetadata:\n  name: ");
    r.append(deploy_name);
    r.append("\n  namespace: ");
    r.append(namespace);
    r.append("\n  labels:\n    app: ");
    r.append(deploy_name);
    r.append("\n    managed-by: factory-sim\nspec:\n  type: ClusterIP\n  selector:\n    app: ");
    r.append(deploy_name);
    r.append("\n  ports:\n  - port: 4840\n    targetPort: 4840\n");
    r
}

/// The `SIM_PLC_ID` entry of a simulator's environment.
pub open spec fn sim_plc_id_entry(plc_id: Seq<char>) -> Seq<char> {
    "- name: SIM_PLC_ID\n          value: \""@ + plc_id + "\""@
}

/// The manifest tells the simulator which PLC it runs: its environment sets
/// `SIM_PLC_ID` to the PLC's id (not to the deployment name), quoted.
pub proof fn manifest_names_the_plc(
    deploy_name: Seq<char>,
    namespace: Seq<char>,
    plc_id: Seq<char>,
    image: Seq<char>,
    backend_url: Seq<char>,
    node_selector_yaml: Seq<char>,
)
    ensures
        exists|k: int| 0 <= k && k + sim_plc_id_entry(plc_id).len() <= sim_manifest(deploy_name, namespace, plc_id, image, backend_url, node_selector_yaml).len()
            && #[trigger] sim_manifest(deploy_name, namespace, plc_id, image, backend_url, node_selector_yaml).subrange(k, k + sim_plc_id_entry(plc_id).len())
                == sim_plc_id_entry(plc_id),
{
    let text = sim_manifest(deploy_name, namespace, plc_id, image, backend_url, node_selector_yaml);
    let pre =
        "---\napiVersion: apps/v1\nkind: Deployment\nmetadata:\n  name: "@
            + deploy_name
            + "\n  namespace: "@
            + namespace
            + "\n  labels:\n    app: "@
            + deploy_name
            + "\n    managed-by: factory-sim\nspec:\n  replicas: 1\n  selector:\n    matchLabels:\n      app: "@
            + deploy_name
            + "\n  template:\n    metadata:\n      labels:\n        app: "@
            + deploy_name
            + "\n    spec:\n"@
            + node_selector_yaml
            + "      containers:\n      - name: simulator\n        image: "@
            + image;
    let l1 = "\n        imagePullPolicy: Always\n        env:\n        - name: SIM_PLC_ID\n          value: \""@;
    let l2 = "\"\n        - name: BACKEND_URL\n          value: \""@;
    let q = pre + l1 + plc_id + l2;
    reveal_strlit("\n        imagePullPolicy: Always\n        env:\n        - name: SIM_PLC_ID\n          value: \"");
    reveal_strlit("\"\n        - name: BACKEND_URL\n          value: \"");
    reveal_strlit("- name: SIM_PLC_ID\n          value: \"");
    reveal_strlit("\"");
    assert(text.subrange(0, q.len() as int) =~= q);
    let m = "- name: SIM_PLC_ID\n          value: \""@;
    let e = sim_plc_id_entry(plc_id);
    let k = pre.len() + l1.len() - m.len();
    assert(l1.subrange(l1.len() - m.len(), l1.len() as int) =~= m);
    assert(q.subrange(k, k + e.len()) =~= e);
    assert(text.subrange(k, k + e.len()) =~= e);
}

/// The PLC id a simulated PLC row stands for: its id, or the slug of its name.
pub open spec fn row_plc_id(row: SimPlcRow) -> Seq<char> {
    match row.plc_id {
        Some(p) => p@,
        None => spec_slugify(row.name@),
    }
}

/// Row `i` is the last row with deployment name `name`, and the desired
/// deployment under `name` is that row's: its PLC id, that name and its
/// deploy node.
pub open spec fn desired_from_row(rows: Seq<SimPlcRow>, d: DesiredPlcView, name: Seq<char>, i: int) -> bool {
    &&& 0 <= i < rows.len()
    &&& name == spec_deploy_name(row_plc_id(rows[i]))
    &&& d == (DesiredPlcView { plc_id: row_plc_id(rows[i]), deploy_name: name, deploy_target: opt_view(rows[i].deploy_node) })
    &&& forall|j: int| i < j < rows.len() ==> spec_deploy_name(row_plc_id(#[trigger] rows[j])) != name
}

/// Every simulated PLC row is desired, under the deployment name of its PLC
/// id; and every desired deployment is that of the last row with its name,
/// carrying that row's PLC id (the row's id, or the slug of its name) and
/// deploy node.
pub proof fn desired_plcs_come_from_rows(rows: Seq<SimPlcRow>)
    ensures
        forall|i: int| 0 <= i < rows.len() ==> desired_map(rows).contains_key(spec_deploy_name(row_plc_id(#[trigger] rows[i]))),
        forall|name: Seq<char>| #[trigger] desired_map(rows).contains_key(name) ==>
            exists|i: int| #[trigger] desired_from_row(rows, desired_map(rows)[name], name, i),
    decreases rows.len(),
{
    if rows.len() > 0 {
        let p = rows.drop_last();
        desired_plcs_come_from_rows(p);
        let n = rows.len() - 1;
        let last = rows.last();
        let ln = spec_deploy_name(row_plc_id(last));
        assert(desired_of(last).deploy_name == ln);
        assert forall|i: int| 0 <= i < rows.len() implies desired_map(rows).contains_key(spec_deploy_name(row_plc_id(#[trigger] rows[i]))) by {
            if i < n {
                assert(rows[i] == p[i]);
            }
        }
        assert forall|name: Seq<char>| #[trigger] desired_map(rows).contains_key(name) implies
            exists|i: int| #[trigger] desired_from_row(rows, desired_map(rows)[name], name, i) by {
            if name == ln {
                assert(desired_from_row(rows, desired_map(rows)[name], name, n));
            } else {
                let i = choose|i: int| #[trigger] desired_from_row(p, desired_map(p)[name], name, i);
                assert(rows[i] == p[i]);
                assert forall|j: int| i < j < rows.len() implies spec_deploy_name(row_plc_id(#[trigger] rows[j])) != name by {
                    if j < n {
                        assert(rows[j] == p[j]);
                    }
                }
                assert(desired_from_row(rows, desired_map(rows)[name], name, i));
            }
        }
    }
}

/// The simulator container runs the given image: the manifest holds
/// `image: ` followed by it.
pub proof fn manifest_runs_the_image(
    deploy_name: Seq<char>,
    namespace: Seq<char>,
    plc_id: Seq<char>,
    image: Seq<char>,
    backend_url: Seq<char>,
    node_selector_yaml: Seq<char>,
)
    ensures
        exists|k: int| 0 <= k && k + ("        image: "@ + image).len() <= sim_manifest(deploy_name, namespace, plc_id, image, backend_url, node_selector_yaml).len()
            && #[trigger] sim_manifest(deploy_name, namespace, plc_id, image, backend_url, node_selector_yaml).subrange(k, k + ("        image: "@ + image).len())
                == "        image: "@ + image,
{
    let text = sim_manifest(deploy_name, namespace, plc_id, image, backend_url, node_selector_yaml);
    let pre =
        "---\napiVersion: apps/v1\nkind: Deployment\nmetadata:\n  name: "@
            + deploy_name
            + "\n  namespace: "@
            + namespace
            + "\n  labels:\n    app: "@
            + deploy_name
            + "\n    managed-by: factory-sim\nspec:\n  replicas: 1\n  selector:\n    matchLabels:\n      app: "@
            + deploy_name
            + "\n  template:\n    metadata:\n      labels:\n        app: "@
            + deploy_name
            + "\n    spec:\n"@
            + node_selector_yaml;
    let l1 = "      containers:\n      - name: simulator\n        image: "@;
    let q = pre + l1 + image;
    reveal_strlit("      containers:\n      - name: simulator\n        image: ");
    reveal_strlit("        image: ");
    assert(text.subrange(0, q.len() as int) =~= q);
    let m = "        image: "@;
    let e = m + image;
    let k = pre.len() + l1.len() - m.len();
    assert(l1.subrange(l1.len() - m.len(), l1.len() as int) =~= m);
    assert(q.subrange(k, k + e.len()) =~= e);
    assert(text.subrange(k, k + e.len()) =~= e);
}

/// The simulator is told where the backend is: its environment sets
/// `BACKEND_URL` to the given URL.
pub proof fn manifest_points_at_the_backend(
    deploy_name: Seq<char>,
    namespace: Seq<char>,
    plc_id: Seq<char>,
    image: Seq<char>,
    backend_url: Seq<char>,
    node_selector_yaml: Seq<char>,
)
    ensures
        exists|k: int| 0 <= k && k + ("- name: BACKEND_URL\n          value: \""@ + backend_url).len() <= sim_manifest(deploy_name, namespace, plc_id, image, backend_url, node_selector_yaml).len()
            && #[trigger] sim_manifest(deploy_name, namespace, plc_id, image, backend_url, node_selector_yaml).subrange(k, k + ("- name: BACKEND_URL\n          value: \""@ + backend_url).len())
                == "- name: BACKEND_URL\n          value: \""@ + backend_url,
{
    let text = sim_manifest(deploy_name, namespace, plc_id, image, backend_url, node_selector_yaml);
    let pre =
        "---\napiVersion: apps/v1\nkind: Deployment\nmetadata:\n  name: "@
            + deploy_name
            + "\n  namespace: "@
            + namespace
            + "\n  labels:\n    app: "@
            + deploy_name
            + "\n    managed-by: factory-sim\nspec:\n  replicas: 1\n  selector:\n    matchLabels:\n      app: "@
            + deploy_name
            + "\n  template:\n    metadata:\n      labels:\n        app: "@
            + deploy_name
            + "\n    spec:\n"@
            + node_selector_yaml
            + "      containers:\n      - name: simulator\n        image: "@
            + image
            + "\n        imagePullPolicy: Always\n        env:\n        - name: SIM_PLC_ID\n          value: \""@
            + plc_id;
    let l1 = "\"\n        - name: BACKEND_URL\n          value: \""@;
    let q = pre + l1 + backend_url;
    reveal_strlit("\"\n        - name: BACKEND_URL\n          value: \"");
    reveal_strlit("- name: BACKEND_URL\n          value: \"");
    assert(text.subrange(0, q.len() as int) =~= q);
    let m = "- name: BACKEND_URL\n          value: \""@;
    let e = m + backend_url;
    let k = pre.len() + l1.len() - m.len();
    assert(l1.subrange(l1.len() - m.len(), l1.len() as int) =~= m);
    assert(q.subrange(k, k + e.len()) =~= e);
    assert(text.subrange(k, k + e.len()) =~= e);
}

} // verus!
