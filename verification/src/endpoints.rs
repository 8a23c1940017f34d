//! Connector endpoints of the PLCs: their URLs, the host override used when
//! the backend reaches the PLC servers through another host, and which
//! protocols get a connector.
use vstd::prelude::*;
use crate::data::views;
use crate::schema::{NodeReadConfig, PlcConfig, PlcConfigView, PlcEndpointConfig, PlcEndpointConfigView};
use crate::plant::endpoint_url;
use crate::text::{chars_of, concat2, find, find_first, same_text, string_of_range};

verus! {

/// The endpoint of a PLC with no node reads: connectors discover the nodes
/// themselves.
pub open spec fn bare_endpoint(plc: PlcConfigView) -> PlcEndpointConfigView {
    PlcEndpointConfigView {
        name: plc.name,
        protocol: plc.protocol,
        url: endpoint_url(plc),
        node_reads: Seq::empty(),
    }
}

/// The endpoint of a PLC with no node reads.
pub fn bare_endpoint_of(plc: &PlcConfig) -> (r: PlcEndpointConfig)
    ensures
        r@ == bare_endpoint(plc@),
{
    let node_reads: Vec<NodeReadConfig> = Vec::new();
    let r = PlcEndpointConfig {
        name: plc.name.clone(),
        protocol: plc.protocol.clone(),
        url: plc.endpoint_url(),
        node_reads,
    };
    assert(views(r.node_reads@) =~= Seq::<crate::schema::NodeReadConfigView>::empty());
    r
}

/// One bare endpoint per PLC, in order.
pub fn plcs_to_endpoints(plcs: &Vec<PlcConfig>) -> (r: Vec<PlcEndpointConfig>)
    ensures
        views(r@) == views(plcs@).map_values(|p: PlcConfigView| bare_endpoint(p)),
{
    let ghost pv = views(plcs@);
    let mut out: Vec<PlcEndpointConfig> = Vec::new();
    let mut i: usize = 0;
    while i < plcs.len()
        invariant
            pv == views(plcs@),
            i <= plcs.len(),
            views(out@) == pv.take(i as int).map_values(|p: PlcConfigView| bare_endpoint(p)),
        decreases plcs.len() - i,
    {
        let e = bare_endpoint_of(&plcs[i]);
        let ghost before = views(out@);
        out.push(e);
        assert(views(out@) =~= before.push(e@));
        assert(pv.take(i + 1).map_values(|p: PlcConfigView| bare_endpoint(p))
            =~= pv.take(i as int).map_values(|p: PlcConfigView| bare_endpoint(p)).push(bare_endpoint(pv[i as int])));
        i = i + 1;
    }
    assert(pv.take(plcs.len() as int) =~= pv);
    out
}

/// The URL with its host replaced: everything from the scheme separator
/// `://` up to the first `:` after it (the host) is replaced, together with
/// the scheme, by `host`, keeping `:port/path`. A URL without a scheme
/// separator, or without a `:` after it, is kept as it is.
pub open spec fn host_rewritten(url: Seq<char>, host: Seq<char>) -> Seq<char> {
    match find_first(url, "://"@, 0) {
        None => url,
        Some(s) => match find_first(url, seq![':'], s + 3) {
            None => url,
            Some(p) => host + url.skip(p),
        },
    }
}

/// Replace the scheme and host of a URL by `host` (see `host_rewritten`).
pub fn rewrite_host(url: &str, host: &str) -> (r: String)
    ensures
        r@ == host_rewritten(url@, host@),
{
    let u = chars_of(url);
    let sep = chars_of("://");
    let colon: Vec<char> = vec![':'];
    assert(colon@ =~= seq![':']);
    proof { reveal_strlit("://"); }
    assert(sep@.len() == 3);
    match find(&u, &sep, 0) {
        None => crate::text::owned(url),
        Some(s) => {
            proof { crate::text::lemma_find_first(u@, sep@, 0); }
            assert(crate::text::first_occurrence_at(u@, sep@, 0, s as int));
            assert(crate::text::occurs_at(u@, sep@, s as int));
            assert(s + sep@.len() <= u@.len());
            assert(s + 3 <= u.len());
            let after = s + 3;
            match find(&u, &colon, after) {
                None => crate::text::owned(url),
                Some(p) => {
                    proof { crate::text::lemma_find_first(u@, colon@, after as int); }
                    assert(colon@ =~= seq![':']);
                    let rest = string_of_range(&u, p, u.len());
                    assert(u@.subrange(p as int, u@.len() as int) =~= u@.skip(p as int));
                    concat2(host, rest.as_str())
                },
            }
        },
    }
}

/// The endpoint with its URL's host replaced.
pub open spec fn with_host(e: PlcEndpointConfigView, host: Seq<char>) -> PlcEndpointConfigView {
    PlcEndpointConfigView { url: host_rewritten(e.url, host), ..e }
}

/// Point every endpoint at `override_host` when it is given and not empty
/// (the PLC servers are then reached through that host); otherwise leave the
/// endpoints as they are.
pub fn apply_uri_override(endpoints: &mut Vec<PlcEndpointConfig>, override_host: Option<&str>)
    ensures
        match override_host {
            Some(h) => if h@.len() > 0 {
                views(final(endpoints)@) == views(old(endpoints)@).map_values(|e: PlcEndpointConfigView| with_host(e, h@))
            } else {
                views(final(endpoints)@) == views(old(endpoints)@)
            },
            None => views(final(endpoints)@) == views(old(endpoints)@),
        },
{
    let host = match override_host {
        None => return,
        Some(h) => h,
    };
    if chars_of(host).len() == 0 {
        return;
    }
    let ghost ev = views(endpoints@);
    let mut i: usize = 0;
    while i < endpoints.len()
        invariant
            i <= endpoints.len(),
            ev.len() == endpoints.len(),
            forall|j: int| 0 <= j < i ==> #[trigger] views(endpoints@)[j] == with_host(ev[j], host@),
            forall|j: int| i <= j < endpoints.len() ==> #[trigger] views(endpoints@)[j] == ev[j],
        decreases endpoints.len() - i,
    {
        let url = rewrite_host(endpoints[i].url.as_str(), host);
        let mut list: Vec<PlcEndpointConfig> = Vec::new();
        std::mem::swap(&mut list, endpoints);
        let ghost before = list@;
        assert(views(before)[i as int] == ev[i as int]);
        let mut e = list.remove(i);
        assert(e == before[i as int]);
        e.url = url;
        assert(e@ == with_host(ev[i as int], host@));
        list.insert(i, e);
        assert(list@ == before.remove(i as int).insert(i as int, e));
        assert forall|j: int| 0 <= j < list.len() && j != i implies list@[j] == before[j] by {
            if j < i {
                assert(before.remove(i as int)[j] == before[j]);
            } else {
                assert(before.remove(i as int)[j - 1] == before[j]);
            }
        }
        assert(list@[i as int] == e);
        std::mem::swap(&mut list, endpoints);
        assert forall|j: int| 0 <= j < i + 1 implies #[trigger] views(endpoints@)[j] == with_host(ev[j], host@) by {
            if j < i {
                assert(endpoints@[j] == before[j]);
                assert(views(before)[j] == with_host(ev[j], host@));
            }
        }
        assert forall|j: int| i + 1 <= j < endpoints.len() implies #[trigger] views(endpoints@)[j] == ev[j] by {
            assert(endpoints@[j] == before[j]);
            assert(views(before)[j] == ev[j]);
        }
        i = i + 1;
    }
    assert(views(endpoints@) =~= ev.map_values(|e: PlcEndpointConfigView| with_host(e, host@)));
}

/// Whether an endpoint's protocol has a connector (only OPC-UA does; others
/// are skipped).
pub fn has_connector(endpoint: &PlcEndpointConfig) -> (r: bool)
    ensures
        r == (endpoint@.protocol == "opcua"@),
{
    same_text(endpoint.protocol.as_str(), "opcua")
}

/// The endpoint a newly added PLC gets a connector for: none when a
/// connector of that name already runs, else its bare endpoint, pointed at
/// the override host when one is given and not empty.
pub fn new_connector_endpoint(plc: &PlcConfig, running: &Vec<String>, override_host: Option<&str>) -> (r: Option<PlcEndpointConfig>)
    ensures
        views(running@).contains(plc@.name) ==> r is None,
        !views(running@).contains(plc@.name) ==> (r matches Some(e) && e@ == (match override_host {
            Some(h) => if h@.len() > 0 { with_host(bare_endpoint(plc@), h@) } else { bare_endpoint(plc@) },
            None => bare_endpoint(plc@),
        })),
{
    let mut i: usize = 0;
    while i < running.len()
        invariant
            i <= running.len(),
            forall|j: int| 0 <= j < i ==> #[trigger] views(running@)[j] != plc@.name,
        decreases running.len() - i,
    {
        if same_text(running[i].as_str(), plc.name.as_str()) {
            assert(views(running@)[i as int] == plc@.name);
            return None;
        }
        i = i + 1;
    }
    let mut endpoints: Vec<PlcEndpointConfig> = Vec::new();
    endpoints.push(bare_endpoint_of(plc));
    let ghost b = views(endpoints@);
    assert(b =~= seq![bare_endpoint(plc@)]);
    apply_uri_override(&mut endpoints, override_host);
    let ghost a = views(endpoints@);
    assert(a.len() == 1);
    proof {
        match override_host {
            Some(h) => if h@.len() > 0 {
                assert(a[0] == with_host(b[0], h@));
            } else {
                assert(a[0] == b[0]);
            },
            None => assert(a[0] == b[0]),
        }
    }
    assert(endpoints@[0]@ == a[0]);
    let e = endpoints.pop().unwrap();
    Some(e)
}

} // verus!
