//! The engine behind peer mutations: it turns a request and the roster's
//! snapshot into the new peer record and the matching kernel change, and it
//! carries the proofs that the roster and the kernel peer table stay
//! consistent: a peer's key is in the kernel exactly when its enabled flag
//! is set.

use vstd::prelude::*;
use crate::addr::{Ipv4Cidr, allocate_post, allocate_ip, parsed_ips, format_ipv4, ipv4_str};
use crate::error::AppError;
use crate::models::{Client, opt_view};
use crate::peers::{PeerEntry, table_of, keys_of, lemma_replace_all_keys};
use crate::text::views_of;

verus! {

/// A request to create a peer: only its display name is chosen by the
/// caller.
pub struct CreateClientRequest {
    pub name: String,
}

/// A request to change a peer: absent fields keep their current value.
pub struct UpdateClientRequest {
    pub name: Option<String>,
    pub enabled: Option<bool>,
    pub expires_at: Option<String>,
}

/// A request to change the interface record: absent fields keep their
/// current value.
pub struct UpdateInterfaceRequest {
    pub listen_port: Option<i64>,
    pub ipv4_cidr: Option<String>,
    pub ipv6_cidr: Option<String>,
}

/// Merge an interface update into the interface record: absent fields keep
/// their value, and the identity and key material never change.
pub fn apply_interface_update(
    iface: &crate::models::Interface,
    req: &UpdateInterfaceRequest,
) -> (r: crate::models::Interface)
    ensures
        r.id@ == iface.id@,
        r.name@ == iface.name@,
        r.private_key@ == iface.private_key@,
        r.public_key@ == iface.public_key@,
        r.listen_port == (match req.listen_port {
            Some(p) => p,
            None => iface.listen_port,
        }),
        r.ipv4_cidr@ == (match req.ipv4_cidr {
            Some(c) => c@,
            None => iface.ipv4_cidr@,
        }),
        opt_view(r.ipv6_cidr) == (match req.ipv6_cidr {
            Some(c) => Some(c@),
            None => opt_view(iface.ipv6_cidr),
        }),
{
    crate::models::Interface {
        id: iface.id.clone(),
        name: iface.name.clone(),
        private_key: iface.private_key.clone(),
        public_key: iface.public_key.clone(),
        listen_port: match req.listen_port {
            Some(p) => p,
            None => iface.listen_port,
        },
        ipv4_cidr: match &req.ipv4_cidr {
            Some(c) => c.clone(),
            None => iface.ipv4_cidr.clone(),
        },
        ipv6_cidr: match &req.ipv6_cidr {
            Some(c) => Some(c.clone()),
            None => match &iface.ipv6_cidr {
                Some(c) => Some(c.clone()),
                None => None,
            },
        },
    }
}

/// Whether a peer belongs in kernel device state.
pub open spec fn spec_enabled(c: Client) -> bool {
    c.enabled != 0
}

/// The enabled peers of a roster, in order.
pub open spec fn enabled_clients(s: Seq<Client>) -> Seq<Client> {
    s.filter(|c: Client| spec_enabled(c))
}

/// No two roster records carry the same public key.
pub open spec fn unique_client_keys(s: Seq<Client>) -> bool {
    forall|i: int, j: int| 0 <= i < j < s.len()
        ==> s[i].public_key@ != s[j].public_key@
}

/// The single-host allowed-IP text of an address string.
pub open spec fn slash32(ip: Seq<char>) -> Seq<char> {
    ip + seq!['/', '3', '2']
}

/// The kernel entry a peer record stands for: its key material, allowed
/// exactly its own address.
pub open spec fn entry_matches(e: PeerEntry, c: Client) -> bool {
    e.public_key@ == c.public_key@
    && e.preshared_key@ == c.preshared_key@
    && views_of(e.allowed_ips@) == seq![slash32(c.ipv4@)]
}

/// The kernel peer entry for a peer record.
pub fn client_to_peer_entry(c: &Client) -> (r: PeerEntry)
    ensures
        entry_matches(r, *c),
{
    proof {
        reveal_strlit("/32");
    }
    let mut ip = c.ipv4.clone();
    ip.append("/32");
    let mut ips: Vec<String> = Vec::new();
    ips.push(ip);
    let r = PeerEntry {
        public_key: c.public_key.clone(),
        preshared_key: c.preshared_key.clone(),
        allowed_ips: ips,
    };
    proof {
        assert(r.allowed_ips@[0]@ =~= slash32(c.ipv4@));
        assert(views_of(r.allowed_ips@) =~~= seq![slash32(c.ipv4@)]);
    }
    r
}

/// Kernel device state is consistent with the roster: every enabled peer's
/// public key is present, every disabled peer's key absent.
pub open spec fn consistent(
    roster: Seq<Client>,
    kernel: Map<Seq<char>, (Seq<char>, Seq<Seq<char>>)>,
) -> bool {
    forall|i: int| 0 <= i < roster.len()
        ==> (spec_enabled(roster[i])
            <==> kernel.dom().contains(#[trigger] roster[i].public_key@))
}

/// Build the new peer record for a creation request. The address is the
/// allocator's choice for the given roster snapshot; exhaustion is a
/// client-facing rejection. The record starts enabled, with fresh key
/// material, a single IPv4 address and no expiry.
pub fn create_client(
    cidr: &Ipv4Cidr,
    used: &Vec<String>,
    id: String,
    name: String,
    public_key: String,
    preshared_key: String,
    created_at: String,
) -> (r: Result<Client, AppError>)
    requires
        cidr.wf(),
    ensures
        match r {
            Ok(c) => {
                &&& exists|a: u32| allocate_post(*cidr, parsed_ips(views_of(used@)), Some(a))
                    && #[trigger] c.ipv4@ == ipv4_str(a)
                &&& c.id@ == id@
                &&& c.name@ == name@
                &&& c.public_key@ == public_key@
                &&& c.preshared_key@ == preshared_key@
                &&& c.ipv6 is None
                &&& c.enabled == 1
                &&& c.created_at@ == created_at@
                &&& c.expires_at is None
                &&& c.download_url is None
                &&& c.one_time_link is None
            },
            Err(e) => allocate_post(*cidr, parsed_ips(views_of(used@)), None::<u32>)
                && (e matches AppError::BadRequest(m) && m@ == "No available IP addresses"@),
        },
{
    let ip = match allocate_ip(cidr, used) {
        Some(a) => a,
        None => {
            return Err(AppError::BadRequest(String::from_str("No available IP addresses")));
        },
    };
    let ipv4 = format_ipv4(ip);
    Ok(Client {
        id,
        name,
        public_key,
        preshared_key,
        ipv4,
        ipv6: None,
        enabled: 1,
        created_at,
        expires_at: None,
        download_url: None,
        one_time_link: None,
    })
}

/// Merge an update request into a peer record: absent fields keep their
/// value, and the enabled flag is normalized to one or zero. Key material,
/// address and identity never change.
pub fn apply_client_update(c: &Client, req: &UpdateClientRequest) -> (r: Client)
    ensures
        r.id@ == c.id@,
        r.public_key@ == c.public_key@,
        r.preshared_key@ == c.preshared_key@,
        r.ipv4@ == c.ipv4@,
        opt_view(r.ipv6) == opt_view(c.ipv6),
        r.created_at@ == c.created_at@,
        opt_view(r.download_url) == opt_view(c.download_url),
        opt_view(r.one_time_link) == opt_view(c.one_time_link),
        r.name@ == (match req.name {
            Some(n) => n@,
            None => c.name@,
        }),
        r.enabled == (if (match req.enabled {
            Some(b) => b,
            None => c.enabled != 0,
        }) { 1int } else { 0int }),
        opt_view(r.expires_at) == (match req.expires_at {
            Some(e) => Some(e@),
            None => opt_view(c.expires_at),
        }),
        spec_enabled(r) == (match req.enabled {
            Some(b) => b,
            None => spec_enabled(*c),
        }),
{
    let name = match &req.name {
        Some(n) => n.clone(),
        None => c.name.clone(),
    };
    let enabled_flag = match req.enabled {
        Some(b) => b,
        None => c.enabled != 0,
    };
    let expires_at = match &req.expires_at {
        Some(e) => Some(e.clone()),
        None => match &c.expires_at {
            Some(e) => Some(e.clone()),
            None => None,
        },
    };
    Client {
        id: c.id.clone(),
        name,
        public_key: c.public_key.clone(),
        preshared_key: c.preshared_key.clone(),
        ipv4: c.ipv4.clone(),
        ipv6: match &c.ipv6 {
            Some(v) => Some(v.clone()),
            None => None,
        },
        enabled: if enabled_flag { 1 } else { 0 },
        created_at: c.created_at.clone(),
        expires_at,
        download_url: match &c.download_url {
            Some(v) => Some(v.clone()),
            None => None,
        },
        one_time_link: match &c.one_time_link {
            Some(v) => Some(v.clone()),
            None => None,
        },
    }
}

/// The kernel entries for the enabled peers of a roster, in roster order:
/// what startup hands to the synchronizer's full replace.
pub fn enabled_peer_entries(clients: &Vec<Client>) -> (r: Vec<PeerEntry>)
    ensures
        r@.len() == enabled_clients(clients@).len(),
        forall|i: int| 0 <= i < r@.len()
            ==> entry_matches(#[trigger] r@[i], enabled_clients(clients@)[i]),
{
    let mut out: Vec<PeerEntry> = Vec::new();
    let mut i: usize = 0;
    proof {
        reveal(Seq::filter);
        assert(clients@.take(0) =~= Seq::<Client>::empty());
        assert(enabled_clients(clients@.take(0)) =~= Seq::<Client>::empty());
    }
    while i < clients.len()
        invariant
            0 <= i <= clients@.len(),
            out@.len() == enabled_clients(clients@.take(i as int)).len(),
            forall|j: int| 0 <= j < out@.len()
                ==> entry_matches(#[trigger] out@[j],
                    enabled_clients(clients@.take(i as int))[j]),
        decreases clients@.len() - i,
    {
        proof {
            reveal(Seq::filter);
            assert(clients@.take(i + 1).drop_last() =~= clients@.take(i as int));
            assert(clients@.take(i + 1).last() == clients@[i as int]);
        }
        if clients[i].enabled != 0 {
            let e = client_to_peer_entry(&clients[i]);
            out.push(e);
            proof {
                assert(enabled_clients(clients@.take(i + 1))
                    =~= enabled_clients(clients@.take(i as int)).push(clients@[i as int]));
            }
        } else {
            proof {
                assert(enabled_clients(clients@.take(i + 1))
                    =~= enabled_clients(clients@.take(i as int)));
            }
        }
        i = i + 1;
    }
    proof {
        assert(clients@.take(clients@.len() as int) =~= clients@);
    }
    out
}

/// Everything a filtered sequence holds was in the sequence it came from.
proof fn lemma_filter_from<A>(s: Seq<A>, pred: spec_fn(A) -> bool)
    ensures
        forall|j: int| 0 <= j < s.filter(pred).len()
            ==> exists|m: int| 0 <= m < s.len() && s[m] == #[trigger] s.filter(pred)[j],
    decreases s.len(),
{
    reveal(Seq::filter);
    if s.len() > 0 {
        let t = s.drop_last();
        lemma_filter_from(t, pred);
        assert forall|j: int| 0 <= j < s.filter(pred).len()
            implies exists|m: int| 0 <= m < s.len() && s[m] == #[trigger] s.filter(pred)[j] by {
            if pred(s.last()) && j == s.filter(pred).len() - 1 {
                assert(s[s.len() - 1] == s.filter(pred)[j]);
            } else {
                let m = choose|m: int| 0 <= m < t.len() && t[m] == #[trigger] t.filter(pred)[j];
                assert(s[m] == s.filter(pred)[j]);
            }
        }
    }
}

/// After startup's full replace with the enabled peers' entries, kernel
/// state is consistent with the roster: exactly the enabled peers' public
/// keys are present. This is the restart-recovery property.
pub proof fn lemma_startup_consistent(roster: Seq<Client>, es: Seq<PeerEntry>)
    requires
        unique_client_keys(roster),
        es.len() == enabled_clients(roster).len(),
        forall|i: int| 0 <= i < es.len()
            ==> entry_matches(#[trigger] es[i], enabled_clients(roster)[i]),
    ensures
        consistent(roster, table_of(es)),
{
    broadcast use vstd::seq_lib::group_filter_ensures;

    lemma_replace_all_keys(es);
    let pred = |c: Client| spec_enabled(c);
    let filtered = enabled_clients(roster);
    lemma_filter_from(roster, pred);
    assert forall|i: int| 0 <= i < roster.len()
        implies (spec_enabled(roster[i])
            <==> table_of(es).dom().contains(#[trigger] roster[i].public_key@)) by {
        let k = roster[i].public_key@;
        if spec_enabled(roster[i]) {
            // The peer survives the filter, so some entry carries its key.
            assert(roster.filter(pred).contains(roster[i]));
            let j = choose|j: int| 0 <= j < filtered.len() && filtered[j] == roster[i];
            assert(es[j].public_key@ == k);
            assert(keys_of(es).contains(k));
        } else {
            if table_of(es).dom().contains(k) {
                let j = choose|j: int| 0 <= j < es.len() && #[trigger] es[j].public_key@ == k;
                let c = filtered[j];
                assert(c.public_key@ == k && spec_enabled(c));
                let m = choose|m: int| 0 <= m < roster.len() && roster[m] == c;
                if m != i {
                    assert(roster[m].public_key@ != roster[i].public_key@);
                }
                assert(false);
            }
        }
    }
}

/// Creating an enabled peer with a fresh key and installing that key keeps
/// roster and kernel consistent.
pub proof fn lemma_create_consistent(
    roster: Seq<Client>,
    kernel: Map<Seq<char>, (Seq<char>, Seq<Seq<char>>)>,
    c: Client,
    v: (Seq<char>, Seq<Seq<char>>),
)
    requires
        consistent(roster, kernel),
        spec_enabled(c),
        forall|j: int| 0 <= j < roster.len() ==> #[trigger] roster[j].public_key@ != c.public_key@,
    ensures
        consistent(roster.push(c), kernel.insert(c.public_key@, v)),
{
    let roster2 = roster.push(c);
    assert forall|i: int| 0 <= i < roster2.len()
        implies (spec_enabled(roster2[i])
            <==> kernel.insert(c.public_key@, v).dom().contains(
                #[trigger] roster2[i].public_key@)) by {
        if i < roster.len() {
            assert(roster2[i] == roster[i]);
        } else {
            assert(roster2[i] == c);
        }
    }
}

/// Marking a peer enabled and installing its key keeps roster and kernel
/// consistent; the other peers' presence is untouched.
pub proof fn lemma_enable_consistent(
    roster: Seq<Client>,
    kernel: Map<Seq<char>, (Seq<char>, Seq<Seq<char>>)>,
    i: int,
    c2: Client,
    v: (Seq<char>, Seq<Seq<char>>),
)
    requires
        consistent(roster, kernel),
        unique_client_keys(roster),
        0 <= i < roster.len(),
        c2.public_key@ == roster[i].public_key@,
        spec_enabled(c2),
    ensures
        consistent(roster.update(i, c2), kernel.insert(roster[i].public_key@, v)),
{
    let roster2 = roster.update(i, c2);
    let kernel2 = kernel.insert(roster[i].public_key@, v);
    assert forall|j: int| 0 <= j < roster2.len()
        implies (spec_enabled(roster2[j])
            <==> kernel2.dom().contains(#[trigger] roster2[j].public_key@)) by {
        if j != i {
            assert(roster2[j] == roster[j]);
            if j < i {
                assert(roster[j].public_key@ != roster[i].public_key@);
            } else {
                assert(roster[i].public_key@ != roster[j].public_key@);
            }
        }
    }
}

/// Marking a peer disabled and removing its key keeps roster and kernel
/// consistent; exactly that key leaves, the other peers' presence is
/// untouched.
pub proof fn lemma_disable_consistent(
    roster: Seq<Client>,
    kernel: Map<Seq<char>, (Seq<char>, Seq<Seq<char>>)>,
    i: int,
    c2: Client,
)
    requires
        consistent(roster, kernel),
        unique_client_keys(roster),
        0 <= i < roster.len(),
        c2.public_key@ == roster[i].public_key@,
        !spec_enabled(c2),
    ensures
        consistent(roster.update(i, c2), kernel.remove(roster[i].public_key@)),
{
    let roster2 = roster.update(i, c2);
    let kernel2 = kernel.remove(roster[i].public_key@);
    assert forall|j: int| 0 <= j < roster2.len()
        implies (spec_enabled(roster2[j])
            <==> kernel2.dom().contains(#[trigger] roster2[j].public_key@)) by {
        if j != i {
            assert(roster2[j] == roster[j]);
            if j < i {
                assert(roster[j].public_key@ != roster[i].public_key@);
            } else {
                assert(roster[i].public_key@ != roster[j].public_key@);
            }
        }
    }
}

/// Deleting a peer's record and removing its key keeps roster and kernel
/// consistent.
pub proof fn lemma_delete_consistent(
    roster: Seq<Client>,
    kernel: Map<Seq<char>, (Seq<char>, Seq<Seq<char>>)>,
    i: int,
)
    requires
        consistent(roster, kernel),
        unique_client_keys(roster),
        0 <= i < roster.len(),
    ensures
        consistent(roster.remove(i), kernel.remove(roster[i].public_key@)),
{
    let roster2 = roster.remove(i);
    let kernel2 = kernel.remove(roster[i].public_key@);
    assert forall|j: int| 0 <= j < roster2.len()
        implies (spec_enabled(roster2[j])
            <==> kernel2.dom().contains(#[trigger] roster2[j].public_key@)) by {
        if j < i {
            assert(roster2[j] == roster[j]);
            assert(roster[j].public_key@ != roster[i].public_key@);
        } else {
            assert(roster2[j] == roster[j + 1]);
            assert(roster[i].public_key@ != roster[j + 1].public_key@);
        }
    }
}

} // verus!
