//! The peer synchronizer and its model of kernel device state: a table of
//! peers keyed by public key. The kernel's own table is reached through the
//! trusted device calls below; the model records what those calls were told,
//! and the synchronizer's contracts are stated over it.

use vstd::prelude::*;
use crate::addr::{parse_cidr, spec_parse_cidr};
use crate::keys::{is_valid_key_b64, valid_key_b64};
use crate::text::{str_eq, views_of};

verus! {

/// One peer entry as handed to the kernel: base64 public key, base64
/// preshared key, and the allowed-IP prefixes in CIDR text.
pub struct PeerEntry {
    pub public_key: String,
    pub preshared_key: String,
    pub allowed_ips: Vec<String>,
}

/// What a table holds for a public key: the preshared key and allowed IPs.
pub open spec fn entry_val(e: PeerEntry) -> (Seq<char>, Seq<Seq<char>>) {
    (e.preshared_key@, views_of(e.allowed_ips@))
}

impl PeerEntry {
    /// An equal entry: same key material and allowed IPs.
    pub fn duplicate(&self) -> (r: PeerEntry)
        ensures
            r.public_key@ == self.public_key@,
            entry_val(r) == entry_val(*self),
    {
        let mut ips: Vec<String> = Vec::new();
        let mut i: usize = 0;
        while i < self.allowed_ips.len()
            invariant
                0 <= i <= self.allowed_ips@.len(),
                ips@.len() == i,
                forall|j: int| 0 <= j < i ==> ips@[j]@ == self.allowed_ips@[j]@,
            decreases self.allowed_ips@.len() - i,
        {
            ips.push(self.allowed_ips[i].clone());
            i = i + 1;
        }
        let r = PeerEntry {
            public_key: self.public_key.clone(),
            preshared_key: self.preshared_key.clone(),
            allowed_ips: ips,
        };
        proof {
            assert(views_of(r.allowed_ips@) =~= views_of(self.allowed_ips@));
        }
        r
    }
}

/// The peer table that a sequence of entries denotes; a later entry for the
/// same key overrides an earlier one, as a kernel device update would.
pub open spec fn table_of(s: Seq<PeerEntry>) -> Map<Seq<char>, (Seq<char>, Seq<Seq<char>>)>
    decreases s.len(),
{
    if s.len() == 0 {
        Map::empty()
    } else {
        table_of(s.drop_last()).insert(s.last().public_key@, entry_val(s.last()))
    }
}

/// A key is in the denoted table exactly when some entry carries it.
pub proof fn lemma_table_of_dom(s: Seq<PeerEntry>)
    ensures
        forall|k: Seq<char>| #[trigger] table_of(s).dom().contains(k)
            <==> exists|i: int| 0 <= i < s.len() && #[trigger] s[i].public_key@ == k,
    decreases s.len(),
{
    if s.len() > 0 {
        let t = s.drop_last();
        lemma_table_of_dom(t);
        let lastk = s.last().public_key@;
        assert forall|k: Seq<char>| #[trigger] table_of(s).dom().contains(k)
            implies exists|i: int| 0 <= i < s.len() && #[trigger] s[i].public_key@ == k by {
            if k == lastk {
                assert(s[s.len() - 1].public_key@ == k);
            } else {
                assert(table_of(t).dom().contains(k));
                let i = choose|i: int| 0 <= i < t.len() && #[trigger] t[i].public_key@ == k;
                assert(s[i].public_key@ == k);
            }
        }
        assert forall|k: Seq<char>|
            exists|i: int| 0 <= i < s.len() && #[trigger] s[i].public_key@ == k
            implies #[trigger] table_of(s).dom().contains(k) by {
            let i = choose|i: int| 0 <= i < s.len() && #[trigger] s[i].public_key@ == k;
            if i == s.len() - 1 {
                assert(table_of(s).dom().contains(lastk));
            } else {
                assert(t[i].public_key@ == k);
                assert(table_of(t).dom().contains(k));
            }
        }
    }
}

/// A list with pairwise distinct keys denotes a table of as many peers.
proof fn lemma_unique_len(s: Seq<PeerEntry>)
    requires
        forall|i: int, j: int| 0 <= i < j < s.len()
            ==> s[i].public_key@ != s[j].public_key@,
    ensures
        table_of(s).dom().finite(),
        table_of(s).dom().len() == s.len(),
    decreases s.len(),
{
    broadcast use vstd::set::axiom_set_insert_len;

    if s.len() == 0 {
        assert(table_of(s).dom() =~= Set::<Seq<char>>::empty());
    } else {
        let t = s.drop_last();
        lemma_unique_len(t);
        lemma_table_of_dom(t);
        let k = s.last().public_key@;
        if table_of(t).dom().contains(k) {
            let i = choose|i: int| 0 <= i < t.len() && #[trigger] t[i].public_key@ == k;
            assert(s[i].public_key@ == s[s.len() - 1].public_key@);
        }
        assert(table_of(s).dom() =~= table_of(t).dom().insert(k));
    }
}

/// The set of public keys carried by a peer list.
pub open spec fn keys_of(s: Seq<PeerEntry>) -> Set<Seq<char>> {
    Set::new(|k: Seq<char>| exists|i: int| 0 <= i < s.len() && #[trigger] s[i].public_key@ == k)
}

/// The synchronizer's record of the kernel peer table.
pub struct PeerTable {
    entries: Vec<PeerEntry>,
}

impl View for PeerTable {
    type V = Map<Seq<char>, (Seq<char>, Seq<Seq<char>>)>;

    closed spec fn view(&self) -> Map<Seq<char>, (Seq<char>, Seq<Seq<char>>)> {
        table_of(self.entries@)
    }
}

impl PeerTable {
    /// No two entries carry the same public key.
    pub closed spec fn wf(&self) -> bool {
        forall|i: int, j: int| 0 <= i < j < self.entries@.len()
            ==> self.entries@[i].public_key@ != self.entries@[j].public_key@
    }

    /// An empty table.
    pub fn new() -> (r: PeerTable)
        ensures
            r.wf(),
            r@ == Map::<Seq<char>, (Seq<char>, Seq<Seq<char>>)>::empty(),
    {
        PeerTable { entries: Vec::new() }
    }

    /// Whether a peer with this public key is present.
    pub fn contains_key(&self, key: &str) -> (r: bool)
        requires
            self.wf(),
        ensures
            r == self@.dom().contains(key@),
    {
        let mut i: usize = 0;
        while i < self.entries.len()
            invariant
                0 <= i <= self.entries@.len(),
                forall|j: int| 0 <= j < i ==> self.entries@[j].public_key@ != key@,
            decreases self.entries@.len() - i,
        {
            if str_eq(self.entries[i].public_key.as_str(), key) {
                proof {
                    lemma_table_of_dom(self.entries@);
                    assert(self.entries@[i as int].public_key@ == key@);
                    assert(table_of(self.entries@).dom().contains(key@));
                }
                return true;
            }
            i = i + 1;
        }
        proof {
            lemma_table_of_dom(self.entries@);
        }
        false
    }

    /// How many peers the table holds.
    pub fn count(&self) -> (r: usize)
        requires
            self.wf(),
        ensures
            r == self@.dom().len(),
    {
        proof {
            lemma_unique_len(self.entries@);
        }
        self.entries.len()
    }

    /// Remove every entry for `key`, leaving the rest in order.
    fn drop_key(&mut self, key: &str)
        requires
            old(self).wf(),
        ensures
            final(self).wf(),
            final(self)@ == old(self)@.remove(key@),
            forall|i: int| 0 <= i < final(self).entries@.len()
                ==> final(self).entries@[i].public_key@ != key@,
    {
        let s = &self.entries;
        let ghost full = s@;
        let mut out: Vec<PeerEntry> = Vec::new();
        let mut i: usize = 0;
        proof {
            assert(full.take(0) =~= Seq::<PeerEntry>::empty());
            assert(table_of(out@) =~= table_of(full.take(0)).remove(key@));
        }
        while i < s.len()
            invariant
                0 <= i <= full.len(),
                s@ == full,
                table_of(out@) =~= table_of(full.take(i as int)).remove(key@),
                forall|a: int| 0 <= a < out@.len() ==> out@[a].public_key@ != key@,
                forall|a: int| 0 <= a < out@.len()
                    ==> exists|j: int| 0 <= j < i && #[trigger] out@[a].public_key@
                        == #[trigger] full[j].public_key@,
                forall|a: int, b: int| 0 <= a < b < out@.len()
                    ==> out@[a].public_key@ != out@[b].public_key@,
                forall|a: int, b: int| 0 <= a < b < full.len()
                    ==> full[a].public_key@ != full[b].public_key@,
            decreases full.len() - i,
        {
            let ghost prev = table_of(full.take(i as int));
            let e = s[i].duplicate();
            proof {
                assert(full.take(i + 1).drop_last() =~= full.take(i as int));
                assert(full.take(i + 1).last() == full[i as int]);
            }
            if !str_eq(e.public_key.as_str(), key) {
                proof {
                    let ghost k2 = e.public_key@;
                    // A fresh key differs from everything already kept.
                    assert forall|a: int| 0 <= a < out@.len()
                        implies out@[a].public_key@ != k2 by {
                        let j = choose|j: int| 0 <= j < i && out@[a].public_key@
                            == #[trigger] full[j].public_key@;
                        assert(full[j].public_key@ != full[i as int].public_key@);
                    }
                }
                let ghost ob = out@;
                out.push(e);
                proof {
                    assert(out@.drop_last() =~= ob);
                    assert(out@.last() == e);
                    assert(table_of(out@) =~= prev.remove(key@).insert(
                        full[i as int].public_key@, entry_val(full[i as int])));
                    assert(table_of(full.take(i + 1)) =~= prev.insert(
                        full[i as int].public_key@, entry_val(full[i as int])));
                    assert(table_of(out@) =~= table_of(full.take(i + 1)).remove(key@));
                }
            } else {
                proof {
                    assert(table_of(full.take(i + 1)).remove(key@) =~= prev.remove(key@));
                }
            }
            i = i + 1;
        }
        proof {
            assert(full.take(full.len() as int) =~= full);
        }
        self.entries = out;
    }

    /// Install or overwrite the entry for `e`'s public key.
    pub fn upsert(&mut self, e: PeerEntry)
        requires
            old(self).wf(),
        ensures
            final(self).wf(),
            final(self)@ == old(self)@.insert(e.public_key@, entry_val(e)),
    {
        let ghost before = self@;
        let key = e.public_key.clone();
        self.drop_key(key.as_str());
        proof {
            lemma_table_of_dom(self.entries@);
        }
        let ghost mid = self.entries@;
        self.entries.push(e);
        proof {
            assert(self.entries@.drop_last() =~= mid);
            assert(self@ =~= before.remove(e.public_key@).insert(e.public_key@, entry_val(e)));
            assert(self@ =~= before.insert(e.public_key@, entry_val(e)));
        }
    }

    /// Remove the entry for `key`; removing an absent key changes nothing.
    pub fn remove(&mut self, key: &str)
        requires
            old(self).wf(),
        ensures
            final(self).wf(),
            final(self)@ == old(self)@.remove(key@),
    {
        self.drop_key(key);
    }

    /// Replace the whole table by the given list; a later entry for a key
    /// already in the list overrides the earlier one.
    pub fn replace_all(&mut self, peers: &Vec<PeerEntry>)
        requires
            old(self).wf(),
        ensures
            final(self).wf(),
            final(self)@ == table_of(peers@),
    {
        self.entries = Vec::new();
        let mut i: usize = 0;
        proof {
            assert(peers@.take(0) =~= Seq::<PeerEntry>::empty());
            assert(self@ =~= table_of(peers@.take(0)));
        }
        while i < peers.len()
            invariant
                0 <= i <= peers@.len(),
                self.wf(),
                self@ =~= table_of(peers@.take(i as int)),
            decreases peers@.len() - i,
        {
            let e = peers[i].duplicate();
            proof {
                assert(peers@.take(i + 1).drop_last() =~= peers@.take(i as int));
                assert(peers@.take(i + 1).last() == peers@[i as int]);
                assert(entry_val(e) == entry_val(peers@[i as int]));
            }
            self.upsert(e);
            proof {
                assert(self@ =~= table_of(peers@.take(i + 1)));
            }
            i = i + 1;
        }
        proof {
            assert(peers@.take(peers@.len() as int) =~= peers@);
        }
    }
}

/// Live counters for one kernel peer.
pub struct PeerStats {
    pub public_key: String,
    pub rx_bytes: u64,
    pub tx_bytes: u64,
    pub last_handshake_secs: Option<u64>,
}

/// Why a synchronizer operation was rejected or failed.
#[derive(Debug)]
pub enum SyncError {
    /// The interface name is not a valid Linux interface name.
    InvalidInterfaceName,
    /// A public key is not the canonical base64 form of 32 bytes.
    InvalidPublicKey,
    /// A preshared key is not the canonical base64 form of 32 bytes.
    InvalidPresharedKey,
    /// An allowed-IP entry is not in CIDR notation.
    InvalidAllowedIp,
    /// A private key is not the canonical base64 form of 32 bytes.
    InvalidPrivateKey,
    /// The kernel device operation failed; the message is for the operator.
    Kernel(String),
}

/// A character allowed in a Linux interface name: printable ASCII, no
/// spaces, no slash.
pub open spec fn valid_iface_char(c: char) -> bool {
    33 <= c as u32 <= 126 && c != '/'
}

/// A valid Linux interface name: one to fifteen such characters, so that it
/// fits the kernel's buffer with its terminator.
pub open spec fn is_valid_iface_name(s: Seq<char>) -> bool {
    1 <= s.len() <= 15 && forall|i: int| 0 <= i < s.len() ==> valid_iface_char(#[trigger] s[i])
}

/// Check that a string is a valid Linux interface name.
pub fn valid_iface_name(s: &str) -> (r: bool)
    ensures
        r == is_valid_iface_name(s@),
{
    let n = s.unicode_len();
    if n < 1 || n > 15 {
        return false;
    }
    let mut i: usize = 0;
    while i < n
        invariant
            0 <= i <= n,
            n == s@.len(),
            forall|j: int| 0 <= j < i ==> valid_iface_char(#[trigger] s@[j]),
        decreases n - i,
    {
        let c = s.get_char(i);
        let v = c as u32;
        if v < 33 || v > 126 || c == '/' {
            return false;
        }
        i = i + 1;
    }
    true
}

/// A peer entry whose key material and allowed IPs are all well formed.
pub open spec fn entry_valid(e: PeerEntry) -> bool {
    is_valid_key_b64(e.public_key@)
    && is_valid_key_b64(e.preshared_key@)
    && forall|i: int| 0 <= i < e.allowed_ips@.len()
        ==> spec_parse_cidr(#[trigger] e.allowed_ips@[i]@) is Some
}

/// Check every field of a peer entry, reporting the first malformed one.
fn check_entry(e: &PeerEntry) -> (r: Result<(), SyncError>)
    ensures
        match r {
            Ok(()) => entry_valid(*e),
            Err(SyncError::InvalidPublicKey) => !is_valid_key_b64(e.public_key@),
            Err(SyncError::InvalidPresharedKey) => !is_valid_key_b64(e.preshared_key@),
            Err(SyncError::InvalidAllowedIp) => !entry_valid(*e),
            Err(_) => false,
        },
        r is Ok <==> entry_valid(*e),
{
    if !valid_key_b64(e.public_key.as_str()) {
        return Err(SyncError::InvalidPublicKey);
    }
    if !valid_key_b64(e.preshared_key.as_str()) {
        return Err(SyncError::InvalidPresharedKey);
    }
    let mut i: usize = 0;
    while i < e.allowed_ips.len()
        invariant
            0 <= i <= e.allowed_ips@.len(),
            forall|j: int| 0 <= j < i
                ==> spec_parse_cidr(#[trigger] e.allowed_ips@[j]@) is Some,
        decreases e.allowed_ips@.len() - i,
    {
        if parse_cidr(e.allowed_ips[i].as_str()).is_none() {
            return Err(SyncError::InvalidAllowedIp);
        }
        i = i + 1;
    }
    Ok(())
}

// ---------------------------------------------------------------------------
// Trusted kernel device calls (wireguard_control). Nothing is promised of
// their outcome: the kernel may refuse any of them, and the synchronizer's
// contracts say what holds whichever way they went.
// ---------------------------------------------------------------------------

#[verifier::external_type_specification]
#[verifier::external_body]
pub struct ExPeerConfigBuilder(wireguard_control::PeerConfigBuilder);

/// Relies on wireguard_control's `Key::from_base64` and `PeerConfigBuilder`,
/// and on ipnet's CIDR parsing, to build the kernel configuration for one
/// peer entry field for field.
#[verifier::external_body]
fn build_peer(e: &PeerEntry) -> (r: Result<wireguard_control::PeerConfigBuilder, String>)
{
    let pk = wireguard_control::Key::from_base64(&e.public_key)
        .map_err(|_| "invalid public key".to_string())?;
    let psk = wireguard_control::Key::from_base64(&e.preshared_key)
        .map_err(|_| "invalid preshared key".to_string())?;
    let mut b = wireguard_control::PeerConfigBuilder::new(&pk).set_preshared_key(psk);
    for ip in e.allowed_ips.iter() {
        let net: ipnet::IpNet = ip.parse().map_err(|_| format!("invalid allowed ip {}", ip))?;
        b = b.add_allowed_ip(net.addr(), net.prefix_len());
    }
    Ok(b)
}

/// Relies on wireguard_control's `DeviceUpdate::apply` to install or
/// overwrite one peer entry on the named device.
#[verifier::external_body]
fn device_apply_peer(name: &str, e: &PeerEntry) -> (r: Result<(), String>)
{
    let iface = <wireguard_control::InterfaceName as core::str::FromStr>::from_str(name)
        .map_err(|er| format!("{:?}", er))?;
    let peer = build_peer(e)?;
    wireguard_control::DeviceUpdate::new()
        .add_peer(peer)
        .apply(&iface, wireguard_control::Backend::Kernel)
        .map_err(|er| format!("{}", er))
}

/// Relies on wireguard_control's `DeviceUpdate::remove_peer_by_key`; the
/// kernel treats removing an absent key as success.
#[verifier::external_body]
fn device_remove_peer(name: &str, public_key_b64: &str) -> (r: Result<(), String>)
{
    let iface = <wireguard_control::InterfaceName as core::str::FromStr>::from_str(name)
        .map_err(|er| format!("{:?}", er))?;
    let pk = wireguard_control::Key::from_base64(public_key_b64)
        .map_err(|_| "invalid public key".to_string())?;
    wireguard_control::DeviceUpdate::new()
        .remove_peer_by_key(&pk)
        .apply(&iface, wireguard_control::Backend::Kernel)
        .map_err(|er| format!("{}", er))
}

/// Relies on wireguard_control's `DeviceUpdate::replace_peers`, which makes
/// the kernel table exactly the given list in one atomic update.
#[verifier::external_body]
fn device_replace_peers(name: &str, peers: &Vec<PeerEntry>) -> (r: Result<(), String>)
{
    let iface = <wireguard_control::InterfaceName as core::str::FromStr>::from_str(name)
        .map_err(|er| format!("{:?}", er))?;
    let mut update = wireguard_control::DeviceUpdate::new().replace_peers();
    for e in peers.iter() {
        update = update.add_peer(build_peer(e)?);
    }
    update.apply(&iface, wireguard_control::Backend::Kernel).map_err(|er| format!("{}", er))
}

/// Relies on wireguard_control's `DeviceUpdate::set_private_key` and
/// `set_listen_port` to apply the interface's identity; callable repeatedly.
#[verifier::external_body]
fn device_configure(name: &str, private_key_b64: &str, listen_port: u16) -> (r: Result<(), String>)
{
    let iface = <wireguard_control::InterfaceName as core::str::FromStr>::from_str(name)
        .map_err(|er| format!("{:?}", er))?;
    let key = wireguard_control::Key::from_base64(private_key_b64)
        .map_err(|_| "invalid private key".to_string())?;
    wireguard_control::DeviceUpdate::new()
        .set_private_key(key)
        .set_listen_port(listen_port)
        .apply(&iface, wireguard_control::Backend::Kernel)
        .map_err(|er| format!("{}", er))
}

/// Relies on wireguard_control's `Device::get` for a snapshot of the live
/// peer counters; the values depend on traffic and are promised nothing.
#[verifier::external_body]
fn device_read_stats(name: &str) -> (r: Result<Vec<PeerStats>, String>)
{
    let iface = <wireguard_control::InterfaceName as core::str::FromStr>::from_str(name)
        .map_err(|er| format!("{:?}", er))?;
    let device = wireguard_control::Device::get(&iface, wireguard_control::Backend::Kernel)
        .map_err(|er| format!("{}", er))?;
    Ok(device.peers.into_iter().map(|p| PeerStats {
        public_key: p.config.public_key.to_base64(),
        rx_bytes: p.stats.rx_bytes,
        tx_bytes: p.stats.tx_bytes,
        last_handshake_secs: p.stats.last_handshake_time
            .map(|t| t.duration_since(std::time::UNIX_EPOCH).unwrap_or_default().as_secs()),
    }).collect())
}

/// The peer synchronizer for one interface: it validates every entry, issues
/// the kernel device calls, and keeps a record of the peer table those calls
/// have established.
pub struct PeerSync {
    name: String,
    table: PeerTable,
}

impl PeerSync {
    /// The record and the name stay well formed.
    pub closed spec fn wf(&self) -> bool {
        self.table.wf() && is_valid_iface_name(self.name@)
    }

    /// The interface this synchronizer drives.
    pub closed spec fn iface(&self) -> Seq<char> {
        self.name@
    }

    /// The synchronizer's record of the kernel peer table.
    pub closed spec fn kernel(&self) -> Map<Seq<char>, (Seq<char>, Seq<Seq<char>>)> {
        self.table@
    }

    /// A synchronizer for the named interface, with nothing installed yet;
    /// rejected exactly when the name is not a valid interface name.
    pub fn new(name: String) -> (r: Result<PeerSync, SyncError>)
        ensures
            match r {
                Ok(s) => s.wf() && s.iface() == name@
                    && s.kernel() == Map::<Seq<char>, (Seq<char>, Seq<Seq<char>>)>::empty(),
                Err(e) => !is_valid_iface_name(name@) && e is InvalidInterfaceName,
            },
            r is Ok <==> is_valid_iface_name(name@),
    {
        if !valid_iface_name(name.as_str()) {
            return Err(SyncError::InvalidInterfaceName);
        }
        Ok(PeerSync { name, table: PeerTable::new() })
    }

    /// Whether the record holds a peer under this public key.
    pub fn has_peer(&self, public_key: &str) -> (r: bool)
        requires
            self.wf(),
        ensures
            r == self.kernel().dom().contains(public_key@),
    {
        self.table.contains_key(public_key)
    }

    /// How many peers the record holds.
    pub fn peer_count(&self) -> (r: usize)
        requires
            self.wf(),
        ensures
            r == self.kernel().dom().len(),
    {
        self.table.count()
    }

    /// Idempotently install or overwrite one peer. The entry is checked
    /// first; a malformed field is reported without touching the kernel. On
    /// success the recorded table gains exactly this entry.
    pub fn add_or_update(&mut self, e: PeerEntry) -> (r: Result<(), SyncError>)
        requires
            old(self).wf(),
        ensures
            final(self).wf(),
            final(self).iface() == old(self).iface(),
            match r {
                Ok(()) => entry_valid(e)
                    && final(self).kernel()
                        == old(self).kernel().insert(e.public_key@, entry_val(e)),
                Err(SyncError::Kernel(_)) => entry_valid(e)
                    && final(self).kernel() == old(self).kernel(),
                Err(_) => !entry_valid(e) && final(self).kernel() == old(self).kernel(),
            },
    {
        match check_entry(&e) {
            Ok(()) => {},
            Err(err) => {
                return Err(err);
            },
        }
        match device_apply_peer(self.name.as_str(), &e) {
            Ok(()) => {
                self.table.upsert(e);
                Ok(())
            },
            Err(msg) => Err(SyncError::Kernel(msg)),
        }
    }

    /// Idempotently remove the peer under this public key; removing an
    /// absent peer succeeds. A malformed key is reported without touching
    /// the kernel.
    pub fn remove(&mut self, public_key: &str) -> (r: Result<(), SyncError>)
        requires
            old(self).wf(),
        ensures
            final(self).wf(),
            final(self).iface() == old(self).iface(),
            match r {
                Ok(()) => is_valid_key_b64(public_key@)
                    && final(self).kernel() == old(self).kernel().remove(public_key@),
                Err(SyncError::Kernel(_)) => is_valid_key_b64(public_key@)
                    && final(self).kernel() == old(self).kernel(),
                Err(e) => e is InvalidPublicKey && !is_valid_key_b64(public_key@)
                    && final(self).kernel() == old(self).kernel(),
            },
    {
        if !valid_key_b64(public_key) {
            return Err(SyncError::InvalidPublicKey);
        }
        match device_remove_peer(self.name.as_str(), public_key) {
            Ok(()) => {
                self.table.remove(public_key);
                Ok(())
            },
            Err(msg) => Err(SyncError::Kernel(msg)),
        }
    }

    /// Atomically replace the whole kernel peer table with the given list,
    /// whatever it held before; used at startup to rebuild kernel state from
    /// the roster. Every entry is checked before the kernel is touched.
    pub fn replace_all(&mut self, peers: &Vec<PeerEntry>) -> (r: Result<(), SyncError>)
        requires
            old(self).wf(),
        ensures
            final(self).wf(),
            final(self).iface() == old(self).iface(),
            match r {
                Ok(()) => (forall|i: int| 0 <= i < peers@.len()
                        ==> entry_valid(#[trigger] peers@[i]))
                    && final(self).kernel() == table_of(peers@),
                Err(SyncError::Kernel(_)) => (forall|i: int| 0 <= i < peers@.len()
                        ==> entry_valid(#[trigger] peers@[i]))
                    && final(self).kernel() == old(self).kernel(),
                Err(_) => (exists|i: int| 0 <= i < peers@.len()
                        && !entry_valid(#[trigger] peers@[i]))
                    && final(self).kernel() == old(self).kernel(),
            },
    {
        let mut i: usize = 0;
        while i < peers.len()
            invariant
                0 <= i <= peers@.len(),
                self == old(self),
                self.wf(),
                forall|j: int| 0 <= j < i ==> entry_valid(#[trigger] peers@[j]),
            decreases peers@.len() - i,
        {
            match check_entry(&peers[i]) {
                Ok(()) => {},
                Err(err) => {
                    return Err(err);
                },
            }
            i = i + 1;
        }
        match device_replace_peers(self.name.as_str(), peers) {
            Ok(()) => {
                self.table.replace_all(peers);
                Ok(())
            },
            Err(msg) => Err(SyncError::Kernel(msg)),
        }
    }

    /// Apply the interface's private key and listen port; callable
    /// repeatedly. A malformed key is reported without touching the kernel.
    pub fn configure(&self, private_key_b64: &str, listen_port: u16) -> (r: Result<(), SyncError>)
        requires
            self.wf(),
        ensures
            match r {
                Ok(()) => is_valid_key_b64(private_key_b64@),
                Err(SyncError::Kernel(_)) => is_valid_key_b64(private_key_b64@),
                Err(e) => e is InvalidPrivateKey && !is_valid_key_b64(private_key_b64@),
            },
    {
        if !valid_key_b64(private_key_b64) {
            return Err(SyncError::InvalidPrivateKey);
        }
        match device_configure(self.name.as_str(), private_key_b64, listen_port) {
            Ok(()) => Ok(()),
            Err(msg) => Err(SyncError::Kernel(msg)),
        }
    }

    /// A snapshot of the live per-peer counters, for display only.
    pub fn read_stats(&self) -> (r: Result<Vec<PeerStats>, SyncError>)
        requires
            self.wf(),
    {
        match device_read_stats(self.name.as_str()) {
            Ok(stats) => Ok(stats),
            Err(msg) => Err(SyncError::Kernel(msg)),
        }
    }
}

/// Installing a peer twice with identical arguments yields the same table as
/// installing it once: no duplication and no further change.
pub proof fn lemma_upsert_idempotent(
    m: Map<Seq<char>, (Seq<char>, Seq<Seq<char>>)>,
    k: Seq<char>,
    v: (Seq<char>, Seq<Seq<char>>),
)
    ensures
        m.insert(k, v).insert(k, v) == m.insert(k, v),
{
    assert(m.insert(k, v).insert(k, v) =~= m.insert(k, v));
}

/// Removing a peer that is not in the table leaves the table unchanged; the
/// operation itself carries no failure result.
pub proof fn lemma_remove_absent(
    m: Map<Seq<char>, (Seq<char>, Seq<Seq<char>>)>,
    k: Seq<char>,
)
    requires
        !m.dom().contains(k),
    ensures
        m.remove(k) == m,
{
    assert(m.remove(k) =~= m);
}

/// After replacing the table with peer list `s`, the keys present are exactly
/// the public keys of `s`, whatever was present before.
pub proof fn lemma_replace_all_keys(s: Seq<PeerEntry>)
    ensures
        table_of(s).dom() == keys_of(s),
{
    lemma_table_of_dom(s);
    assert(table_of(s).dom() =~= keys_of(s));
}

} // verus!
