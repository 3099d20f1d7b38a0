//! IPv4 addresses, CIDR blocks and the deterministic address allocator.
//!
//! An address is carried as its 32-bit numeric value. A CIDR block keeps the
//! address it was written with; its network, host range and reserved address
//! are derived. The first usable host of the block is reserved for the
//! interface itself and is never handed to a peer.

use vstd::prelude::*;
use vstd::arithmetic::power2::{pow2, lemma_pow2_adds, lemma_pow2_strictly_increases, lemma2_to64};
use crate::text::{
    dec_str, dec_val, lemma_dec_val_nonneg, spec_parse_dec, spec_parse_dec_strict,
    split_on, views_of, format_u32, parse_dec, parse_dec_strict, split_str,
};

verus! {

/// An IPv4 CIDR block, as written: an address and a prefix length.
#[derive(Clone, Copy, PartialEq, Eq, Structural, Debug)]
pub struct Ipv4Cidr {
    pub addr: u32,
    pub prefix: u8,
}

impl Ipv4Cidr {
    /// A prefix length fits in 32 bits.
    pub open spec fn wf(self) -> bool {
        self.prefix <= 32
    }

    /// Number of addresses covered by the block.
    pub open spec fn block(self) -> int {
        pow2((32 - self.prefix) as nat) as int
    }

    /// The network address: the block's first address.
    pub open spec fn network(self) -> int {
        self.addr - (self.addr as int % self.block())
    }

    /// First usable host. For prefixes up to /30 the network address itself
    /// is excluded; /31 and /32 have no network or broadcast address.
    pub open spec fn host_lo(self) -> int {
        if self.prefix <= 30 {
            self.network() + 1
        } else {
            self.network()
        }
    }

    /// Last usable host. For prefixes up to /30 the broadcast address is
    /// excluded.
    pub open spec fn host_hi(self) -> int {
        if self.prefix <= 30 {
            self.network() + self.block() - 2
        } else if self.prefix == 31 {
            self.network() + 1
        } else {
            self.network()
        }
    }

    /// `a` is a usable host address of the block.
    pub open spec fn is_host(self, a: int) -> bool {
        self.host_lo() <= a <= self.host_hi()
    }

    /// The address reserved for the interface: the first usable host.
    pub open spec fn reserved(self) -> int {
        self.host_lo()
    }

    /// How many usable host addresses the block has.
    pub open spec fn usable_hosts(self) -> int {
        self.host_hi() - self.host_lo() + 1
    }
}

/// The block size and the host range stay within 32 bits.
pub proof fn lemma_cidr_bounds(c: Ipv4Cidr)
    requires
        c.wf(),
    ensures
        1 <= c.block() <= 0x1_0000_0000,
        0 <= c.network() <= c.addr,
        c.network() + c.block() <= 0x1_0000_0000,
        0 <= c.host_lo(),
        c.host_hi() < 0x1_0000_0000,
        c.host_hi() <= c.network() + c.block() - 1,
{
    let e = (32 - c.prefix) as nat;
    let b = c.block();
    assert(pow2(e) >= 1) by {
        vstd::arithmetic::power2::lemma_pow2_pos(e);
    }
    assert(pow2(32) == 0x1_0000_0000) by {
        lemma2_to64();
    }
    if e < 32 {
        lemma_pow2_strictly_increases(e, 32);
    }
    assert(b <= 0x1_0000_0000);
    let q = c.addr as int / b;
    let r = c.addr as int % b;
    assert(b * q + r == c.addr && 0 <= r < b) by {
        vstd::arithmetic::div_mod::lemma_fundamental_div_mod(c.addr as int, b);
    }
    assert(c.network() == b * q);
    assert(q >= 0) by {
        vstd::arithmetic::div_mod::lemma_div_pos_is_pos(c.addr as int, b);
    }
    assert(b * q >= 0) by (nonlinear_arith)
        requires
            b >= 1,
            q >= 0,
    ;
    // The next block boundary is still at most 2^32.
    assert(pow2(e) * pow2((c.prefix) as nat) == pow2(32)) by {
        lemma_pow2_adds(e, c.prefix as nat);
    }
    let p = pow2(c.prefix as nat) as int;
    assert(b * p == 0x1_0000_0000);
    assert(q < p) by (nonlinear_arith)
        requires
            b * q + r == c.addr,
            0 <= r,
            c.addr < 0x1_0000_0000,
            b * p == 0x1_0000_0000,
            b >= 1,
            q >= 0,
            p >= 0,
    ;
    assert(b * (q + 1) <= b * p) by (nonlinear_arith)
        requires
            q + 1 <= p,
            b >= 1,
    ;
    assert(b * (q + 1) == b * q + b) by (nonlinear_arith);
    assert(c.network() + c.block() <= 0x1_0000_0000);
    if c.prefix == 31 {
        assert(c.block() == 2) by {
            lemma2_to64();
        }
    }
    if c.prefix == 32 {
        assert(c.block() == 1) by {
            lemma2_to64();
        }
    }
}

/// Exact characterization of what `allocate` returns: the smallest usable
/// host after the reserved one that is not in `used`, or nothing when every
/// such host is taken.
pub open spec fn allocate_post(c: Ipv4Cidr, used: Seq<u32>, r: Option<u32>) -> bool {
    match r {
        Some(a) => c.is_host(a as int) && a as int != c.reserved() && !used.contains(a)
            && (forall|b: int| c.reserved() < b < a as int ==> used.contains(#[trigger] (b as u32))),
        None => forall|b: int| c.reserved() < b <= c.host_hi() ==> used.contains(#[trigger] (b as u32)),
    }
}

/// Whether `used` holds `a`.
fn used_contains(used: &Vec<u32>, a: u32) -> (r: bool)
    ensures
        r == used@.contains(a),
{
    let mut i: usize = 0;
    while i < used.len()
        invariant
            0 <= i <= used@.len(),
            forall|j: int| 0 <= j < i ==> used@[j] != a,
        decreases used@.len() - i,
    {
        if used[i] == a {
            return true;
        }
        i = i + 1;
    }
    false
}

/// Number of addresses covered by a block with the given prefix length.
fn block_size(prefix: u8) -> (r: u64)
    requires
        prefix <= 32,
    ensures
        r == pow2((32 - prefix) as nat),
{
    let e: u8 = 32 - prefix;
    let mut r: u64 = 1;
    let mut k: u8 = 0;
    proof {
        assert(pow2(0) == 1) by {
            lemma2_to64();
        }
        assert(pow2(32) == 0x1_0000_0000) by {
            lemma2_to64();
        }
    }
    while k < e
        invariant
            0 <= k <= e <= 32,
            r == pow2(k as nat),
            pow2(32) == 0x1_0000_0000,
        decreases e - k,
    {
        proof {
            if (k as nat) < 32 {
                lemma_pow2_strictly_increases(k as nat, 32);
            }
            assert(pow2((k + 1) as nat) == 2 * pow2(k as nat)) by {
                vstd::arithmetic::power2::lemma_pow2_unfold((k + 1) as nat);
            }
        }
        r = r * 2;
        k = k + 1;
    }
    r
}

/// The network address of the block.
pub fn network_addr(c: &Ipv4Cidr) -> (r: u32)
    requires
        c.wf(),
    ensures
        r == c.network(),
{
    proof {
        lemma_cidr_bounds(*c);
    }
    let b = block_size(c.prefix);
    proof {
        let bi = b as int;
        let q = c.addr as int / bi;
        vstd::arithmetic::div_mod::lemma_fundamental_div_mod(c.addr as int, bi);
        assert(q * bi == bi * q) by (nonlinear_arith);
        assert(bi * q == c.addr - (c.addr as int % bi));
    }
    let net = ((c.addr as u64) / b) * b;
    net as u32
}

/// The reserved (first usable) host and the last usable host of the block.
pub fn host_range(c: &Ipv4Cidr) -> (r: (u32, u32))
    requires
        c.wf(),
    ensures
        r.0 == c.host_lo(),
        r.1 == c.host_hi(),
{
    proof {
        lemma_cidr_bounds(*c);
    }
    let net = network_addr(c);
    if c.prefix <= 30 {
        let b = block_size(c.prefix);
        proof {
            assert(pow2((32 - c.prefix) as nat) >= 4) by {
                if c.prefix < 30 {
                    lemma_pow2_strictly_increases(2, (32 - c.prefix) as nat);
                }
                lemma2_to64();
            }
            assert(c.network() + 4 <= 0x1_0000_0000);
        }
        let hi = (net as u64 + b - 2) as u32;
        (net + 1, hi)
    } else if c.prefix == 31 {
        proof {
            assert(pow2((32 - c.prefix) as nat) == 2) by {
                lemma2_to64();
            }
        }
        (net, net + 1)
    } else {
        (net, net)
    }
}

/// Return the smallest usable host address of `cidr`, skipping the reserved
/// first host and every address in `used`; nothing when the pool is
/// exhausted.
pub fn allocate(cidr: &Ipv4Cidr, used: &Vec<u32>) -> (r: Option<u32>)
    requires
        cidr.wf(),
    ensures
        allocate_post(*cidr, used@, r),
{
    proof {
        lemma_cidr_bounds(*cidr);
    }
    let (lo, hi) = host_range(cidr);
    if hi <= lo {
        return None;
    }
    let mut a: u32 = lo + 1;
    while a < hi
        invariant
            cidr.wf(),
            lo == cidr.host_lo(),
            hi == cidr.host_hi(),
            lo < a <= hi,
            forall|b: int| lo < b < a ==> used@.contains(#[trigger] (b as u32)),
        decreases hi - a,
    {
        if !used_contains(used, a) {
            return Some(a);
        }
        a = a + 1;
    }
    if !used_contains(used, a) {
        Some(a)
    } else {
        None
    }
}

/// The reserved host never goes to a peer, and no address in the used set is
/// ever returned.
pub proof fn lemma_allocate_avoids_used_and_reserved(c: Ipv4Cidr, used: Seq<u32>, r: Option<u32>)
    requires
        c.wf(),
        allocate_post(c, used, r),
        r is Some,
    ensures
        !used.contains(r->0),
        r->0 as int != c.reserved(),
{
}

/// With at least two usable hosts and nothing yet in use, allocation returns
/// the second usable host: the one right after the reserved first host.
pub proof fn lemma_allocate_first_free(c: Ipv4Cidr, r: Option<u32>)
    requires
        c.wf(),
        c.usable_hosts() >= 2,
        allocate_post(c, Seq::<u32>::empty(), r),
    ensures
        r == Some((c.host_lo() + 1) as u32),
{
    lemma_cidr_bounds(c);
    let b = c.host_lo() + 1;
    assert(!Seq::<u32>::empty().contains(b as u32));
    match r {
        Some(a) => {
            assert(a as int >= b);
            if a as int > b {
                assert(Seq::<u32>::empty().contains(b as u32));
            }
            assert(a as int == b);
            assert(a == b as u32);
        },
        None => {
            assert(c.reserved() < b <= c.host_hi());
            assert(Seq::<u32>::empty().contains(b as u32));
            assert(false);
        },
    }
}

/// A canonically written IPv4 octet: digits without a leading zero, at most
/// 255.
pub open spec fn octet_ok(s: Seq<char>) -> bool {
    spec_parse_dec_strict(s, 255) is Some
}

/// What `parse_ipv4` accepts: four canonically written octets joined by
/// dots, exactly the strings that `format_ipv4` produces.
pub open spec fn spec_parse_ipv4(s: Seq<char>) -> Option<u32> {
    let p = split_on(s, '.');
    if p.len() == 4 && octet_ok(p[0]) && octet_ok(p[1]) && octet_ok(p[2]) && octet_ok(p[3]) {
        Some((dec_val(p[0]) * 0x100_0000 + dec_val(p[1]) * 0x1_0000 + dec_val(p[2]) * 0x100
            + dec_val(p[3])) as u32)
    } else {
        None
    }
}

/// Parse a dotted-quad IPv4 address written canonically.
pub fn parse_ipv4(s: &str) -> (r: Option<u32>)
    ensures
        r == spec_parse_ipv4(s@),
{
    let parts = split_str(s, '.');
    proof {
        assert(views_of(parts@).len() == parts@.len());
    }
    if parts.len() != 4 {
        return None;
    }
    let v0 = match parse_dec_strict(parts[0].as_str(), 255) {
        Some(v) => v,
        None => {
            return None;
        },
    };
    let v1 = match parse_dec_strict(parts[1].as_str(), 255) {
        Some(v) => v,
        None => {
            return None;
        },
    };
    let v2 = match parse_dec_strict(parts[2].as_str(), 255) {
        Some(v) => v,
        None => {
            return None;
        },
    };
    let v3 = match parse_dec_strict(parts[3].as_str(), 255) {
        Some(v) => v,
        None => {
            return None;
        },
    };
    proof {
        let p = split_on(s@, '.');
        assert(views_of(parts@)[0] == parts@[0]@);
        assert(views_of(parts@)[1] == parts@[1]@);
        assert(views_of(parts@)[2] == parts@[2]@);
        assert(views_of(parts@)[3] == parts@[3]@);
        lemma_dec_val_nonneg(p[0]);
        lemma_dec_val_nonneg(p[1]);
        lemma_dec_val_nonneg(p[2]);
        lemma_dec_val_nonneg(p[3]);
    }
    Some(v0 * 0x100_0000 + v1 * 0x1_0000 + v2 * 0x100 + v3)
}

/// Canonical text of an IPv4 address: four decimal octets joined by dots.
pub open spec fn ipv4_str(a: u32) -> Seq<char> {
    dec_str(a as int / 0x100_0000) + seq!['.'] + dec_str((a as int / 0x1_0000) % 0x100)
        + seq!['.'] + dec_str((a as int / 0x100) % 0x100) + seq!['.'] + dec_str(a as int % 0x100)
}

/// Render an IPv4 address in its canonical dotted-quad form.
pub fn format_ipv4(a: u32) -> (r: String)
    ensures
        r@ == ipv4_str(a),
{
    proof {
        reveal_strlit(".");
    }
    let mut r = format_u32(a / 0x100_0000);
    r.append(".");
    let o1 = format_u32((a / 0x1_0000) % 0x100);
    r.append(o1.as_str());
    r.append(".");
    let o2 = format_u32((a / 0x100) % 0x100);
    r.append(o2.as_str());
    r.append(".");
    let o3 = format_u32(a % 0x100);
    r.append(o3.as_str());
    proof {
        assert(r@ =~= ipv4_str(a));
    }
    r
}

/// What `parse_cidr` accepts: a canonical IPv4 address, a slash, and a
/// decimal prefix length of at most 32 (leading zeros allowed there, as a
/// number parser would).
pub open spec fn spec_parse_cidr(s: Seq<char>) -> Option<Ipv4Cidr> {
    let p = split_on(s, '/');
    if p.len() == 2 && spec_parse_ipv4(p[0]) is Some && spec_parse_dec(p[1], 32) is Some {
        Some(Ipv4Cidr { addr: spec_parse_ipv4(p[0])->0, prefix: spec_parse_dec(p[1], 32)->0 as u8 })
    } else {
        None
    }
}

/// Parse CIDR notation such as a network written as address, slash, prefix
/// length.
pub fn parse_cidr(s: &str) -> (r: Option<Ipv4Cidr>)
    ensures
        r == spec_parse_cidr(s@),
        r is Some ==> r->0.wf(),
{
    let parts = split_str(s, '/');
    proof {
        assert(views_of(parts@).len() == parts@.len());
    }
    if parts.len() != 2 {
        return None;
    }
    let addr = match parse_ipv4(parts[0].as_str()) {
        Some(a) => a,
        None => {
            return None;
        },
    };
    let prefix = match parse_dec(parts[1].as_str(), 32) {
        Some(p) => p,
        None => {
            return None;
        },
    };
    Some(Ipv4Cidr { addr, prefix: prefix as u8 })
}

/// The addresses denoted by a list of strings: each string that is a
/// canonical IPv4 address contributes its value, the rest are ignored.
pub open spec fn parsed_ips(ss: Seq<Seq<char>>) -> Seq<u32>
    decreases ss.len(),
{
    if ss.len() == 0 {
        Seq::<u32>::empty()
    } else {
        parsed_ips(ss.drop_last()) + (match spec_parse_ipv4(ss.last()) {
            Some(a) => seq![a],
            None => Seq::<u32>::empty(),
        })
    }
}

/// Allocate the next free host address of `cidr`, given the stored text of
/// every address already in use. A stored string marks an address as taken
/// exactly when it is that address's canonical form.
pub fn allocate_ip(network: &Ipv4Cidr, used: &Vec<String>) -> (r: Option<u32>)
    requires
        network.wf(),
    ensures
        allocate_post(*network, parsed_ips(views_of(used@)), r),
{
    let mut taken: Vec<u32> = Vec::new();
    let mut i: usize = 0;
    proof {
        assert(views_of(used@).take(0) =~= Seq::<Seq<char>>::empty());
    }
    while i < used.len()
        invariant
            0 <= i <= used@.len(),
            taken@ == parsed_ips(views_of(used@).take(i as int)),
        decreases used@.len() - i,
    {
        proof {
            let vs = views_of(used@);
            assert(vs.take(i + 1).drop_last() =~= vs.take(i as int));
            assert(vs.take(i + 1).last() == used@[i as int]@);
        }
        match parse_ipv4(used[i].as_str()) {
            Some(a) => {
                taken.push(a);
                proof {
                    assert(taken@ =~= parsed_ips(views_of(used@).take(i + 1)));
                }
            },
            None => {
                proof {
                    assert(taken@ =~= parsed_ips(views_of(used@).take(i + 1)));
                }
            },
        }
        i = i + 1;
    }
    proof {
        assert(views_of(used@).take(used@.len() as int) =~= views_of(used@));
    }
    allocate(network, &taken)
}

/// When every usable host besides the reserved one is already in use, the
/// pool is exhausted and allocation returns nothing.
pub proof fn lemma_allocate_exhausted(c: Ipv4Cidr, used: Seq<u32>, r: Option<u32>)
    requires
        c.wf(),
        forall|b: int| c.reserved() < b <= c.host_hi() ==> used.contains(#[trigger] (b as u32)),
        allocate_post(c, used, r),
    ensures
        r is None,
{
    lemma_cidr_bounds(c);
    if r is Some {
        let a = r->0;
        let b = a as int;
        assert(c.reserved() < b <= c.host_hi());
        assert(used.contains(b as u32));
        assert(b as u32 == a);
        assert(false);
    }
}

/// For a fixed block and a fixed used set there is only one answer:
/// allocation is deterministic, which makes allocation races visible to the
/// caller instead of hiding them.
pub proof fn lemma_allocate_deterministic(
    c: Ipv4Cidr,
    used: Seq<u32>,
    r1: Option<u32>,
    r2: Option<u32>,
)
    requires
        c.wf(),
        allocate_post(c, used, r1),
        allocate_post(c, used, r2),
    ensures
        r1 == r2,
{
    lemma_cidr_bounds(c);
    match (r1, r2) {
        (Some(a1), Some(a2)) => {
            if a1 < a2 {
                let b = a1 as int;
                assert(c.reserved() < b < a2 as int);
                assert(used.contains(b as u32));
                assert(b as u32 == a1);
                assert(false);
            }
            if a2 < a1 {
                let b = a2 as int;
                assert(c.reserved() < b < a1 as int);
                assert(used.contains(b as u32));
                assert(b as u32 == a2);
                assert(false);
            }
        },
        (Some(a1), None) => {
            let b = a1 as int;
            assert(c.reserved() < b <= c.host_hi());
            assert(used.contains(b as u32));
            assert(b as u32 == a1);
            assert(false);
        },
        (None, Some(a2)) => {
            let b = a2 as int;
            assert(c.reserved() < b <= c.host_hi());
            assert(used.contains(b as u32));
            assert(b as u32 == a2);
            assert(false);
        },
        (None, None) => {},
    }
}

/// Parsing an address's canonical text gives the address back: what the
/// formatter writes into the roster, the parser reads out again.
pub proof fn lemma_parse_format_roundtrip(a: u32)
    ensures
        spec_parse_ipv4(ipv4_str(a)) == Some(a),
{
    let o1 = a as int / 0x100_0000;
    let o2 = (a as int / 0x1_0000) % 0x100;
    let o3 = (a as int / 0x100) % 0x100;
    let o4 = a as int % 0x100;
    assert(0 <= o1 <= 255) by {
        vstd::arithmetic::div_mod::lemma_div_pos_is_pos(a as int, 0x100_0000);
        vstd::arithmetic::div_mod::lemma_div_is_ordered(a as int, 0xffff_ffff, 0x100_0000);
    }
    let d1 = dec_str(o1);
    let d2 = dec_str(o2);
    let d3 = dec_str(o3);
    let d4 = dec_str(o4);
    crate::text::lemma_dec_str_digits(o1);
    crate::text::lemma_dec_str_digits(o2);
    crate::text::lemma_dec_str_digits(o3);
    crate::text::lemma_dec_str_digits(o4);
    crate::text::lemma_dec_val_of_dec_str(o1);
    crate::text::lemma_dec_val_of_dec_str(o2);
    crate::text::lemma_dec_val_of_dec_str(o3);
    crate::text::lemma_dec_val_of_dec_str(o4);

    // The dots sit exactly between the four digit groups.
    let s1 = d1;
    let s2 = s1.push('.');
    let s3 = s2 + d2;
    let s4 = s3.push('.');
    let s5 = s4 + d3;
    let s6 = s5.push('.');
    let s7 = s6 + d4;
    assert(s7 =~= ipv4_str(a));
    assert(Seq::<char>::empty() + d1 =~= d1);
    crate::text::lemma_split_extend(Seq::<char>::empty(), d1, '.');
    assert(split_on(Seq::<char>::empty(), '.') =~= seq![Seq::<char>::empty()]);
    assert(split_on(s1, '.') =~~= seq![d1]);
    crate::text::lemma_split_push_sep(s1, '.');
    assert(split_on(s2, '.') =~~= seq![d1, Seq::<char>::empty()]);
    crate::text::lemma_split_extend(s2, d2, '.');
    assert(Seq::<char>::empty() + d2 =~= d2);
    assert(split_on(s3, '.') =~~= seq![d1, d2]);
    crate::text::lemma_split_push_sep(s3, '.');
    assert(split_on(s4, '.') =~~= seq![d1, d2, Seq::<char>::empty()]);
    crate::text::lemma_split_extend(s4, d3, '.');
    assert(Seq::<char>::empty() + d3 =~= d3);
    assert(split_on(s5, '.') =~~= seq![d1, d2, d3]);
    crate::text::lemma_split_push_sep(s5, '.');
    assert(split_on(s6, '.') =~~= seq![d1, d2, d3, Seq::<char>::empty()]);
    crate::text::lemma_split_extend(s6, d4, '.');
    assert(Seq::<char>::empty() + d4 =~= d4);
    assert(split_on(s7, '.') =~~= seq![d1, d2, d3, d4]);

    // Each group is a canonical octet.
    let p = split_on(ipv4_str(a), '.');
    assert(p =~~= seq![d1, d2, d3, d4]);
    assert(octet_ok(d1) && dec_val(d1) == o1);
    assert(octet_ok(d2) && dec_val(d2) == o2);
    assert(octet_ok(d3) && dec_val(d3) == o3);
    assert(octet_ok(d4) && dec_val(d4) == o4);

    // The four octets recombine to the address.
    assert(o1 * 0x100_0000 + o2 * 0x1_0000 + o3 * 0x100 + o4 == a) by {
        lemma_octet_recombine(a);
    }
    assert((o1 * 0x100_0000 + o2 * 0x1_0000 + o3 * 0x100 + o4) as u32 == a);
}

/// An address is the weighted sum of its four octets.
proof fn lemma_octet_recombine(a: u32)
    ensures
        (a as int / 0x100_0000) * 0x100_0000 + ((a as int / 0x1_0000) % 0x100) * 0x1_0000
            + ((a as int / 0x100) % 0x100) * 0x100 + a as int % 0x100 == a as int,
{
    let x = a as int;
    vstd::arithmetic::div_mod::lemma_fundamental_div_mod(x, 0x100);
    vstd::arithmetic::div_mod::lemma_fundamental_div_mod(x / 0x100, 0x100);
    vstd::arithmetic::div_mod::lemma_fundamental_div_mod(x / 0x1_0000, 0x100);
    assert(x / 0x100 / 0x100 == x / 0x1_0000) by {
        vstd::arithmetic::div_mod::lemma_div_denominator(x, 0x100, 0x100);
    }
    assert(x / 0x1_0000 / 0x100 == x / 0x100_0000) by {
        vstd::arithmetic::div_mod::lemma_div_denominator(x, 0x1_0000, 0x100);
    }
    assert(x == (x / 0x100) * 0x100 + x % 0x100);
    assert(x / 0x100 == (x / 0x1_0000) * 0x100 + (x / 0x100) % 0x100);
    assert(x / 0x1_0000 == (x / 0x100_0000) * 0x100 + (x / 0x1_0000) % 0x100);
    assert(((x / 0x1_0000) * 0x100 + (x / 0x100) % 0x100) * 0x100
        == (x / 0x1_0000) * 0x1_0000 + ((x / 0x100) % 0x100) * 0x100) by (nonlinear_arith);
    assert(((x / 0x100_0000) * 0x100 + (x / 0x1_0000) % 0x100) * 0x1_0000
        == (x / 0x100_0000) * 0x100_0000 + ((x / 0x1_0000) % 0x100) * 0x1_0000)
        by (nonlinear_arith);
}

/// A contiguous range of addresses holds one element per address.
proof fn lemma_range_card(lo: int, hi: int)
    requires
        0 <= lo,
        hi < 0x1_0000_0000,
        lo - 1 <= hi,
    ensures
        Set::new(|a: u32| lo <= a <= hi).finite(),
        Set::new(|a: u32| lo <= a <= hi).len() == hi - lo + 1,
    decreases hi - lo + 1,
{
    broadcast use vstd::set::axiom_set_insert_len;

    let s = Set::new(|a: u32| lo <= a <= hi);
    if hi < lo {
        assert(s =~= Set::<u32>::empty());
    } else {
        lemma_range_card(lo, hi - 1);
        let s0 = Set::new(|a: u32| lo <= a <= hi - 1);
        assert((hi as u32) as int == hi);
        assert(s =~= s0.insert(hi as u32));
        assert(!s0.contains(hi as u32));
    }
}

/// When as many distinct addresses are in use as the block has usable hosts
/// besides the reserved one, the pool is exhausted: allocation returns
/// nothing.
pub proof fn lemma_allocate_exhausted_by_count(c: Ipv4Cidr, used: Seq<u32>, r: Option<u32>)
    requires
        c.wf(),
        forall|i: int| 0 <= i < used.len()
            ==> c.is_host(#[trigger] used[i] as int) && used[i] as int != c.reserved(),
        used.to_set().len() >= c.usable_hosts() - 1,
        allocate_post(c, used, r),
    ensures
        r is None,
{
    lemma_cidr_bounds(c);
    if r is Some {
        let a = r->0;
        let lo = c.reserved() + 1;
        let hi = c.host_hi();
        let cand = Set::new(|x: u32| lo <= x <= hi);
        lemma_range_card(lo, hi);
        assert(used.to_set().subset_of(cand)) by {
            assert forall|x: u32| used.to_set().contains(x) implies cand.contains(x) by {
                let i = choose|i: int| 0 <= i < used.len() && used[i] == x;
                assert(c.is_host(used[i] as int) && used[i] as int != c.reserved());
            }
        }
        // The allocated address is a candidate the used set misses.
        assert(cand.contains(a));
        assert(!used.to_set().contains(a));
        used.to_set().lemma_subset_not_in_lt(cand, a);
        assert(cand.len() == hi - lo + 1);
        assert(c.usable_hosts() - 1 == hi - lo + 1);
        assert(false);
    }
}

} // verus!
