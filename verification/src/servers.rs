//! The game's `servers.db` list: decoding, merging with the launcher's
//! servers (first of each address and port kept), and encoding.
use vstd::prelude::*;
use vstd::utf8::{encode_utf8, valid_utf8, decode_utf8, encode_utf8_valid_utf8, encode_utf8_decode_utf8};
use crate::bytes::{le_u16_at, le_u32_at, get_u16_le, get_u32_le, u16_le, u32_le, push_u16_le, push_u32_le};
use crate::text::{lossy_text, text_from_bytes_lossy};
use crate::nbt::text_of;
use crate::region::slice_range;

verus! {

/// A multiplayer server entry.
pub struct McServer {
    pub name: String,
    pub ip: String,
    pub port: u16,
}

/// A server as values: name, address and port.
pub type ServerModel = (Seq<char>, Seq<char>, u16);

/// The values of a list of servers.
pub open spec fn servers_view(v: Seq<McServer>) -> Seq<ServerModel> {
    Seq::new(v.len(), |i: int| (v[i].name@, v[i].ip@, v[i].port))
}

/// `MCSV`.
pub open spec fn mcsv_magic() -> Seq<u8> {
    seq![0x4Du8, 0x43, 0x53, 0x56]
}

/// The servers stored from `pos` on, `k` more at most: each an address
/// (16-bit length, bytes), a port and a name (16-bit length, bytes), text
/// decoded as UTF-8 (leniently where invalid); reading stops at a record
/// cut short.
pub open spec fn servers_from(c: Seq<u8>, pos: int, k: nat) -> Seq<ServerModel>
    decreases k,
{
    if k == 0 || pos < 0 || pos + 2 > c.len() {
        seq![]
    } else {
        let il = le_u16_at(c, pos) as int;
        let p1 = pos + 2;
        if p1 + il > c.len() || p1 + il + 2 > c.len() {
            seq![]
        } else {
            let ip = text_of(c.subrange(p1, p1 + il));
            let port = le_u16_at(c, p1 + il);
            let p2 = p1 + il + 2;
            if p2 + 2 > c.len() {
                seq![]
            } else {
                let nl = le_u16_at(c, p2) as int;
                let p3 = p2 + 2;
                if p3 + nl > c.len() {
                    seq![]
                } else {
                    seq![(text_of(c.subrange(p3, p3 + nl)), ip, port)] + servers_from(c, p3 + nl, (k - 1) as nat)
                }
            }
        }
    }
}

/// The servers of a `servers.db` file; none without the `MCSV` header.
pub open spec fn stored_servers(c: Seq<u8>) -> Seq<ServerModel> {
    if c.len() >= 12 && c.take(4) == mcsv_magic() {
        servers_from(c, 12, le_u32_at(c, 8) as nat)
    } else {
        seq![]
    }
}

/// Whether `d` has a server with the address and port of `s`.
pub open spec fn has_endpoint(d: Seq<ServerModel>, s: ServerModel) -> bool {
    exists|k: int| 0 <= k < d.len() && #[trigger] d[k].1 == s.1 && d[k].2 == s.2
}

/// The servers with the first of each address and port kept, in order.
pub open spec fn unique_servers(s: Seq<ServerModel>) -> Seq<ServerModel>
    decreases s.len(),
{
    if s.len() == 0 {
        seq![]
    } else {
        let d = unique_servers(s.drop_last());
        if has_endpoint(d, s.last()) {
            d
        } else {
            d.push(s.last())
        }
    }
}

/// The bytes of one stored server.
pub open spec fn server_record(s: ServerModel) -> Seq<u8> {
    let ip = encode_utf8(s.1);
    let name = encode_utf8(s.0);
    u16_le(ip.len() as u16) + ip + u16_le(s.2) + u16_le(name.len() as u16) + name
}

/// The records of the servers one after another.
pub open spec fn server_records(s: Seq<ServerModel>) -> Seq<u8>
    decreases s.len(),
{
    if s.len() == 0 {
        seq![]
    } else {
        server_records(s.drop_last()) + server_record(s.last())
    }
}

/// A `servers.db` file holding the servers: `MCSV`, version 1, the count,
/// the records.
pub open spec fn encoded_servers(s: Seq<ServerModel>) -> Seq<u8> {
    mcsv_magic() + u32_le(1) + u32_le(s.len() as u32) + server_records(s)
}

/// The `servers.db` that the launcher writes: the stored servers (if any)
/// followed by the launcher's, the first of each address and port kept.
pub open spec fn merged_server_file(existing: Option<Seq<u8>>, servers: Seq<ServerModel>) -> Seq<u8> {
    let stored = match existing {
        Some(c) => stored_servers(c),
        None => seq![],
    };
    encoded_servers(unique_servers(stored + servers))
}

fn read_text(c: &[u8], from: usize, len: usize) -> (r: String)
    requires
        from + len <= c@.len(),
    ensures
        r@ == text_of(c@.subrange(from as int, from + len)),
{
    let cl = c.len();
    assert(from + len <= cl);
    text_from_bytes_lossy(slice_range(c, from, from + len))
}

/// Decodes a `servers.db` file (see `stored_servers`).
pub fn parse_server_list(content: &[u8]) -> (r: Vec<McServer>)
    ensures
        servers_view(r@) == stored_servers(content@),
{
    let mut out: Vec<McServer> = Vec::new();
    let len = content.len();
    if len < 12 || content[0] != 0x4D || content[1] != 0x43 || content[2] != 0x53 || content[3] != 0x56 {
        proof {
            if len >= 12 {
                assert(content@.take(4)[0] == content@[0]);
                assert(content@.take(4)[1] == content@[1]);
                assert(content@.take(4)[2] == content@[2]);
                assert(content@.take(4)[3] == content@[3]);
            }
        }
        assert(servers_view(out@) =~= Seq::<ServerModel>::empty());
        return out;
    }
    assert(content@.take(4) =~= mcsv_magic());
    let count = get_u32_le(content, 8);
    let mut pos: usize = 12;
    let mut k: u32 = 0;
    let ghost all = servers_from(content@, 12, count as nat);
    assert(servers_view(out@) + all =~= all);
    while k < count
        invariant
            len == content@.len(),
            pos <= len,
            k <= count,
            all == servers_from(content@, 12, count as nat),
            servers_view(out@) + servers_from(content@, pos as int, (count - k) as nat) == all,
        ensures
            servers_view(out@) == all,
        decreases count - k,
    {
        let ghost rest = servers_from(content@, pos as int, (count - k) as nat);
        if len - pos < 2 {
            assert(servers_view(out@) + Seq::<ServerModel>::empty() =~= servers_view(out@));
            break;
        }
        let il = get_u16_le(content, pos) as usize;
        let p1 = pos + 2;
        if il > len - p1 || il + 2 > len - p1 {
            assert(servers_view(out@) + Seq::<ServerModel>::empty() =~= servers_view(out@));
            break;
        }
        let ip = read_text(content, p1, il);
        let port = get_u16_le(content, p1 + il);
        let p2 = p1 + il + 2;
        if len - p2 < 2 {
            assert(servers_view(out@) + Seq::<ServerModel>::empty() =~= servers_view(out@));
            break;
        }
        let nl = get_u16_le(content, p2) as usize;
        let p3 = p2 + 2;
        if nl > len - p3 {
            assert(servers_view(out@) + Seq::<ServerModel>::empty() =~= servers_view(out@));
            break;
        }
        let name = read_text(content, p3, nl);
        let ghost before = servers_view(out@);
        let ghost entry = (name@, ip@, port);
        out.push(McServer { name, ip, port });
        assert(servers_view(out@) =~= before.push(entry));
        assert(rest == seq![entry] + servers_from(content@, (p3 + nl) as int, (count - k - 1) as nat));
        assert(before + (seq![entry] + servers_from(content@, (p3 + nl) as int, (count - k - 1) as nat))
            =~= servers_view(out@) + servers_from(content@, (p3 + nl) as int, (count - k - 1) as nat));
        pos = p3 + nl;
        k += 1;
    }
    out
}

fn same_endpoint_in(d: &Vec<McServer>, s: &McServer) -> (r: bool)
    ensures
        r == has_endpoint(servers_view(d@), (s.name@, s.ip@, s.port)),
{
    let ghost dv = servers_view(d@);
    let mut k: usize = 0;
    while k < d.len()
        invariant
            k <= d@.len(),
            dv == servers_view(d@),
            forall|j: int| 0 <= j < k ==> !(#[trigger] dv[j].1 == s.ip@ && dv[j].2 == s.port),
        decreases d@.len() - k,
    {
        if crate::text::same_text(d[k].ip.as_str(), s.ip.as_str()) && d[k].port == s.port {
            assert(dv[k as int].1 == s.ip@ && dv[k as int].2 == s.port);
            return true;
        }
        k += 1;
    }
    false
}

/// The servers with the first of each address and port kept.
pub fn dedupe_servers(all: Vec<McServer>) -> (r: Vec<McServer>)
    ensures
        servers_view(r@) == unique_servers(servers_view(all@)),
{
    let ghost av = servers_view(all@);
    let mut out: Vec<McServer> = Vec::new();
    let mut i: usize = 0;
    assert(av.take(0) =~= Seq::<ServerModel>::empty());
    assert(servers_view(out@) =~= Seq::<ServerModel>::empty());
    for s in it: all
        invariant
            it.seq() == all@,
            av == servers_view(all@),
            servers_view(out@) == unique_servers(av.take(it.index() as int)),
    {
        let ghost k = it.index();
        assert(av.take(k + 1).drop_last() =~= av.take(k as int));
        assert(av.take(k + 1).last() == (s.name@, s.ip@, s.port));
        if !same_endpoint_in(&out, &s) {
            let ghost before = servers_view(out@);
            let ghost sv = (s.name@, s.ip@, s.port);
            out.push(s);
            assert(servers_view(out@) =~= before.push(sv));
        }
    }
    assert(av.take(av.len() as int) =~= av);
    out
}

fn push_bytes(out: &mut Vec<u8>, b: &[u8])
    ensures
        final(out)@ == old(out)@ + b@,
{
    let ghost start = out@;
    let mut i: usize = 0;
    while i < b.len()
        invariant
            i <= b@.len(),
            out@ == start + b@.take(i as int),
        decreases b@.len() - i,
    {
        out.push(b[i]);
        i += 1;
        assert(out@ =~= start + b@.take(i as int));
    }
    assert(b@.take(i as int) =~= b@);
}

/// `d` with each server of `extra` added, in order, where no server already
/// there has its address and port.
pub open spec fn add_missing(d: Seq<ServerModel>, extra: Seq<ServerModel>) -> Seq<ServerModel>
    decreases extra.len(),
{
    if extra.len() == 0 {
        d
    } else {
        let p = add_missing(d, extra.drop_last());
        if has_endpoint(p, extra.last()) {
            p
        } else {
            p.push(extra.last())
        }
    }
}

/// The LCEOnline server the launcher always offers.
pub open spec fn lce_online_server() -> ServerModel {
    ("LCEOnline Game"@, "127.0.0.1"@, 61000u16)
}

/// The servers a game is launched with: the requested ones, then the
/// LCEOnline server and the saved ones, each only where its address and
/// port are not listed yet.
pub open spec fn launch_server_list(servers: Seq<ServerModel>, saved: Seq<ServerModel>) -> Seq<ServerModel> {
    add_missing(add_missing(servers, seq![lce_online_server()]), saved)
}

fn add_if_missing(out: &mut Vec<McServer>, s: McServer)
    ensures
        servers_view(final(out)@) == (if has_endpoint(servers_view(old(out)@), (s.name@, s.ip@, s.port)) {
            servers_view(old(out)@)
        } else {
            servers_view(old(out)@).push((s.name@, s.ip@, s.port))
        }),
{
    let ghost sv = (s.name@, s.ip@, s.port);
    let ghost before = servers_view(out@);
    if !same_endpoint_in(out, &s) {
        out.push(s);
        assert(servers_view(out@) =~= before.push(sv));
    }
}

/// The servers a game is launched with (see `launch_server_list`); the
/// saved servers are copied.
pub fn launch_servers(servers: Vec<McServer>, saved: &[McServer]) -> (r: Vec<McServer>)
    ensures
        servers_view(r@) == launch_server_list(servers_view(servers@), servers_view(saved@)),
{
    let mut out = servers;
    let ghost sv0 = servers_view(out@);
    proof {
        let one = seq![lce_online_server()];
        assert(one.drop_last() =~= Seq::<ServerModel>::empty());
        assert(one.last() == lce_online_server());
        assert(add_missing(sv0, Seq::<ServerModel>::empty()) == sv0);
    }
    add_if_missing(&mut out, McServer {
        name: crate::anvil::owned("LCEOnline Game"),
        ip: crate::anvil::owned("127.0.0.1"),
        port: 61000,
    });
    let ghost first = servers_view(out@);
    let ghost sv = servers_view(saved@);
    let mut i: usize = 0;
    assert(sv.take(0) =~= Seq::<ServerModel>::empty());
    while i < saved.len()
        invariant
            i <= saved@.len(),
            sv == servers_view(saved@),
            servers_view(out@) == add_missing(first, sv.take(i as int)),
        decreases saved@.len() - i,
    {
        let c = McServer {
            name: crate::anvil::owned(saved[i].name.as_str()),
            ip: crate::anvil::owned(saved[i].ip.as_str()),
            port: saved[i].port,
        };
        add_if_missing(&mut out, c);
        proof {
            let t = sv.take(i + 1);
            assert(t.drop_last() =~= sv.take(i as int));
            assert(t.last() == sv[i as int]);
            assert(add_missing(first, t) == (if has_endpoint(add_missing(first, sv.take(i as int)), sv[i as int]) {
                add_missing(first, sv.take(i as int))
            } else {
                add_missing(first, sv.take(i as int)).push(sv[i as int])
            }));
        }
        i += 1;
    }
    assert(sv.take(i as int) =~= sv);
    out
}

/// Encodes a `servers.db` file (see `encoded_servers`).
pub fn encode_server_list(servers: &Vec<McServer>) -> (r: Vec<u8>)
    ensures
        r@ == encoded_servers(servers_view(servers@)),
{
    let ghost sv = servers_view(servers@);
    let mut out: Vec<u8> = Vec::new();
    push_bytes(&mut out, vec![0x4Du8, 0x43, 0x53, 0x56].as_slice());
    push_u32_le(&mut out, 1);
    push_u32_le(&mut out, servers.len() as u32);
    let ghost head = out@;
    let mut i: usize = 0;
    assert(sv.take(0) =~= Seq::<ServerModel>::empty());
    while i < servers.len()
        invariant
            i <= servers@.len(),
            sv == servers_view(servers@),
            out@ == head + server_records(sv.take(i as int)),
        decreases servers@.len() - i,
    {
        assert(sv.take(i + 1).drop_last() =~= sv.take(i as int));
        let ip = servers[i].ip.as_str().as_bytes();
        let name = servers[i].name.as_str().as_bytes();
        push_u16_le(&mut out, ip.len() as u16);
        push_bytes(&mut out, ip);
        push_u16_le(&mut out, servers[i].port);
        push_u16_le(&mut out, name.len() as u16);
        push_bytes(&mut out, name);
        i += 1;
        assert(out@ =~= head + server_records(sv.take(i as int)));
    }
    assert(sv.take(i as int) =~= sv);
    assert(out@ =~= encoded_servers(sv));
    out
}

/// The `servers.db` that the launcher writes (see `merged_server_file`).
pub fn server_list_bytes(existing: Option<&[u8]>, servers: Vec<McServer>) -> (r: Vec<u8>)
    ensures
        r@ == merged_server_file(
            match existing {
                Some(c) => Some(c@),
                None => None,
            },
            servers_view(servers@),
        ),
{
    let mut all: Vec<McServer> = match existing {
        Some(c) => parse_server_list(c),
        None => Vec::new(),
    };
    let ghost first = servers_view(all@);
    let ghost second = servers_view(servers@);
    for s in it: servers
        invariant
            it.seq() == servers@,
            second == servers_view(servers@),
            servers_view(all@) == first + second.take(it.index() as int),
    {
        let ghost k = it.index();
        let ghost before = servers_view(all@);
        let ghost sv = (s.name@, s.ip@, s.port);
        assert(second.take(k + 1).drop_last() =~= second.take(k as int));
        assert(second.take(k + 1).last() == sv);
        all.push(s);
        assert(servers_view(all@) =~= before.push(sv));
        assert(servers_view(all@) =~= first + second.take(k + 1));
    }
    assert(second.take(second.len() as int) =~= second);
    proof {
        if existing is None {
            assert(first =~= Seq::<ServerModel>::empty());
        }
    }
    let unique = dedupe_servers(all);
    encode_server_list(&unique)
}

/// Whether every server's address and name fit a 16-bit length.
pub open spec fn storable(s: Seq<ServerModel>) -> bool {
    forall|k: int| 0 <= k < s.len() ==> encode_utf8(#[trigger] s[k].1).len() <= 0xFFFF && encode_utf8(s[k].0).len() <= 0xFFFF
}

#[verifier::spinoff_prover]
#[verifier::rlimit(40)]
proof fn lemma_records_from(s: Seq<ServerModel>, prefix: Seq<u8>, k: nat)
    requires
        storable(s),
        k >= s.len(),
    ensures
        servers_from(prefix + server_records(s), prefix.len() as int, k) == s,
    decreases s.len(),
{
    if s.len() > 0 {
        let first = s[0];
        let rest = s.drop_first();
        let ip = encode_utf8(first.1);
        let name = encode_utf8(first.0);
        lemma_records_split(s);
        let rec = server_record(first);
        let c = prefix + server_records(s);
        assert(c =~= (prefix + rec) + server_records(rest));
        let pos = prefix.len() as int;
        assert(c.subrange(pos, pos + 2) =~= u16_le(ip.len() as u16));
        crate::bytes::lemma_le_u16_roundtrip(c, pos, ip.len() as u16);
        let p1 = pos + 2;
        assert(c.subrange(p1, p1 + ip.len()) =~= ip);
        let pp = p1 + ip.len();
        assert(c.subrange(pp, pp + 2) =~= u16_le(first.2));
        crate::bytes::lemma_le_u16_roundtrip(c, pp, first.2);
        let p2 = pp + 2;
        assert(c.subrange(p2, p2 + 2) =~= u16_le(name.len() as u16));
        crate::bytes::lemma_le_u16_roundtrip(c, p2, name.len() as u16);
        let p3 = p2 + 2;
        assert(c.subrange(p3, p3 + name.len()) =~= name);
        encode_utf8_valid_utf8(first.1);
        encode_utf8_decode_utf8(first.1);
        encode_utf8_valid_utf8(first.0);
        encode_utf8_decode_utf8(first.0);
        assert(storable(rest)) by {
            assert forall|j: int| 0 <= j < rest.len() implies encode_utf8(#[trigger] rest[j].1).len() <= 0xFFFF && encode_utf8(rest[j].0).len() <= 0xFFFF by {
                assert(rest[j] == s[j + 1]);
            }
        }
        lemma_records_from(rest, prefix + rec, (k - 1) as nat);
        assert((prefix + rec).len() == p3 + name.len());
        assert(seq![first] + rest =~= s);
    } else {
        assert(server_records(s) =~= Seq::<u8>::empty());
    }
}

proof fn lemma_records_split(s: Seq<ServerModel>)
    requires
        s.len() > 0,
    ensures
        server_records(s) == server_record(s[0]) + server_records(s.drop_first()),
    decreases s.len(),
{
    if s.len() == 1 {
        assert(s.drop_last() =~= Seq::<ServerModel>::empty());
        assert(s.drop_first() =~= Seq::<ServerModel>::empty());
        assert(server_records(s.drop_last()) == Seq::<u8>::empty());
        assert(s.last() == s[0]);
        assert(server_records(s) =~= server_record(s[0]));
    } else {
        lemma_records_split(s.drop_last());
        assert(s.drop_last().drop_first() =~= s.drop_first().drop_last());
        assert(s.drop_first().last() == s.last());
        assert(server_records(s) =~= server_record(s[0]) + server_records(s.drop_first()));
    }
}

/// Decoding an encoded server list gives the servers back, where each
/// address and name fits a 16-bit length and the count fits 32 bits.
pub proof fn lemma_server_list_roundtrip(s: Seq<ServerModel>)
    requires
        storable(s),
        s.len() <= 0xFFFF_FFFF,
    ensures
        stored_servers(encoded_servers(s)) == s,
{
    let c = encoded_servers(s);
    let head = mcsv_magic() + u32_le(1) + u32_le(s.len() as u32);
    assert(c =~= head + server_records(s));
    assert(c.take(4) =~= mcsv_magic());
    assert(c.subrange(8, 12) =~= u32_le(s.len() as u32));
    crate::bytes::lemma_le_u32_roundtrip(c, 8, s.len() as u32);
    lemma_records_from(s, head, s.len());
}

} // verus!
