//! The bytes in which events travel to listeners.
//!
//! An event's parts are encoded with bincode's default configuration, and
//! the encoding is sent as one frame: its length as eight little-endian
//! bytes, then the encoding itself. A listener reads frames back one at a
//! time, so message boundaries never depend on the encoding.
use crate::config::string_views;
use crate::event::{category_of, counts_of, status_views, Category, Event, RemoteStatus};
use vstd::prelude::*;
use vstd::utf8::{decode_utf8, encode_utf8, encode_utf8_decode_utf8};

verus! {

/// bincode's error kind, carried through opaque and never inspected.
#[verifier::external_type_specification]
#[verifier::external_body]
pub struct ExBincodeErrorKind(bincode::ErrorKind);

/// The (remote name, ahead, behind) triples as values.
pub open spec fn triples_view(s: Seq<(String, u64, u64)>) -> Seq<(Seq<char>, u64, u64)> {
    s.map_values(|t: (String, u64, u64)| (t.0@, t.1, t.2))
}

/// Relies on `bincode::serialize`: the bytes of the tuple of the four parts
/// under bincode's default configuration, laid out as `bincode_of` states.
/// It succeeds here: that configuration sets no size limit, the output goes
/// into a `Vec`, and strings, integers and a `Vec` all have known lengths.
#[verifier::external_body]
fn serialize_parts(
    repo: &String,
    branch: &String,
    id: u128,
    statuses: &Vec<(String, u64, u64)>,
) -> (r: Result<Vec<u8>, Box<bincode::ErrorKind>>)
    ensures
        r is Ok,
        r->Ok_0@ == bincode_of(repo@, branch@, id, triples_view(statuses@)),
{
    bincode::serialize(&(repo, branch, id, statuses))
}

/// The eight little-endian bytes of `n`.
pub open spec fn le_bytes(n: u64) -> Seq<u8> {
    seq![
        n as u8,
        (n >> 8) as u8,
        (n >> 16) as u8,
        (n >> 24) as u8,
        (n >> 32) as u8,
        (n >> 40) as u8,
        (n >> 48) as u8,
        (n >> 56) as u8,
    ]
}

/// The number whose little-endian bytes are the first eight of `b`.
pub open spec fn le_value(b: Seq<u8>) -> u64
    recommends
        b.len() >= 8,
{
    (b[0] as u64) | ((b[1] as u64) << 8) | ((b[2] as u64) << 16) | ((b[3] as u64) << 24) | ((
    b[4] as u64) << 32) | ((b[5] as u64) << 40) | ((b[6] as u64) << 48) | ((b[7] as u64) << 56)
}

/// A string as bincode writes it: the length of its UTF-8 encoding in eight
/// little-endian bytes, then that encoding.
pub open spec fn string_bytes(s: Seq<char>) -> Seq<u8> {
    le_bytes(encode_utf8(s).len() as u64) + encode_utf8(s)
}

/// A 128-bit integer as bincode writes it: sixteen little-endian bytes.
pub open spec fn u128_bytes(n: u128) -> Seq<u8> {
    le_bytes(n as u64) + le_bytes((n >> 64) as u64)
}

/// The (remote name, ahead, behind) triples as bincode writes them, one
/// after another, without their count.
pub open spec fn triples_bytes(ts: Seq<(Seq<char>, u64, u64)>) -> Seq<u8>
    decreases ts.len(),
{
    if ts.len() == 0 {
        Seq::empty()
    } else {
        triples_bytes(ts.drop_last()) + string_bytes(ts.last().0) + le_bytes(ts.last().1)
            + le_bytes(ts.last().2)
    }
}

/// The encoding that bincode's default configuration (fixed-width integers,
/// little-endian) gives to the tuple (repository name, branch name, id,
/// [(remote name, ahead, behind)]): each part in turn, the list as its count
/// in eight bytes followed by its items.
pub open spec fn bincode_of(
    repo: Seq<char>,
    branch: Seq<char>,
    id: u128,
    statuses: Seq<(Seq<char>, u64, u64)>,
) -> Seq<u8> {
    string_bytes(repo) + string_bytes(branch) + u128_bytes(id) + le_bytes(statuses.len() as u64)
        + triples_bytes(statuses)
}

/// A payload's frame: its length in eight little-endian bytes, then itself.
pub open spec fn frame_of(payload: Seq<u8>) -> Seq<u8> {
    le_bytes(payload.len() as u64) + payload
}

/// Each status as (remote name, ahead, behind), the form it is sent in.
pub open spec fn wire_statuses(statuses: Seq<(Seq<char>, Category)>) -> Seq<(Seq<char>, u64, u64)> {
    statuses.map_values(|s: (Seq<char>, Category)| (s.0, counts_of(s.1).0, counts_of(s.1).1))
}

/// The encoding of an event's parts, with each status as its counts.
pub open spec fn event_bytes(
    repo: Seq<char>,
    branch: Seq<char>,
    id: u128,
    statuses: Seq<(Seq<char>, Category)>,
) -> Seq<u8> {
    bincode_of(repo, branch, id, wire_statuses(statuses))
}

proof fn lemma_le_round_trip(n: u64)
    ensures
        le_value(le_bytes(n)) == n,
{
    let b0 = n as u8;
    let b1 = (n >> 8) as u8;
    let b2 = (n >> 16) as u8;
    let b3 = (n >> 24) as u8;
    let b4 = (n >> 32) as u8;
    let b5 = (n >> 40) as u8;
    let b6 = (n >> 48) as u8;
    let b7 = (n >> 56) as u8;
    assert((b0 as u64) | ((b1 as u64) << 8) | ((b2 as u64) << 16) | ((b3 as u64) << 24) | ((
    b4 as u64) << 32) | ((b5 as u64) << 40) | ((b6 as u64) << 48) | ((b7 as u64) << 56) == n)
        by (bit_vector)
        requires
            b0 == n as u8,
            b1 == (n >> 8) as u8,
            b2 == (n >> 16) as u8,
            b3 == (n >> 24) as u8,
            b4 == (n >> 32) as u8,
            b5 == (n >> 40) as u8,
            b6 == (n >> 48) as u8,
            b7 == (n >> 56) as u8,
    ;
}

/// Wraps a payload in its frame.
pub fn frame(payload: &Vec<u8>) -> (r: Vec<u8>)
    requires
        payload.len() <= u64::MAX,
    ensures
        r@ == frame_of(payload@),
{
    let n: u64 = payload.len() as u64;
    let mut r: Vec<u8> = Vec::new();
    r.push(n as u8);
    r.push((n >> 8) as u8);
    r.push((n >> 16) as u8);
    r.push((n >> 24) as u8);
    r.push((n >> 32) as u8);
    r.push((n >> 40) as u8);
    r.push((n >> 48) as u8);
    r.push((n >> 56) as u8);
    let mut i: usize = 0;
    while i < payload.len()
        invariant
            i <= payload.len(),
            r@ == le_bytes(n) + payload@.subrange(0, i as int),
        decreases payload.len() - i,
    {
        r.push(payload[i]);
        i = i + 1;
        proof {
            assert(r@ =~= le_bytes(n) + payload@.subrange(0, i as int));
        }
    }
    proof {
        assert(payload@.subrange(0, i as int) =~= payload@);
    }
    r
}

/// Reads the frame at the start of `buf`: its payload and the number of
/// bytes that the frame takes; none where `buf` does not yet hold a whole
/// frame.
pub fn split_frame(buf: &[u8]) -> (r: Option<(Vec<u8>, usize)>)
    ensures
        r is None <==> (buf@.len() < 8 || buf@.len() - 8 < le_value(buf@)),
        r is Some ==> {
            let n = le_value(buf@) as int;
            &&& r->Some_0.1 == 8 + n
            &&& r->Some_0.0@ == buf@.subrange(8, 8 + n)
        },
{
    if buf.len() < 8 {
        return None;
    }
    let n: u64 = (buf[0] as u64) | ((buf[1] as u64) << 8) | ((buf[2] as u64) << 16) | ((
    buf[3] as u64) << 24) | ((buf[4] as u64) << 32) | ((buf[5] as u64) << 40) | ((buf[6] as u64)
        << 48) | ((buf[7] as u64) << 56);
    assert(n == le_value(buf@));
    if ((buf.len() - 8) as u64) < n {
        return None;
    }
    let end: usize = 8 + n as usize;
    let mut payload: Vec<u8> = Vec::new();
    let mut i: usize = 8;
    while i < end
        invariant
            8 <= i <= end,
            end <= buf@.len(),
            payload@ == buf@.subrange(8, i as int),
        decreases end - i,
    {
        payload.push(buf[i]);
        i = i + 1;
        proof {
            assert(payload@ =~= buf@.subrange(8, i as int));
        }
    }
    Some((payload, end))
}

/// Reading a frame back gives the payload it was made from, and how far the
/// frame reached, whatever follows it.
pub proof fn lemma_frame_round_trip(payload: Seq<u8>, rest: Seq<u8>)
    requires
        payload.len() <= u64::MAX,
    ensures
        le_value(frame_of(payload) + rest) == payload.len(),
        (frame_of(payload) + rest).subrange(8, 8 + payload.len() as int) == payload,
        (frame_of(payload) + rest).subrange(8 + payload.len() as int, (frame_of(payload) + rest).len() as int)
            == rest,
{
    let n = payload.len() as u64;
    lemma_le_round_trip(n);
    let all = frame_of(payload) + rest;
    assert(all.subrange(0, 8) =~= le_bytes(n));
    assert(all[0] == le_bytes(n)[0] && all[1] == le_bytes(n)[1] && all[2] == le_bytes(n)[2]
        && all[3] == le_bytes(n)[3] && all[4] == le_bytes(n)[4] && all[5] == le_bytes(n)[5]
        && all[6] == le_bytes(n)[6] && all[7] == le_bytes(n)[7]);
    assert(le_value(all) == le_value(le_bytes(n)));
    assert(all.subrange(8, 8 + payload.len() as int) =~= payload);
    assert(all.subrange(8 + payload.len() as int, all.len() as int) =~= rest);
}

/// Encodes an event and wraps the encoding in its frame. The bytes are
/// those of the event's parts, so equal events give equal bytes.
pub fn encode_event(event: &Event) -> (r: Vec<u8>)
    ensures
        r@ == frame_of(event_bytes(event@.repo, event@.branch, event@.id, event@.statuses)),
{
    let statuses: &Vec<RemoteStatus> = event.statuses();
    let mut triples: Vec<(String, u64, u64)> = Vec::new();
    let mut i: usize = 0;
    while i < statuses.len()
        invariant
            i <= statuses.len(),
            status_views(statuses@) == event@.statuses,
            triples_view(triples@) == wire_statuses(event@.statuses).subrange(0, i as int),
        decreases statuses.len() - i,
    {
        let (ahead, behind) = statuses[i].category.counts();
        let name = statuses[i].remote.clone();
        let ghost before = triples@;
        triples.push((name, ahead, behind));
        proof {
            assert(status_views(statuses@)[i as int] == (
                statuses@[i as int].remote@,
                statuses@[i as int].category,
            ));
            assert(triples_view(triples@) =~= triples_view(before).push((name@, ahead, behind)));
            assert(triples_view(triples@) =~= wire_statuses(event@.statuses).subrange(0, i + 1));
        }
        i = i + 1;
    }
    proof {
        assert(wire_statuses(event@.statuses).subrange(0, i as int) =~= wire_statuses(
            event@.statuses,
        ));
    }
    match serialize_parts(event.repo(), event.branch(), event.id(), &triples) {
        Ok(payload) => frame(&payload),
        Err(_) => {
            proof {
                assert(false);
            }
            Vec::new()
        },
    }
}

proof fn lemma_le_prefix(a: u64, b: u64, ra: Seq<u8>, rb: Seq<u8>)
    requires
        le_bytes(a) + ra == le_bytes(b) + rb,
    ensures
        a == b,
        ra == rb,
{
    let x = le_bytes(a) + ra;
    assert(x.subrange(0, 8) =~= le_bytes(a));
    assert((le_bytes(b) + rb).subrange(0, 8) =~= le_bytes(b));
    lemma_le_round_trip(a);
    lemma_le_round_trip(b);
    assert(x.subrange(8, x.len() as int) =~= ra);
    assert((le_bytes(b) + rb).subrange(8, x.len() as int) =~= rb);
}

proof fn lemma_string_prefix(a: Seq<char>, b: Seq<char>, ra: Seq<u8>, rb: Seq<u8>)
    requires
        string_bytes(a) + ra == string_bytes(b) + rb,
        (string_bytes(a) + ra).len() <= u64::MAX,
    ensures
        a == b,
        ra == rb,
{
    let ea = encode_utf8(a);
    let eb = encode_utf8(b);
    assert(string_bytes(a) + ra =~= le_bytes(ea.len() as u64) + (ea + ra));
    assert(string_bytes(b) + rb =~= le_bytes(eb.len() as u64) + (eb + rb));
    lemma_le_prefix(ea.len() as u64, eb.len() as u64, ea + ra, eb + rb);
    assert(ea.len() == eb.len());
    assert((ea + ra).subrange(0, ea.len() as int) =~= ea);
    assert((eb + rb).subrange(0, ea.len() as int) =~= eb);
    assert((ea + ra).subrange(ea.len() as int, (ea + ra).len() as int) =~= ra);
    assert((eb + rb).subrange(ea.len() as int, (ea + ra).len() as int) =~= rb);
    encode_utf8_decode_utf8(a);
    encode_utf8_decode_utf8(b);
}

proof fn lemma_u128_prefix(a: u128, b: u128, ra: Seq<u8>, rb: Seq<u8>)
    requires
        u128_bytes(a) + ra == u128_bytes(b) + rb,
    ensures
        a == b,
        ra == rb,
{
    assert(u128_bytes(a) + ra =~= le_bytes(a as u64) + (le_bytes((a >> 64) as u64) + ra));
    assert(u128_bytes(b) + rb =~= le_bytes(b as u64) + (le_bytes((b >> 64) as u64) + rb));
    lemma_le_prefix(a as u64, b as u64, le_bytes((a >> 64) as u64) + ra, le_bytes((b >> 64) as u64) + rb);
    lemma_le_prefix((a >> 64) as u64, (b >> 64) as u64, ra, rb);
    let alo = a as u64;
    let ahi = (a >> 64) as u64;
    let blo = b as u64;
    let bhi = (b >> 64) as u64;
    assert(a == b) by (bit_vector)
        requires
            alo == a as u64,
            ahi == (a >> 64) as u64,
            blo == b as u64,
            bhi == (b >> 64) as u64,
            alo == blo,
            ahi == bhi,
    ;
}

/// One (remote name, ahead, behind) triple as bincode writes it.
pub open spec fn triple_bytes(t: (Seq<char>, u64, u64)) -> Seq<u8> {
    string_bytes(t.0) + le_bytes(t.1) + le_bytes(t.2)
}

proof fn lemma_triples_front(ts: Seq<(Seq<char>, u64, u64)>)
    requires
        ts.len() > 0,
    ensures
        triples_bytes(ts) == triple_bytes(ts[0]) + triples_bytes(ts.drop_first()),
    decreases ts.len(),
{
    if ts.len() == 1 {
        assert(ts.drop_last() =~= Seq::<(Seq<char>, u64, u64)>::empty());
        assert(ts.drop_first() =~= Seq::<(Seq<char>, u64, u64)>::empty());
        assert(triples_bytes(ts) =~= triple_bytes(ts[0]) + triples_bytes(ts.drop_first()));
    } else {
        let init = ts.drop_last();
        lemma_triples_front(init);
        assert(init.drop_first() =~= ts.drop_first().drop_last());
        assert(ts.drop_first().last() == ts.last());
        assert(triples_bytes(ts) =~= triple_bytes(ts[0]) + triples_bytes(ts.drop_first()));
    }
}

#[verifier::rlimit(60)]
proof fn lemma_triples_prefix(
    ts: Seq<(Seq<char>, u64, u64)>,
    us: Seq<(Seq<char>, u64, u64)>,
    ra: Seq<u8>,
    rb: Seq<u8>,
)
    requires
        ts.len() == us.len(),
        triples_bytes(ts) + ra == triples_bytes(us) + rb,
        (triples_bytes(ts) + ra).len() <= u64::MAX,
    ensures
        ts == us,
        ra == rb,
    decreases ts.len(),
{
    if ts.len() == 0 {
        assert(triples_bytes(ts) + ra =~= ra);
        assert(triples_bytes(us) + rb =~= rb);
        assert(ts =~= us);
    } else {
        lemma_triples_front(ts);
        lemma_triples_front(us);
        let (t, u) = (ts[0], us[0]);
        let ta = le_bytes(t.1) + (le_bytes(t.2) + (triples_bytes(ts.drop_first()) + ra));
        let ub = le_bytes(u.1) + (le_bytes(u.2) + (triples_bytes(us.drop_first()) + rb));
        assert(triples_bytes(ts) + ra =~= string_bytes(t.0) + ta);
        assert(triples_bytes(us) + rb =~= string_bytes(u.0) + ub);
        lemma_string_prefix(t.0, u.0, ta, ub);
        lemma_le_prefix(t.1, u.1, le_bytes(t.2) + (triples_bytes(ts.drop_first()) + ra), le_bytes(
            u.2,
        ) + (triples_bytes(us.drop_first()) + rb));
        lemma_le_prefix(t.2, u.2, triples_bytes(ts.drop_first()) + ra, triples_bytes(
            us.drop_first(),
        ) + rb);
        lemma_triples_prefix(ts.drop_first(), us.drop_first(), ra, rb);
        assert(ts =~= us) by {
            assert(ts == seq![ts[0]] + ts.drop_first());
            assert(us == seq![us[0]] + us.drop_first());
        }
    }
}

/// The encoding reads back unambiguously: where the encoding of some parts,
/// followed by `ra`, equals the encoding of other parts, followed by `rb`,
/// the parts are the same and so is what follows. So an encoding that starts
/// another one is that one.
#[verifier::rlimit(60)]
pub proof fn lemma_encoding_unambiguous(
    repo: Seq<char>,
    branch: Seq<char>,
    id: u128,
    statuses: Seq<(Seq<char>, u64, u64)>,
    repo2: Seq<char>,
    branch2: Seq<char>,
    id2: u128,
    statuses2: Seq<(Seq<char>, u64, u64)>,
    ra: Seq<u8>,
    rb: Seq<u8>,
)
    requires
        bincode_of(repo, branch, id, statuses) + ra == bincode_of(repo2, branch2, id2, statuses2)
            + rb,
        (bincode_of(repo, branch, id, statuses) + ra).len() <= u64::MAX,
    ensures
        repo == repo2,
        branch == branch2,
        id == id2,
        statuses == statuses2,
        ra == rb,
{
    let x3 = le_bytes(statuses.len() as u64) + (triples_bytes(statuses) + ra);
    let y3 = le_bytes(statuses2.len() as u64) + (triples_bytes(statuses2) + rb);
    let x2 = u128_bytes(id) + x3;
    let y2 = u128_bytes(id2) + y3;
    let x1 = string_bytes(branch) + x2;
    let y1 = string_bytes(branch2) + y2;
    assert(bincode_of(repo, branch, id, statuses) + ra =~= string_bytes(repo) + x1);
    assert(bincode_of(repo2, branch2, id2, statuses2) + rb =~= string_bytes(repo2) + y1);
    lemma_string_prefix(repo, repo2, x1, y1);
    lemma_string_prefix(branch, branch2, x2, y2);
    lemma_u128_prefix(id, id2, x3, y3);
    lemma_le_prefix(statuses.len() as u64, statuses2.len() as u64, triples_bytes(statuses) + ra,
        triples_bytes(statuses2) + rb);
    assert(triples_bytes(statuses).len() <= x3.len());
    assert(statuses.len() <= triples_bytes(statuses).len()) by {
        lemma_triples_len(statuses);
    }
    assert(statuses2.len() <= triples_bytes(statuses2).len()) by {
        lemma_triples_len(statuses2);
    }
    lemma_triples_prefix(statuses, statuses2, ra, rb);
}

proof fn lemma_triples_len(ts: Seq<(Seq<char>, u64, u64)>)
    ensures
        ts.len() * 24 <= triples_bytes(ts).len(),
    decreases ts.len(),
{
    if ts.len() > 0 {
        lemma_triples_len(ts.drop_last());
    }
}

/// Whether `bytes` are, exactly, the encoding of some event parts.
pub open spec fn is_encoding(bytes: Seq<u8>) -> bool {
    exists|repo: Seq<char>, branch: Seq<char>, id: u128, statuses: Seq<(Seq<char>, u64, u64)>|
        bytes == #[trigger] bincode_of(repo, branch, id, statuses)
}

/// Whether `p` is a prefix of `bytes`.
pub open spec fn is_prefix(p: Seq<u8>, bytes: Seq<u8>) -> bool {
    p.len() <= bytes.len() && bytes.subrange(0, p.len() as int) == p
}

/// Relies on `bincode::deserialize` for the tuple (repository name, branch
/// name, id, [(remote name, ahead, behind)]) under the default
/// configuration: it reads the parts in the layout of `bincode_of` from the
/// start of the bytes, checks that each string is UTF-8, and ignores what
/// follows. Bytes that are exactly such an encoding are read back.
#[verifier::external_body]
fn deserialize_parts(bytes: &[u8]) -> (r: Result<
    (String, String, u128, Vec<(String, u64, u64)>),
    Box<bincode::ErrorKind>,
>)
    ensures
        is_encoding(bytes@) ==> r is Ok,
        r is Ok ==> is_prefix(
            bincode_of(r->Ok_0.0@, r->Ok_0.1@, r->Ok_0.2, triples_view(r->Ok_0.3@)),
            bytes@,
        ),
{
    bincode::deserialize(bytes)
}

/// Reads an event back from the payload of a frame. It succeeds on every
/// payload that is exactly the encoding of some parts, and then gives back
/// exactly those parts; what it reads always encodes to the start of the
/// payload.
pub fn decode_event(payload: &[u8]) -> (r: Option<Event>)
    ensures
        is_encoding(payload@) ==> r is Some,
        r is Some ==> is_prefix(
            event_bytes(r->Some_0@.repo, r->Some_0@.branch, r->Some_0@.id, r->Some_0@.statuses),
            payload@,
        ),
        forall|repo: Seq<char>, branch: Seq<char>, id: u128, statuses: Seq<(Seq<char>, u64, u64)>|
            payload@ == #[trigger] bincode_of(repo, branch, id, statuses) ==> {
                &&& r is Some
                &&& r->Some_0@.repo == repo
                &&& r->Some_0@.branch == branch
                &&& r->Some_0@.id == id
                &&& wire_statuses(r->Some_0@.statuses) == statuses
            },
{
    let payload_len: usize = payload.len();
    match deserialize_parts(payload) {
        Ok((repo, branch, id, triples)) => {
            let mut remotes: Vec<String> = Vec::new();
            let mut counts: Vec<(u64, u64)> = Vec::new();
            let mut i: usize = 0;
            while i < triples.len()
                invariant
                    i <= triples@.len(),
                    remotes@.len() == i,
                    counts@.len() == i,
                    forall|j: int|
                        0 <= j < i ==> (#[trigger] string_views(remotes@)[j], counts@[j].0,
                        counts@[j].1) == triples_view(triples@)[j],
                decreases triples@.len() - i,
            {
                let ghost before = remotes@;
                let name = triples[i].0.clone();
                remotes.push(name);
                counts.push((triples[i].1, triples[i].2));
                proof {
                    assert(string_views(remotes@) =~= string_views(before).push(name@));
                }
                i = i + 1;
            }
            let event = Event::new(repo, branch, id, &remotes, &counts);
            proof {
                let sv = crate::event::statuses_of(string_views(remotes@), counts@);
                assert(wire_statuses(sv) =~= triples_view(triples@)) by {
                    assert forall|j: int| 0 <= j < sv.len() implies #[trigger] wire_statuses(sv)[j]
                        == triples_view(triples@)[j] by {
                        assert(sv[j] == (string_views(remotes@)[j], category_of(
                            counts@[j].0,
                            counts@[j].1,
                        )));
                    }
                }
            }
            proof {
                let y = bincode_of(repo@, branch@, id, triples_view(triples@));
                assert(payload@.len() == payload_len);
                let junk = payload@.subrange(y.len() as int, payload@.len() as int);
                assert(payload@ =~= y + junk);
                assert forall|
                    repo0: Seq<char>,
                    branch0: Seq<char>,
                    id0: u128,
                    statuses0: Seq<(Seq<char>, u64, u64)>,
                | payload@ == #[trigger] bincode_of(repo0, branch0, id0, statuses0) implies {
                    &&& repo0 == repo@
                    &&& branch0 == branch@
                    &&& id0 == id
                    &&& statuses0 == triples_view(triples@)
                } by {
                    let x = bincode_of(repo0, branch0, id0, statuses0);
                    assert(x + Seq::<u8>::empty() =~= x);
                    lemma_encoding_unambiguous(
                        repo0,
                        branch0,
                        id0,
                        statuses0,
                        repo@,
                        branch@,
                        id,
                        triples_view(triples@),
                        Seq::empty(),
                        junk,
                    );
                }
            }
            Some(event)
        },
        Err(_) => {
            proof {
                assert forall|
                    repo0: Seq<char>,
                    branch0: Seq<char>,
                    id0: u128,
                    statuses0: Seq<(Seq<char>, u64, u64)>,
                | payload@ == #[trigger] bincode_of(repo0, branch0, id0, statuses0) implies false by {
                    assert(is_encoding(payload@));
                }
            }
            None
        },
    }
}

} // verus!
