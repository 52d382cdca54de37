//! A byte encoding for capabilities, for handing one to a collaborator over
//! a framed channel: one action tag byte, the 16-byte big-endian token, the
//! 8-byte big-endian address count, then each address as an 8-byte big-endian
//! length followed by its bytes. Decoding is total on arbitrary bytes and
//! accepts exactly the well-formed encodings.

use vstd::prelude::*;
use crate::address::{Address, AddressSet};
use crate::capability::{Action, Capability, CapabilityView, UniqueUnforgeableReference};

verus! {

/// The tag byte that stands for an action.
pub open spec fn action_tag(a: Action) -> u8 {
    match a {
        Action::SendMessage => 0,
    }
}

/// The action a tag byte stands for, if any.
pub open spec fn action_of_tag(t: u8) -> Option<Action> {
    if t == 0 {
        Some(Action::SendMessage)
    } else {
        None
    }
}

/// Byte `i` of the 8-byte big-endian form of `n`.
pub open spec fn u64_byte(n: u64, i: int) -> u8 {
    ((n >> ((8 * (7 - i)) as u64)) & 0xff) as u8
}

/// The 8-byte big-endian form of `n`.
pub open spec fn u64_bytes(n: u64) -> Seq<u8> {
    Seq::new(8, |i: int| u64_byte(n, i))
}

/// Byte `i` of the 16-byte big-endian form of `n`.
pub open spec fn u128_byte(n: u128, i: int) -> u8 {
    ((n >> ((8 * (15 - i)) as u128)) & 0xff) as u8
}

/// The 16-byte big-endian form of `n`.
pub open spec fn u128_bytes(n: u128) -> Seq<u8> {
    Seq::new(16, |i: int| u128_byte(n, i))
}

/// The value whose 8-byte big-endian form is `s`.
pub open spec fn u64_of_bytes(s: Seq<u8>) -> u64 {
    ((s[0] as u64) << 56u64) | ((s[1] as u64) << 48u64) | ((s[2] as u64) << 40u64) | ((
    s[3] as u64) << 32u64) | ((s[4] as u64) << 24u64) | ((s[5] as u64) << 16u64) | ((
    s[6] as u64) << 8u64) | (s[7] as u64)
}

/// The value whose 16-byte big-endian form is `s`.
pub open spec fn u128_of_bytes(s: Seq<u8>) -> u128 {
    ((s[0] as u128) << 120u128) | ((s[1] as u128) << 112u128) | ((s[2] as u128) << 104u128) | ((
    s[3] as u128) << 96u128) | ((s[4] as u128) << 88u128) | ((s[5] as u128) << 80u128) | ((
    s[6] as u128) << 72u128) | ((s[7] as u128) << 64u128) | ((s[8] as u128) << 56u128) | ((
    s[9] as u128) << 48u128) | ((s[10] as u128) << 40u128) | ((s[11] as u128) << 32u128) | ((
    s[12] as u128) << 24u128) | ((s[13] as u128) << 16u128) | ((s[14] as u128) << 8u128) | (
    s[15] as u128)
}

proof fn lemma_u64_round_trip(n: u64)
    ensures
        u64_of_bytes(u64_bytes(n)) == n,
{
    let s = u64_bytes(n);
    assert(s[0] == ((n >> 56u64) & 0xff) as u8);
    assert(s[1] == ((n >> 48u64) & 0xff) as u8);
    assert(s[2] == ((n >> 40u64) & 0xff) as u8);
    assert(s[3] == ((n >> 32u64) & 0xff) as u8);
    assert(s[4] == ((n >> 24u64) & 0xff) as u8);
    assert(s[5] == ((n >> 16u64) & 0xff) as u8);
    assert(s[6] == ((n >> 8u64) & 0xff) as u8);
    assert(s[7] == ((n >> 0u64) & 0xff) as u8);
    assert(((((n >> 56u64) & 0xff) as u8 as u64) << 56u64) | ((((n >> 48u64) & 0xff) as u8 as u64)
        << 48u64) | ((((n >> 40u64) & 0xff) as u8 as u64) << 40u64) | ((((n >> 32u64)
        & 0xff) as u8 as u64) << 32u64) | ((((n >> 24u64) & 0xff) as u8 as u64) << 24u64) | ((((n
        >> 16u64) & 0xff) as u8 as u64) << 16u64) | ((((n >> 8u64) & 0xff) as u8 as u64) << 8u64)
        | (((n >> 0u64) & 0xff) as u8 as u64) == n) by (bit_vector);
}

proof fn lemma_u128_round_trip(n: u128)
    ensures
        u128_of_bytes(u128_bytes(n)) == n,
{
    let s = u128_bytes(n);
    assert forall|i: int| 0 <= i < 16 implies s[i] == ((n >> ((8 * (15 - i)) as u128))
        & 0xff) as u8 by {}
    assert(s[0] == ((n >> 120u128) & 0xff) as u8);
    assert(s[1] == ((n >> 112u128) & 0xff) as u8);
    assert(s[2] == ((n >> 104u128) & 0xff) as u8);
    assert(s[3] == ((n >> 96u128) & 0xff) as u8);
    assert(s[4] == ((n >> 88u128) & 0xff) as u8);
    assert(s[5] == ((n >> 80u128) & 0xff) as u8);
    assert(s[6] == ((n >> 72u128) & 0xff) as u8);
    assert(s[7] == ((n >> 64u128) & 0xff) as u8);
    assert(s[8] == ((n >> 56u128) & 0xff) as u8);
    assert(s[9] == ((n >> 48u128) & 0xff) as u8);
    assert(s[10] == ((n >> 40u128) & 0xff) as u8);
    assert(s[11] == ((n >> 32u128) & 0xff) as u8);
    assert(s[12] == ((n >> 24u128) & 0xff) as u8);
    assert(s[13] == ((n >> 16u128) & 0xff) as u8);
    assert(s[14] == ((n >> 8u128) & 0xff) as u8);
    assert(s[15] == ((n >> 0u128) & 0xff) as u8);
    assert(((((n >> 120u128) & 0xff) as u8 as u128) << 120u128) | ((((n >> 112u128)
        & 0xff) as u8 as u128) << 112u128) | ((((n >> 104u128) & 0xff) as u8 as u128) << 104u128)
        | ((((n >> 96u128) & 0xff) as u8 as u128) << 96u128) | ((((n >> 88u128)
        & 0xff) as u8 as u128) << 88u128) | ((((n >> 80u128) & 0xff) as u8 as u128) << 80u128) | ((
        ((n >> 72u128) & 0xff) as u8 as u128) << 72u128) | ((((n >> 64u128) & 0xff) as u8 as u128)
        << 64u128) | ((((n >> 56u128) & 0xff) as u8 as u128) << 56u128) | ((((n >> 48u128)
        & 0xff) as u8 as u128) << 48u128) | ((((n >> 40u128) & 0xff) as u8 as u128) << 40u128) | ((
        ((n >> 32u128) & 0xff) as u8 as u128) << 32u128) | ((((n >> 24u128) & 0xff) as u8 as u128)
        << 24u128) | ((((n >> 16u128) & 0xff) as u8 as u128) << 16u128) | ((((n >> 8u128)
        & 0xff) as u8 as u128) << 8u128) | (((n >> 0u128) & 0xff) as u8 as u128) == n)
        by (bit_vector);
}

/// One address on the wire: its length, then its bytes.
pub open spec fn encode_address(a: Seq<u8>) -> Seq<u8> {
    u64_bytes(a.len() as u64) + a
}

/// A sequence of addresses on the wire, one after the other.
pub open spec fn encode_addresses(s: Seq<Seq<u8>>) -> Seq<u8>
    decreases s.len(),
{
    if s.len() == 0 {
        Seq::empty()
    } else {
        encode_address(s.first()) + encode_addresses(s.drop_first())
    }
}

/// The whole encoding of a capability.
pub open spec fn spec_encode(c: CapabilityView) -> Seq<u8> {
    seq![action_tag(c.0)] + u128_bytes(c.2) + u64_bytes(c.1.len() as u64) + encode_addresses(c.1)
}

/// What `n` addresses parse to from `bytes`, which must be consumed exactly.
pub open spec fn parse_addresses(bytes: Seq<u8>, n: nat) -> Option<Seq<Seq<u8>>>
    decreases n,
{
    if n == 0 {
        if bytes.len() == 0 {
            Some(Seq::empty())
        } else {
            None
        }
    } else if bytes.len() < 8 {
        None
    } else {
        let l = u64_of_bytes(bytes.take(8)) as int;
        if bytes.len() - 8 < l {
            None
        } else {
            match parse_addresses(bytes.skip(8 + l), (n - 1) as nat) {
                Some(rest) => Some(seq![bytes.subrange(8, 8 + l)] + rest),
                None => None,
            }
        }
    }
}

proof fn lemma_encode_addresses_snoc(s: Seq<Seq<u8>>, a: Seq<u8>)
    ensures
        encode_addresses(s.push(a)) == encode_addresses(s) + encode_address(a),
    decreases s.len(),
{
    let pushed = s.push(a);
    if s.len() == 0 {
        assert(pushed.len() == 1);
        assert(pushed.first() == a);
        assert(pushed.drop_first().len() == 0);
        assert(encode_addresses(pushed.drop_first()) == Seq::<u8>::empty());
        assert(encode_addresses(pushed) == encode_address(a) + Seq::<u8>::empty());
        assert(encode_addresses(s) == Seq::<u8>::empty());
        assert(encode_address(a) + Seq::<u8>::empty() =~= Seq::<u8>::empty() + encode_address(a));
    } else {
        assert(pushed.first() == s.first());
        assert(pushed.drop_first() =~= s.drop_first().push(a));
        lemma_encode_addresses_snoc(s.drop_first(), a);
        assert(encode_address(s.first()) + (encode_addresses(s.drop_first()) + encode_address(a))
            =~= (encode_address(s.first()) + encode_addresses(s.drop_first())) + encode_address(
            a,
        ));
    }
}

proof fn lemma_parse_encode_addresses(s: Seq<Seq<u8>>)
    requires
        forall|i: int| 0 <= i < s.len() ==> #[trigger] s[i].len() <= u64::MAX,
    ensures
        parse_addresses(encode_addresses(s), s.len()) == Some(s),
    decreases s.len(),
{
    if s.len() == 0 {
        assert(parse_addresses(encode_addresses(s), 0) == Some(Seq::<Seq<u8>>::empty()));
        assert(s =~= Seq::<Seq<u8>>::empty());
    } else {
        let a = s.first();
        let e = encode_addresses(s);
        let tail_enc = encode_addresses(s.drop_first());
        assert(s[0].len() <= u64::MAX);
        assert(a.len() <= u64::MAX);
        assert(e == encode_address(a) + tail_enc);
        assert(e.len() == 8 + a.len() + tail_enc.len());
        assert(e.take(8) =~= u64_bytes(a.len() as u64));
        lemma_u64_round_trip(a.len() as u64);
        assert(u64_of_bytes(e.take(8)) as int == a.len());
        assert(e.subrange(8, 8 + a.len() as int) =~= a);
        assert(e.skip(8 + a.len() as int) =~= tail_enc);
        assert forall|i: int| 0 <= i < s.drop_first().len() implies #[trigger] s.drop_first()[
            i
        ].len() <= u64::MAX by {
            assert(s.drop_first()[i] == s[i + 1]);
        }
        lemma_parse_encode_addresses(s.drop_first());
        assert(seq![a] + s.drop_first() =~= s);
    }
}

/// Encoding then decoding a capability hands its denotation back unchanged:
/// the action, the address elements in their order, and the token,
/// bit for bit. The bounds only say that each length fits the wire's
/// 8-byte length fields, which any value held in memory meets.
pub proof fn lemma_codec_round_trip(c: CapabilityView)
    requires
        c.1.len() <= u64::MAX,
        forall|i: int| 0 <= i < c.1.len() ==> #[trigger] c.1[i].len() <= u64::MAX,
    ensures
        spec_decode(spec_encode(c)) == Some(c),
{
    let bytes = spec_encode(c);
    let body = encode_addresses(c.1);
    assert(bytes.len() == 25 + body.len());
    assert(bytes[0] == action_tag(c.0));
    assert(action_of_tag(action_tag(c.0)) == Some(c.0));
    assert(bytes.subrange(1, 17) =~= u128_bytes(c.2));
    lemma_u128_round_trip(c.2);
    assert(bytes.subrange(17, 25) =~= u64_bytes(c.1.len() as u64));
    lemma_u64_round_trip(c.1.len() as u64);
    assert(u64_of_bytes(bytes.subrange(17, 25)) as nat == c.1.len());
    assert(bytes.skip(25) =~= body);
    lemma_parse_encode_addresses(c.1);
    assert(parse_addresses(bytes.skip(25), c.1.len()) == Some(c.1));
}

/// What arbitrary bytes decode to: the unique capability they encode, or
/// nothing. Decoding succeeds exactly on the image of `spec_encode`.
pub open spec fn spec_decode(bytes: Seq<u8>) -> Option<CapabilityView> {
    if bytes.len() < 25 {
        None
    } else {
        match action_of_tag(bytes[0]) {
            Some(action) => {
                let uur = u128_of_bytes(bytes.subrange(1, 17));
                let n = u64_of_bytes(bytes.subrange(17, 25));
                match parse_addresses(bytes.skip(25), n as nat) {
                    Some(addrs) => Some((action, addrs, uur)),
                    None => None,
                }
            },
            None => None,
        }
    }
}

fn push_u64_be(out: &mut Vec<u8>, n: u64)
    ensures
        final(out)@ == old(out)@ + u64_bytes(n),
{
    let ghost base = out@;
    let mut i: usize = 0;
    while i < 8
        invariant
            i <= 8,
            out@.len() == base.len() + i,
            forall|j: int| 0 <= j < base.len() ==> out@[j] == base[j],
            forall|j: int| 0 <= j < i ==> out@[base.len() + j] == u64_byte(n, j),
        decreases 8 - i,
    {
        let sh: u64 = 56 - 8 * (i as u64);
        out.push(((n >> sh) & 0xff) as u8);
        i += 1;
    }
    proof {
        assert(out@ =~= base + u64_bytes(n));
    }
}

fn push_u128_be(out: &mut Vec<u8>, n: u128)
    ensures
        final(out)@ == old(out)@ + u128_bytes(n),
{
    let ghost base = out@;
    let mut i: usize = 0;
    while i < 16
        invariant
            i <= 16,
            out@.len() == base.len() + i,
            forall|j: int| 0 <= j < base.len() ==> out@[j] == base[j],
            forall|j: int| 0 <= j < i ==> out@[base.len() + j] == u128_byte(n, j),
        decreases 16 - i,
    {
        let sh: u128 = 120 - 8 * (i as u128);
        out.push(((n >> sh) & 0xff) as u8);
        i += 1;
    }
    proof {
        assert(out@ =~= base + u128_bytes(n));
    }
}

fn read_u64_be(bytes: &Vec<u8>, off: usize) -> (r: u64)
    requires
        off + 8 <= bytes@.len(),
    ensures
        r == u64_of_bytes(bytes@.subrange(off as int, off as int + 8)),
{
    let total = bytes.len();
    let r = ((bytes[off] as u64) << 56u64) | ((bytes[off + 1] as u64) << 48u64) | ((bytes[off
        + 2] as u64) << 40u64) | ((bytes[off + 3] as u64) << 32u64) | ((bytes[off + 4] as u64)
        << 24u64) | ((bytes[off + 5] as u64) << 16u64) | ((bytes[off + 6] as u64) << 8u64) | (
    bytes[off + 7] as u64);
    proof {
        let s = bytes@.subrange(off as int, off as int + 8);
        assert(forall|j: int| 0 <= j < 8 ==> s[j] == bytes@[off + j]);
    }
    r
}

fn read_u128_be(bytes: &Vec<u8>, off: usize) -> (r: u128)
    requires
        off + 16 <= bytes@.len(),
    ensures
        r == u128_of_bytes(bytes@.subrange(off as int, off as int + 16)),
{
    let total = bytes.len();
    let r = ((bytes[off] as u128) << 120u128) | ((bytes[off + 1] as u128) << 112u128) | ((bytes[off
        + 2] as u128) << 104u128) | ((bytes[off + 3] as u128) << 96u128) | ((bytes[off
        + 4] as u128) << 88u128) | ((bytes[off + 5] as u128) << 80u128) | ((bytes[off + 6] as u128)
        << 72u128) | ((bytes[off + 7] as u128) << 64u128) | ((bytes[off + 8] as u128) << 56u128)
        | ((bytes[off + 9] as u128) << 48u128) | ((bytes[off + 10] as u128) << 40u128) | ((
    bytes[off + 11] as u128) << 32u128) | ((bytes[off + 12] as u128) << 24u128) | ((bytes[off
        + 13] as u128) << 16u128) | ((bytes[off + 14] as u128) << 8u128) | (bytes[off
        + 15] as u128);
    proof {
        let s = bytes@.subrange(off as int, off as int + 16);
        assert(forall|j: int| 0 <= j < 16 ==> s[j] == bytes@[off + j]);
    }
    r
}

/// Encode a capability to bytes: exactly `spec_encode` of its denotation.
pub fn encode_capability(cap: &Capability) -> (r: Vec<u8>)
    ensures
        r@ == spec_encode(cap@),
{
    let mut out: Vec<u8> = Vec::new();
    let tag: u8 = match cap.action {
        Action::SendMessage => 0,
    };
    out.push(tag);
    proof {
        assert(out@ =~= seq![action_tag(cap@.0)]);
    }
    push_u128_be(&mut out, cap.uur.0);
    let n = cap.address.len();
    push_u64_be(&mut out, n as u64);
    let ghost head = seq![action_tag(cap@.0)] + u128_bytes(cap@.2) + u64_bytes(
        cap@.1.len() as u64,
    );
    proof {
        assert(out@ == head);
    }
    let mut i: usize = 0;
    while i < n
        invariant
            i <= n,
            n == cap.address@.len(),
            cap@.1 == cap.address@,
            out@ == head + encode_addresses(cap@.1.take(i as int)),
        decreases n - i,
    {
        let a = cap.address.get(i);
        let alen = a.as_bytes().len();
        push_u64_be(&mut out, alen as u64);
        let mut t: usize = 0;
        let ghost mid = out@;
        while t < alen
            invariant
                t <= alen,
                alen == a@.len(),
                out@.len() == mid.len() + t,
                forall|j: int| 0 <= j < mid.len() ==> out@[j] == mid[j],
                forall|j: int| 0 <= j < t ==> out@[mid.len() + j] == a@[j],
            decreases alen - t,
        {
            out.push(a.as_bytes()[t]);
            t += 1;
        }
        proof {
            assert(out@ =~= mid + a@);
            assert(out@ =~= head + (encode_addresses(cap@.1.take(i as int)) + encode_address(a@)));
            lemma_encode_addresses_snoc(cap@.1.take(i as int), a@);
            assert(cap@.1.take(i as int).push(a@) =~= cap@.1.take(i as int + 1));
            assert(out@ =~= head + encode_addresses(cap@.1.take(i as int + 1)));
        }
        i += 1;
    }
    proof {
        assert(cap@.1.take(n as int) =~= cap@.1);
        assert(out@ =~= spec_encode(cap@));
    }
    out
}

/// The sequence each address of `s` denotes, in order.
pub open spec fn address_views(s: Seq<Address>) -> Seq<Seq<u8>> {
    Seq::new(s.len(), |i: int| s[i]@)
}

/// Decode bytes back to a capability: exactly what `spec_decode` says, so
/// decoding succeeds precisely on well-formed encodings and hands back the
/// capability they encode.
pub fn decode_capability(bytes: &Vec<u8>) -> (r: Option<Capability>)
    ensures
        match r {
            Some(c) => spec_decode(bytes@) == Some(c@),
            None => spec_decode(bytes@) is None,
        },
{
    if bytes.len() < 25 {
        return None;
    }
    let tag = bytes[0];
    if tag != 0 {
        return None;
    }
    let uur_val = read_u128_be(bytes, 1);
    let count = read_u64_be(bytes, 17);
    proof {
        assert(bytes@.subrange(1, 17) == bytes@.subrange(1int, 1int + 16));
        assert(bytes@.subrange(17, 25) == bytes@.subrange(17int, 17int + 8));
    }
    let mut addrs: Vec<Address> = Vec::new();
    let mut off: usize = 25;
    let mut k: u64 = 0;
    proof {
        match parse_addresses(bytes@.skip(25), count as nat) {
            Some(rest) => {
                assert(address_views(addrs@) + rest =~= rest);
            },
            None => {},
        }
    }
    while k < count
        invariant
            k <= count,
            25 <= off <= bytes@.len(),
            addrs@.len() == k,
            spec_decode(bytes@) == (match parse_addresses(
                bytes@.skip(off as int),
                (count - k) as nat,
            ) {
                Some(rest) => Some((Action::SendMessage, address_views(addrs@) + rest, uur_val)),
                None => None,
            }),
        decreases count - k,
    {
        let ghost pre = bytes@.skip(off as int);
        let ghost n_left = (count - k) as nat;
        if bytes.len() - off < 8 {
            proof {
                assert(pre.len() < 8);
                assert(parse_addresses(pre, n_left) is None);
            }
            return None;
        }
        let l = read_u64_be(bytes, off);
        proof {
            assert(pre.take(8) =~= bytes@.subrange(off as int, off as int + 8));
        }
        if l > (bytes.len() - off - 8) as u64 {
            proof {
                assert(pre.len() - 8 < l);
                assert(parse_addresses(pre, n_left) is None);
            }
            return None;
        }
        let alen = l as usize;
        let mut b: Vec<u8> = Vec::new();
        let mut t: usize = 0;
        while t < alen
            invariant
                t <= alen,
                bytes@.len() <= usize::MAX,
                off + 8 + alen <= bytes@.len(),
                b@.len() == t,
                forall|j: int| 0 <= j < t ==> b@[j] == bytes@[off + 8 + j],
            decreases alen - t,
        {
            b.push(bytes[off + 8 + t]);
            t += 1;
        }
        proof {
            assert(b@ =~= pre.subrange(8, 8 + l as int));
        }
        let ghost old_addrs = addrs@;
        addrs.push(Address::new(b));
        off = off + 8 + alen;
        k = k + 1;
        proof {
            let post = bytes@.skip(off as int);
            assert(post =~= pre.skip(8 + l as int));
            assert(parse_addresses(pre, n_left) == (match parse_addresses(
                post,
                (n_left - 1) as nat,
            ) {
                Some(rest) => Some(seq![pre.subrange(8, 8 + l as int)] + rest),
                None => None,
            }));
            assert(address_views(addrs@) =~= address_views(old_addrs).push(
                pre.subrange(8, 8 + l as int),
            ));
            match parse_addresses(post, (n_left - 1) as nat) {
                Some(rest) => {
                    assert(address_views(old_addrs) + (seq![pre.subrange(8, 8 + l as int)] + rest)
                        =~= address_views(addrs@) + rest);
                },
                None => {
                    assert(parse_addresses(pre, n_left) is None);
                },
            }
        }
    }
    if off != bytes.len() {
        proof {
            assert(bytes@.skip(off as int).len() > 0);
            assert(parse_addresses(bytes@.skip(off as int), 0) is None);
        }
        return None;
    }
    proof {
        assert(bytes@.skip(off as int).len() == 0);
        assert(parse_addresses(bytes@.skip(off as int), 0) == Some(Seq::<Seq<u8>>::empty()));
    }
    let address = AddressSet::new(addrs);
    let c = Capability {
        action: Action::SendMessage,
        address,
        uur: UniqueUnforgeableReference(uur_val),
    };
    proof {
        assert(c@.1 =~= address_views(addrs@) + Seq::<Seq<u8>>::empty());
    }
    Some(c)
}

} // verus!
