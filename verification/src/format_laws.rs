//! What holds of the formats: numbers and bytes as text, datagrams, frames, and what secrets
//! and handshakes are made of.
use vstd::prelude::*;
use crate::auth;
use crate::direct_message;
use crate::id::EndpointId;
use crate::secrets;
use crate::text;
use crate::wire;

verus! {

/// The number that decimal digits stand for.
pub open spec fn number_of(digits: Seq<char>) -> int
    decreases digits.len(),
{
    if digits.len() == 0 {
        0
    } else {
        number_of(digits.drop_last()) * 10 + (digits.last() as int - '0' as int)
    }
}

/// The text of a number consists of decimal digits that stand for the number, and has no
/// leading zero but for zero itself.
pub proof fn decimal_texts_read_back(n: nat)
    ensures
        number_of(text::decimal(n)) == n,
        text::decimal(n).len() > 0,
        forall|i: int| 0 <= i < text::decimal(n).len() ==> '0' <= #[trigger] text::decimal(n)[i] <= '9',
        n > 0 ==> text::decimal(n)[0] != '0',
    decreases n,
{
    if n < 10 {
        assert(text::decimal(n) =~= seq![text::digit(n)]);
        assert(text::decimal(n).drop_last() =~= Seq::empty());
        reveal_with_fuel(number_of, 2);
    } else {
        decimal_texts_read_back(n / 10);
        let rest = text::decimal(n / 10);
        let last = text::digit(n % 10);
        assert(text::decimal(n) =~= rest.push(last));
        assert(rest.push(last).drop_last() =~= rest);
        assert(rest.push(last).last() == last);
    }
}

/// The number that a hexadecimal digit stands for.
pub open spec fn value_of(digit: char) -> int {
    if '0' <= digit <= '9' {
        digit as int - '0' as int
    } else {
        digit as int - 'a' as int + 10
    }
}

/// The hexadecimal text of bytes has two lower case digits for each byte, the higher one
/// first.
pub proof fn hexadecimal_texts_read_back(bytes: Seq<u8>)
    ensures
        text::hex(bytes).len() == 2 * bytes.len(),
        forall|i: int|
            0 <= i < bytes.len() ==> value_of(text::hex(bytes)[2 * i]) * 16 + value_of(text::hex(bytes)[2 * i + 1])
                == #[trigger] bytes[i],
        forall|j: int|
            0 <= j < text::hex(bytes).len() ==> '0' <= #[trigger] text::hex(bytes)[j] <= '9' || 'a' <= text::hex(bytes)[j]
                <= 'f',
    decreases bytes.len(),
{
    if bytes.len() > 0 {
        let rest = bytes.drop_last();
        hexadecimal_texts_read_back(rest);
        let t = text::hex(bytes);
        let r = text::hex(rest);
        assert(forall|j: int| 0 <= j < r.len() ==> t[j] == r[j]);
        assert forall|i: int| 0 <= i < bytes.len() implies value_of(t[2 * i]) * 16 + value_of(t[2 * i + 1])
            == #[trigger] bytes[i] by {
            if i < rest.len() {
                assert(rest[i] == bytes[i]);
            }
        }
    }
}

/// The text of an address has the four numbers of its bytes, parted by dots.
pub proof fn addresses_are_dotted(ip: crate::ipv4::Ipv4Addr)
    ensures
        crate::ipv4::dotted(ip) == text::decimal(ip.a as nat) + "."@ + text::decimal(ip.b as nat) + "."@ + text::decimal(
            ip.c as nat,
        ) + "."@ + text::decimal(ip.d as nat),
{
}

/// A datagram is the byte 0x43 and the message behind it.
pub proof fn datagrams_carry_the_mark(message: Result<Seq<u8>, Seq<u8>>)
    ensures
        ({
            let d = direct_message::datagram_of(message);
            &&& d.len() > 1
            &&& d[0] == 0x43
            &&& d.skip(1) == wire::datagram_encoding(message)
            &&& d[1] == (if message is Ok {
                0u8
            } else {
                1u8
            })
        }),
{
    let d = direct_message::datagram_of(message);
    assert(d.skip(1) =~= wire::datagram_encoding(message));
}

/// A datagram is one of ours exactly if something stands behind the mark 0x43; of those the
/// ones that can be read hold the message that is read, and no others hold any.
pub proof fn marked_datagrams_are_read(datagram: Seq<u8>, message: Result<Seq<u8>, Seq<u8>>)
    ensures
        direct_message::is_ours(datagram) <==> datagram.len() >= 2 && datagram[0] == 0x43,
        direct_message::message_of(datagram) == Some(message) <==> datagram.len() >= 2 && datagram[0] == 0x43
            && wire::datagram_decoding(datagram.skip(1)) == Ok::<Result<Seq<u8>, Seq<u8>>, wire::CodecError>(message),
        direct_message::message_of(datagram) is None <==> datagram.len() < 2 || datagram[0] != 0x43
            || wire::datagram_decoding(datagram.skip(1)) is Err,
{
}

/// A frame starts with the byte 0, and the announcements follow. Bytes that start with another
/// number, or with nothing, are none.
pub proof fn frames_start_with_zero(bytes: Seq<u8>)
    ensures
        bytes.len() == 0 ==> wire::frame_decoding(bytes) == Err::<Seq<wire::SignedContents>, wire::CodecError>(
            wire::CodecError::UnexpectedEnd,
        ),
        bytes.len() > 0 && bytes[0] == 0 ==> wire::frame_decoding(bytes) == wire::states_decoding(bytes.skip(1)),
        bytes.len() > 0 && 0 < bytes[0] < 128 ==> wire::frame_decoding(bytes) == Err::<
            Seq<wire::SignedContents>,
            wire::CodecError,
        >(wire::CodecError::Custom),
{
}

/// The topic of a network is made of its name and its password, each whole, between fixed
/// words.
pub proof fn topics_hold_name_and_password(name: Seq<char>, password: Seq<char>)
    ensures
        ({
            let t = secrets::secret_initials(name, password);
            let n = name.len() as int;
            let p = password.len() as int;
            &&& t.len() == 17 + n + p
            &&& t.subrange(0, 9) == "lanparty-"@
            &&& t.subrange(9, 9 + n) == name
            &&& t[9 + n] == '-'
            &&& t.subrange(10 + n, 10 + n + p) == password
            &&& t.subrange(10 + n + p, 17 + n + p) == "-secret"@
        }),
{
    let t = secrets::secret_initials(name, password);
    let n = name.len() as int;
    let p = password.len() as int;
    reveal_strlit("lanparty-");
    reveal_strlit("-");
    reveal_strlit("-secret");
    assert(t.subrange(0, 9) =~= "lanparty-"@);
    assert(t.subrange(9, 9 + n) =~= name);
    assert(t.subrange(10 + n, 10 + n + p) =~= password);
    assert(t.subrange(10 + n + p, 17 + n + p) =~= "-secret"@);
}

/// The secret of a network is made of its name and its password, each behind a fixed word.
pub proof fn secrets_hold_name_and_password(name: Seq<char>, password: Seq<char>)
    ensures
        secrets::network_message(name, password) == vstd::utf8::encode_utf8("iroh-lan-network-name-"@ + name)
            + vstd::utf8::encode_utf8("iroh-lan-network-secret-"@ + password),
        secrets::document_message(name, password) == vstd::utf8::encode_utf8("iroh-lan-topic"@)
            + vstd::utf8::encode_utf8(secrets::secret_initials(name, password)),
{
}

/// A handshake is accepted exactly if it is the digest of the network's secret, of the identity
/// of its sender and of ours, in this order: neither another secret's, nor another node's,
/// nor our own sent back, unless the digests are the same.
pub proof fn handshakes_are_bound_to_both_sides(
    secret: Seq<u8>,
    ours: EndpointId,
    theirs: EndpointId,
    received: Seq<u8>,
)
    ensures
        auth::accepts(secret, ours, theirs, received) <==> received == crate::hashes::sha512_digest(
            secret + theirs.bytes@ + ours.bytes@,
        )@,
        auth::handshake_of(secret, ours, theirs) == crate::hashes::sha512_digest(
            secret + ours.bytes@ + theirs.bytes@,
        )@,
{
}

/// What stands before the first dot, and what stands behind it, can be told apart where the one
/// before it has no dot.
proof fn lemma_first_dot(a: Seq<char>, b: Seq<char>, c: Seq<char>, d: Seq<char>)
    requires
        forall|i: int| 0 <= i < a.len() ==> #[trigger] a[i] != '.',
        forall|i: int| 0 <= i < c.len() ==> #[trigger] c[i] != '.',
        a + "."@ + b == c + "."@ + d,
    ensures
        a == c,
        b == d,
{
    reveal_strlit(".");
    let l = a + "."@ + b;
    let r = c + "."@ + d;
    assert(l[a.len() as int] == '.');
    assert(r[c.len() as int] == '.');
    if a.len() < c.len() {
        assert(r[a.len() as int] == c[a.len() as int]);
    } else if c.len() < a.len() {
        assert(l[c.len() as int] == a[c.len() as int]);
    }
    assert(a =~= l.subrange(0, a.len() as int));
    assert(c =~= r.subrange(0, c.len() as int));
    assert(b =~= l.subrange(a.len() as int + 1, l.len() as int));
    assert(d =~= r.subrange(c.len() as int + 1, r.len() as int));
}

proof fn lemma_grouped(p: Seq<char>, q: Seq<char>, r: Seq<char>, s: Seq<char>, dot: Seq<char>)
    ensures
        p + dot + q + dot + r + dot + s == p + dot + (q + dot + (r + dot + s)),
{
    assert(p + dot + q + dot + r + dot + s =~= p + dot + (q + dot + (r + dot + s)));
}

proof fn lemma_same_decimals(m: nat, n: nat)
    requires
        text::decimal(m) == text::decimal(n),
    ensures
        m == n,
{
    decimal_texts_read_back(m);
    decimal_texts_read_back(n);
}

proof fn lemma_no_dot(n: nat)
    ensures
        forall|i: int| 0 <= i < text::decimal(n).len() ==> #[trigger] text::decimal(n)[i] != '.',
{
    decimal_texts_read_back(n);
}

/// Different addresses have different texts.
pub proof fn address_texts_differ(a: crate::ipv4::Ipv4Addr, b: crate::ipv4::Ipv4Addr)
    requires
        crate::ipv4::dotted(a) == crate::ipv4::dotted(b),
    ensures
        a == b,
{
    let (a0, a1, a2, a3) = (
        text::decimal(a.a as nat),
        text::decimal(a.b as nat),
        text::decimal(a.c as nat),
        text::decimal(a.d as nat),
    );
    let (b0, b1, b2, b3) = (
        text::decimal(b.a as nat),
        text::decimal(b.b as nat),
        text::decimal(b.c as nat),
        text::decimal(b.d as nat),
    );
    lemma_grouped(a0, a1, a2, a3, "."@);
    lemma_grouped(b0, b1, b2, b3, "."@);
    assert(a0 == b0 && a1 + "."@ + (a2 + "."@ + a3) == b1 + "."@ + (b2 + "."@ + b3)) by {
        lemma_no_dot(a.a as nat);
        lemma_no_dot(b.a as nat);
        lemma_first_dot(a0, a1 + "."@ + (a2 + "."@ + a3), b0, b1 + "."@ + (b2 + "."@ + b3));
    }
    assert(a1 == b1 && a2 + "."@ + a3 == b2 + "."@ + b3) by {
        lemma_no_dot(a.b as nat);
        lemma_no_dot(b.b as nat);
        lemma_first_dot(a1, a2 + "."@ + a3, b1, b2 + "."@ + b3);
    }
    assert(a2 == b2 && a3 == b3) by {
        lemma_no_dot(a.c as nat);
        lemma_no_dot(b.c as nat);
        lemma_first_dot(a2, a3, b2, b3);
    }
    lemma_same_decimals(a.a as nat, b.a as nat);
    lemma_same_decimals(a.b as nat, b.b as nat);
    lemma_same_decimals(a.c as nat, b.c as nat);
    lemma_same_decimals(a.d as nat, b.d as nat);
}

/// Different identities have different texts.
pub proof fn identity_texts_differ(a: EndpointId, b: EndpointId)
    requires
        text::hex(a.bytes@) == text::hex(b.bytes@),
    ensures
        a == b,
{
    hexadecimal_texts_read_back(a.bytes@);
    hexadecimal_texts_read_back(b.bytes@);
    assert forall|i: int| 0 <= i < 32 implies a.bytes@[i] == b.bytes@[i] by {}
    assert(a.bytes@ =~= b.bytes@);
    crate::id::lemma_same_bytes(a, b);
}

/// Assignments of different addresses have different keys in the document.
pub proof fn assignment_keys_differ(a: crate::ipv4::Ipv4Addr, b: crate::ipv4::Ipv4Addr)
    requires
        crate::router::assigned_key(a) == crate::router::assigned_key(b),
    ensures
        a == b,
{
    let n = "/assigned/ip/"@.len() as int;
    let (x, y) = (crate::router::assigned_key(a), crate::router::assigned_key(b));
    assert(crate::ipv4::dotted(a) =~= x.subrange(n, x.len() as int));
    assert(crate::ipv4::dotted(b) =~= y.subrange(n, y.len() as int));
    address_texts_differ(a, b);
}

/// The candidates for an address have different keys in the document.
pub proof fn candidate_keys_differ(ip: crate::ipv4::Ipv4Addr, a: EndpointId, b: EndpointId)
    requires
        crate::router::candidate_key(ip, a) == crate::router::candidate_key(ip, b),
    ensures
        a == b,
{
    let n = crate::router::candidates_key(ip).len() as int;
    let (x, y) = (crate::router::candidate_key(ip, a), crate::router::candidate_key(ip, b));
    assert(text::hex(a.bytes@) =~= x.subrange(n, x.len() as int));
    assert(text::hex(b.bytes@) =~= y.subrange(n, y.len() as int));
    identity_texts_differ(a, b);
}

} // verus!
