//! The wire encoder: a specification function giving the exact bytes of
//! every control packet, and the executable encoder proved to produce them.

use vstd::prelude::*;

use crate::packet::{
    Connack, ConnectView, Packet, PacketView, Protocol, PublishView, SubscribeReturnCodes,
    SubscribeTopicView,
};
use crate::types::{qos_value, qospid_qos, Error, QosPid};
use crate::wire::{enc_bytes_field, enc_str, enc_u16, enc_varint, REMAINING_LENGTH_MAX};

verus! {

/// The protocol-name bytes in CONNECT: `"MQTT"` or `"MQIsdp"`.
pub open spec fn protocol_name(p: Protocol) -> Seq<u8> {
    match p {
        Protocol::MQTT311 => seq![77u8, 81u8, 84u8, 84u8],
        Protocol::MQIsdp => seq![77u8, 81u8, 73u8, 115u8, 100u8, 112u8],
    }
}

/// The protocol-level byte in CONNECT: 4 for 3.1.1, 3 for 3.1.
pub open spec fn protocol_level(p: Protocol) -> int {
    match p {
        Protocol::MQTT311 => 4,
        Protocol::MQIsdp => 3,
    }
}

/// The CONNECT flags byte: username, password, will retain, will level,
/// will flag, clean session, and a reserved zero bit.
pub open spec fn connect_flags(c: ConnectView) -> int {
    (if c.clean_session { 2int } else { 0int }) + (match c.last_will {
        Some(w) => 4 + 8 * qos_value(w.qos) + (if w.retain { 32int } else { 0int }),
        None => 0,
    }) + (match c.password {
        Some(_) => 64int,
        None => 0int,
    }) + (match c.username {
        Some(_) => 128int,
        None => 0int,
    })
}

/// The variable header and payload of CONNECT.
pub open spec fn body_connect(c: ConnectView) -> Seq<u8> {
    enc_bytes_field(protocol_name(c.protocol)) + seq![
        protocol_level(c.protocol) as u8,
        connect_flags(c) as u8,
    ] + enc_u16(c.keep_alive as int) + enc_str(c.client_id) + (match c.last_will {
        Some(w) => enc_str(w.topic) + enc_bytes_field(w.message),
        None => Seq::empty(),
    }) + (match c.username {
        Some(u) => enc_str(u),
        None => Seq::empty(),
    }) + (match c.password {
        Some(pw) => enc_bytes_field(pw),
        None => Seq::empty(),
    })
}

/// The body of CONNACK: the session-present byte and the return code.
pub open spec fn body_connack(c: Connack) -> Seq<u8> {
    seq![
        (if c.session_present { 1int } else { 0int }) as u8,
        crate::packet::return_code_value(c.code) as u8,
    ]
}

/// The body of PUBLISH: topic, identifier when the level needs one, payload.
pub open spec fn body_publish(p: PublishView) -> Seq<u8> {
    enc_str(p.topic_name) + (match p.qospid {
        QosPid::AtMostOnce => Seq::empty(),
        QosPid::AtLeastOnce(pid) => enc_u16(pid.spec_get() as int),
        QosPid::ExactlyOnce(pid) => enc_u16(pid.spec_get() as int),
    }) + p.payload
}

/// One SUBSCRIBE entry: the filter string and its requested level.
pub open spec fn sub_topic_bytes(t: SubscribeTopicView) -> Seq<u8> {
    enc_str(t.topic_path) + seq![qos_value(t.qos) as u8]
}

/// The SUBSCRIBE entries in order.
pub open spec fn sub_topics_bytes(ts: Seq<SubscribeTopicView>) -> Seq<u8>
    decreases ts.len(),
{
    if ts.len() == 0 {
        Seq::empty()
    } else {
        sub_topic_bytes(ts[0]) + sub_topics_bytes(ts.drop_first())
    }
}

/// The SUBACK return-code bytes, one per entry.
pub open spec fn suback_codes_bytes(cs: Seq<SubscribeReturnCodes>) -> Seq<u8> {
    Seq::new(cs.len(), |i: int| crate::packet::suback_code_value(cs[i]) as u8)
}

/// The UNSUBSCRIBE filter strings in order.
pub open spec fn unsub_topics_bytes(ts: Seq<Seq<char>>) -> Seq<u8>
    decreases ts.len(),
{
    if ts.len() == 0 {
        Seq::empty()
    } else {
        enc_str(ts[0]) + unsub_topics_bytes(ts.drop_first())
    }
}

/// The variable header and payload of a packet: everything after the fixed
/// header.
pub open spec fn packet_body(p: PacketView) -> Seq<u8> {
    match p {
        PacketView::Connect(c) => body_connect(c),
        PacketView::Connack(c) => body_connack(c),
        PacketView::Publish(pb) => body_publish(pb),
        PacketView::Puback(pid) => enc_u16(pid.spec_get() as int),
        PacketView::Pubrec(pid) => enc_u16(pid.spec_get() as int),
        PacketView::Pubrel(pid) => enc_u16(pid.spec_get() as int),
        PacketView::Pubcomp(pid) => enc_u16(pid.spec_get() as int),
        PacketView::Subscribe(s) => enc_u16(s.pid.spec_get() as int) + sub_topics_bytes(s.topics),
        PacketView::Suback(s) => enc_u16(s.pid.spec_get() as int) + suback_codes_bytes(
            s.return_codes,
        ),
        PacketView::Unsubscribe(u) => enc_u16(u.pid.spec_get() as int) + unsub_topics_bytes(
            u.topics,
        ),
        PacketView::Unsuback(pid) => enc_u16(pid.spec_get() as int),
        PacketView::Pingreq => Seq::empty(),
        PacketView::Pingresp => Seq::empty(),
        PacketView::Disconnect => Seq::empty(),
    }
}

/// The first byte of the fixed header: packet type in the high nibble,
/// flags in the low one. PUBLISH carries `dup`, its level and `retain`
/// there; PUBREL, SUBSCRIBE and UNSUBSCRIBE have fixed flags `0010`.
pub open spec fn packet_byte0(p: PacketView) -> int {
    match p {
        PacketView::Connect(_) => 0x10,
        PacketView::Connack(_) => 0x20,
        PacketView::Publish(pb) => 0x30 + (if pb.dup { 8int } else { 0int }) + 2 * qos_value(
            qospid_qos(pb.qospid),
        ) + (if pb.retain { 1int } else { 0int }),
        PacketView::Puback(_) => 0x40,
        PacketView::Pubrec(_) => 0x50,
        PacketView::Pubrel(_) => 0x62,
        PacketView::Pubcomp(_) => 0x70,
        PacketView::Subscribe(_) => 0x82,
        PacketView::Suback(_) => 0x90,
        PacketView::Unsubscribe(_) => 0xA2,
        PacketView::Unsuback(_) => 0xB0,
        PacketView::Pingreq => 0xC0,
        PacketView::Pingresp => 0xD0,
        PacketView::Disconnect => 0xE0,
    }
}

/// The full encoding: fixed header, remaining length, body.
pub open spec fn encode_spec(p: PacketView) -> Seq<u8> {
    seq![packet_byte0(p) as u8] + enc_varint(packet_body(p).len() as int) + packet_body(p)
}

/// A string that fits behind a 16-bit length prefix.
pub open spec fn wf_str(s: Seq<char>) -> bool {
    vstd::utf8::encode_utf8(s).len() <= 0xFFFF
}

/// Field-level bounds a packet must meet to be encodable: strings and byte
/// fields fit their 16-bit length prefixes, packet identifiers are nonzero,
/// and SUBSCRIBE, SUBACK and UNSUBSCRIBE carry at least one entry.
pub open spec fn wf_fields(p: PacketView) -> bool {
    match p {
        PacketView::Connect(c) => wf_str(c.client_id) && (match c.last_will {
            Some(w) => wf_str(w.topic) && w.message.len() <= 0xFFFF,
            None => true,
        }) && (match c.username {
            Some(u) => wf_str(u),
            None => true,
        }) && (match c.password {
            Some(pw) => pw.len() <= 0xFFFF,
            None => true,
        }),
        PacketView::Connack(_) => true,
        PacketView::Publish(pb) => wf_str(pb.topic_name) && (match pb.qospid {
            QosPid::AtMostOnce => true,
            QosPid::AtLeastOnce(pid) => pid.spec_get() >= 1,
            QosPid::ExactlyOnce(pid) => pid.spec_get() >= 1,
        }),
        PacketView::Puback(pid) => pid.spec_get() >= 1,
        PacketView::Pubrec(pid) => pid.spec_get() >= 1,
        PacketView::Pubrel(pid) => pid.spec_get() >= 1,
        PacketView::Pubcomp(pid) => pid.spec_get() >= 1,
        PacketView::Subscribe(s) => s.pid.spec_get() >= 1 && s.topics.len() >= 1 && (forall|i: int|
            0 <= i < s.topics.len() ==> wf_str(#[trigger] s.topics[i].topic_path)),
        PacketView::Suback(s) => s.pid.spec_get() >= 1 && s.return_codes.len() >= 1,
        PacketView::Unsubscribe(u) => u.pid.spec_get() >= 1 && u.topics.len() >= 1 && (forall|
            i: int,
        |
            0 <= i < u.topics.len() ==> wf_str(#[trigger] u.topics[i])),
        PacketView::Unsuback(pid) => pid.spec_get() >= 1,
        PacketView::Pingreq => true,
        PacketView::Pingresp => true,
        PacketView::Disconnect => true,
    }
}

/// A packet the codec can put on the wire: its fields fit their length
/// prefixes and its body fits the remaining-length bound.
pub open spec fn wf_packet(p: PacketView) -> bool {
    wf_fields(p) && packet_body(p).len() <= REMAINING_LENGTH_MAX
}

/// Does the string fit behind a 16-bit length prefix?
fn str_fits(s: &str) -> (r: bool)
    ensures
        r == wf_str(s@),
{
    s.as_bytes().len() <= 0xFFFF
}

/// Appends a big-endian 16-bit integer.
fn write_u16(buf: &mut Vec<u8>, n: u16)
    ensures
        final(buf)@ == old(buf)@ + enc_u16(n as int),
{
    buf.push((n / 256) as u8);
    buf.push((n % 256) as u8);
    assert(final(buf)@ =~= old(buf)@ + enc_u16(n as int));
}

/// Appends a byte field with its length prefix.
fn write_bytes_field(buf: &mut Vec<u8>, v: &[u8])
    requires
        v@.len() <= 0xFFFF,
    ensures
        final(buf)@ == old(buf)@ + enc_bytes_field(v@),
{
    write_u16(buf, v.len() as u16);
    buf.extend_from_slice(v);
    assert(final(buf)@ =~= old(buf)@ + enc_bytes_field(v@));
}

/// Appends a string field with its length prefix.
fn write_str(buf: &mut Vec<u8>, s: &str)
    requires
        wf_str(s@),
    ensures
        final(buf)@ == old(buf)@ + enc_str(s@),
{
    write_bytes_field(buf, s.as_bytes());
}

/// Appends a remaining-length value as a variable-byte integer.
fn write_varint(buf: &mut Vec<u8>, n: u32)
    requires
        n <= REMAINING_LENGTH_MAX,
    ensures
        final(buf)@ == old(buf)@ + enc_varint(n as int),
{
    if n < 128 {
        buf.push(n as u8);
    } else if n < 16384 {
        proof {
            assert(n as int / 128 < 128) by (nonlinear_arith)
                requires n < 16384;
        }
        buf.push((n % 128 + 128) as u8);
        buf.push((n / 128) as u8);
    } else if n < 2097152 {
        proof {
            assert(n as int / 16384 < 128) by (nonlinear_arith)
                requires n < 2097152;
        }
        buf.push((n % 128 + 128) as u8);
        buf.push((n / 128 % 128 + 128) as u8);
        buf.push((n / 16384) as u8);
        proof {
            assert(n as int / 128 / 128 == n as int / 16384) by (nonlinear_arith);
        }
    } else {
        proof {
            assert(n as int / 2097152 < 128) by (nonlinear_arith)
                requires n <= 268435455;
        }
        buf.push((n % 128 + 128) as u8);
        buf.push((n / 128 % 128 + 128) as u8);
        buf.push((n / 16384 % 128 + 128) as u8);
        buf.push((n / 2097152) as u8);
        proof {
            assert(n as int / 128 / 128 == n as int / 16384 && n as int / 16384 / 128 == n as int
                / 2097152) by (nonlinear_arith);
        }
    }
    assert(final(buf)@ =~= old(buf)@ + enc_varint(n as int));
}

/// Encodes a remaining-length value as a variable-byte integer; fails with
/// `InvalidLength` exactly when the value exceeds the remaining-length
/// bound.
pub fn encode_remaining_length(n: u32) -> (r: Result<Vec<u8>, Error>)
    ensures
        n <= REMAINING_LENGTH_MAX ==> (r matches Ok(v) && v@ == enc_varint(n as int)),
        n > REMAINING_LENGTH_MAX ==> r == Err::<Vec<u8>, Error>(Error::InvalidLength),
{
    if n > REMAINING_LENGTH_MAX {
        return Err(Error::InvalidLength);
    }
    let mut out: Vec<u8> = Vec::new();
    write_varint(&mut out, n);
    proof {
        assert(Seq::<u8>::empty() + enc_varint(n as int) =~= enc_varint(n as int));
    }
    Ok(out)
}

/// Builds the body of a CONNECT packet.
#[verifier::rlimit(100)]
fn build_connect(c: &crate::packet::Connect) -> (r: Result<Vec<u8>, Error>)
    ensures
        wf_fields(PacketView::Connect(c@)) ==> (r matches Ok(v) && v@ == body_connect(c@)),
        !wf_fields(PacketView::Connect(c@)) ==> r == Err::<Vec<u8>, Error>(Error::InvalidLength),
{
    if !str_fits(c.client_id.as_str()) {
        return Err(Error::InvalidLength);
    }
    match &c.last_will {
        Some(w) => {
            if !str_fits(w.topic.as_str()) || w.message.len() > 0xFFFF {
                return Err(Error::InvalidLength);
            }
        },
        None => {},
    }
    match &c.username {
        Some(u) => {
            if !str_fits(u.as_str()) {
                return Err(Error::InvalidLength);
            }
        },
        None => {},
    }
    match &c.password {
        Some(pw) => {
            if pw.len() > 0xFFFF {
                return Err(Error::InvalidLength);
            }
        },
        None => {},
    }
    let mut body: Vec<u8> = Vec::new();
    let mut flags: u8 = if c.clean_session {
        2
    } else {
        0
    };
    match &c.protocol {
        Protocol::MQTT311 => {
            let name: [u8; 4] = [77, 81, 84, 84];
            write_bytes_field(&mut body, name.as_slice());
            body.push(4);
        },
        Protocol::MQIsdp => {
            let name: [u8; 6] = [77, 81, 73, 115, 100, 112];
            write_bytes_field(&mut body, name.as_slice());
            body.push(3);
        },
    }
    let ghost g1 = enc_bytes_field(protocol_name(c@.protocol)) + seq![
        protocol_level(c@.protocol) as u8,
    ];
    proof {
        assert(body@ =~= g1);
    }
    match &c.last_will {
        Some(w) => {
            flags = flags + 4 + 8 * w.qos.as_u8() + (if w.retain {
                32
            } else {
                0
            });
        },
        None => {},
    }
    match &c.password {
        Some(_) => {
            flags = flags + 64;
        },
        None => {},
    }
    match &c.username {
        Some(_) => {
            flags = flags + 128;
        },
        None => {},
    }
    body.push(flags);
    let ghost g2 = enc_bytes_field(protocol_name(c@.protocol)) + seq![
        protocol_level(c@.protocol) as u8,
        connect_flags(c@) as u8,
    ];
    proof {
        assert(flags == connect_flags(c@) as u8);
        assert(body@ =~= g2);
    }
    write_u16(&mut body, c.keep_alive);
    let ghost g3 = g2 + enc_u16(c@.keep_alive as int);
    write_str(&mut body, c.client_id.as_str());
    let ghost g4 = g3 + enc_str(c@.client_id);
    match &c.last_will {
        Some(w) => {
            write_str(&mut body, w.topic.as_str());
            write_bytes_field(&mut body, w.message.as_slice());
        },
        None => {},
    }
    let ghost g5 = g4 + (match c@.last_will {
        Some(w) => enc_str(w.topic) + enc_bytes_field(w.message),
        None => Seq::<u8>::empty(),
    });
    proof {
        assert(body@ =~= g5);
    }
    match &c.username {
        Some(u) => {
            write_str(&mut body, u.as_str());
        },
        None => {},
    }
    let ghost g6 = g5 + (match c@.username {
        Some(u) => enc_str(u),
        None => Seq::<u8>::empty(),
    });
    proof {
        assert(body@ =~= g6);
    }
    match &c.password {
        Some(pw) => {
            write_bytes_field(&mut body, pw.as_slice());
        },
        None => {},
    }
    let ghost g7 = g6 + (match c@.password {
        Some(pw) => enc_bytes_field(pw),
        None => Seq::<u8>::empty(),
    });
    proof {
        assert(body@ =~= g7);
        assert(g7 == body_connect(c@)) by {
            assert(g2 == enc_bytes_field(protocol_name(c@.protocol)) + seq![
                protocol_level(c@.protocol) as u8,
                connect_flags(c@) as u8,
            ]);
        }
    }
    Ok(body)
}

/// Builds the body of a PUBLISH packet.
fn build_publish(p: &crate::packet::Publish) -> (r: Result<Vec<u8>, Error>)
    ensures
        wf_fields(PacketView::Publish(p@)) ==> (r matches Ok(v) && v@ == body_publish(p@)),
        !wf_fields(PacketView::Publish(p@)) ==> r == Err::<Vec<u8>, Error>(Error::InvalidLength),
{
    if !str_fits(p.topic_name.as_str()) {
        return Err(Error::InvalidLength);
    }
    let mut body: Vec<u8> = Vec::new();
    write_str(&mut body, p.topic_name.as_str());
    match p.qospid {
        QosPid::AtMostOnce => {},
        QosPid::AtLeastOnce(pid) => {
            write_u16(&mut body, pid.get());
        },
        QosPid::ExactlyOnce(pid) => {
            write_u16(&mut body, pid.get());
        },
    }
    body.extend_from_slice(p.payload.as_slice());
    assert(body@ =~= body_publish(p@));
    Ok(body)
}

/// Builds the body of a SUBSCRIBE packet.
fn build_subscribe(s: &crate::packet::Subscribe) -> (r: Result<Vec<u8>, Error>)
    ensures
        wf_fields(PacketView::Subscribe(s@)) ==> (r matches Ok(v) && v@ == packet_body(
            PacketView::Subscribe(s@),
        )),
        !wf_fields(PacketView::Subscribe(s@)) ==> r == Err::<Vec<u8>, Error>(Error::InvalidLength),
{
    let ghost ts = s@.topics;
    if s.topics.len() == 0 {
        return Err(Error::InvalidLength);
    }
    let mut body: Vec<u8> = Vec::new();
    write_u16(&mut body, s.pid.get());
    let mut i: usize = 0;
    while i < s.topics.len()
        invariant
            i <= s.topics.len(),
            ts == s@.topics,
            ts.len() == s.topics.len(),
            forall|j: int| 0 <= j < ts.len() ==> ts[j] == #[trigger] s.topics[j]@,
            forall|j: int| 0 <= j < i ==> wf_str(#[trigger] ts[j].topic_path),
            body@ == enc_u16(s.pid.spec_get() as int) + sub_topics_bytes(ts.take(i as int)),
        decreases s.topics.len() - i,
    {
        let t = &s.topics[i];
        if !str_fits(t.topic_path.as_str()) {
            proof {
                assert(s@.topics[i as int].topic_path == t.topic_path@);
            }
            return Err(Error::InvalidLength);
        }
        write_str(&mut body, t.topic_path.as_str());
        body.push(t.qos.as_u8());
        proof {
            lemma_sub_topics_snoc(ts, i as int);
            assert(body@ =~= enc_u16(s.pid.spec_get() as int) + sub_topics_bytes(
                ts.take(i + 1),
            ));
        }
        i = i + 1;
    }
    proof {
        assert(ts.take(ts.len() as int) =~= ts);
    }
    Ok(body)
}

/// Builds the body of a SUBACK packet.
fn build_suback(s: &crate::packet::Suback) -> (r: Result<Vec<u8>, Error>)
    ensures
        wf_fields(PacketView::Suback(s@)) ==> (r matches Ok(v) && v@ == packet_body(
            PacketView::Suback(s@),
        )),
        !wf_fields(PacketView::Suback(s@)) ==> r == Err::<Vec<u8>, Error>(Error::InvalidLength),
{
    if s.return_codes.len() == 0 {
        return Err(Error::InvalidLength);
    }
    let mut body: Vec<u8> = Vec::new();
    write_u16(&mut body, s.pid.get());
    let mut i: usize = 0;
    while i < s.return_codes.len()
        invariant
            i <= s.return_codes.len(),
            body@ == enc_u16(s.pid.spec_get() as int) + suback_codes_bytes(
                s.return_codes@.take(i as int),
            ),
        decreases s.return_codes.len() - i,
    {
        let b: u8 = match s.return_codes[i] {
            SubscribeReturnCodes::Success(q) => q.as_u8(),
            SubscribeReturnCodes::Failure => 0x80,
        };
        body.push(b);
        proof {
            assert(body@ =~= enc_u16(s.pid.spec_get() as int) + suback_codes_bytes(
                s.return_codes@.take(i + 1),
            ));
        }
        i = i + 1;
    }
    proof {
        assert(s.return_codes@.take(s.return_codes@.len() as int) =~= s.return_codes@);
    }
    Ok(body)
}

/// Builds the body of an UNSUBSCRIBE packet.
fn build_unsubscribe(u: &crate::packet::Unsubscribe) -> (r: Result<Vec<u8>, Error>)
    ensures
        wf_fields(PacketView::Unsubscribe(u@)) ==> (r matches Ok(v) && v@ == packet_body(
            PacketView::Unsubscribe(u@),
        )),
        !wf_fields(PacketView::Unsubscribe(u@)) ==> r == Err::<Vec<u8>, Error>(
            Error::InvalidLength,
        ),
{
    let ghost ts = u@.topics;
    if u.topics.len() == 0 {
        return Err(Error::InvalidLength);
    }
    let mut body: Vec<u8> = Vec::new();
    write_u16(&mut body, u.pid.get());
    let mut i: usize = 0;
    while i < u.topics.len()
        invariant
            i <= u.topics.len(),
            ts == u@.topics,
            ts.len() == u.topics.len(),
            forall|j: int| 0 <= j < ts.len() ==> ts[j] == #[trigger] u.topics[j]@,
            forall|j: int| 0 <= j < i ==> wf_str(#[trigger] ts[j]),
            body@ == enc_u16(u.pid.spec_get() as int) + unsub_topics_bytes(ts.take(i as int)),
        decreases u.topics.len() - i,
    {
        let t = &u.topics[i];
        if !str_fits(t.as_str()) {
            proof {
                assert(u@.topics[i as int] == t@);
            }
            return Err(Error::InvalidLength);
        }
        write_str(&mut body, t.as_str());
        proof {
            lemma_unsub_topics_snoc(ts, i as int);
            assert(body@ =~= enc_u16(u.pid.spec_get() as int) + unsub_topics_bytes(
                ts.take(i + 1),
            ));
        }
        i = i + 1;
    }
    proof {
        assert(ts.take(ts.len() as int) =~= ts);
    }
    Ok(body)
}

/// Taking one more entry appends that entry's bytes.
proof fn lemma_sub_topics_snoc(ts: Seq<SubscribeTopicView>, i: int)
    requires
        0 <= i < ts.len(),
    ensures
        sub_topics_bytes(ts.take(i + 1)) == sub_topics_bytes(ts.take(i)) + sub_topic_bytes(
            ts[i],
        ),
    decreases i,
{
    if i == 0 {
        let t1 = ts.take(1);
        assert(t1.len() == 1);
        assert(t1[0] == ts[0]);
        assert(t1.drop_first() =~= Seq::<SubscribeTopicView>::empty());
        assert(sub_topics_bytes(Seq::<SubscribeTopicView>::empty()) == Seq::<u8>::empty());
        assert(sub_topics_bytes(t1) == sub_topic_bytes(ts[0]) + Seq::<u8>::empty());
        assert(ts.take(0) =~= Seq::<SubscribeTopicView>::empty());
        assert(sub_topics_bytes(ts.take(1)) =~= sub_topics_bytes(ts.take(0)) + sub_topic_bytes(
            ts[0],
        ));
    } else {
        let tail = ts.drop_first();
        lemma_sub_topics_snoc(tail, i - 1);
        assert(ts.take(i + 1).drop_first() =~= tail.take(i));
        assert(ts.take(i).drop_first() =~= tail.take(i - 1));
        assert(ts.take(i + 1)[0] == ts[0]);
        assert(ts.take(i)[0] == ts[0]);
        assert(sub_topics_bytes(ts.take(i + 1)) == sub_topic_bytes(ts[0]) + sub_topics_bytes(
            tail.take(i),
        ));
        assert(sub_topics_bytes(ts.take(i)) + sub_topic_bytes(ts[i]) =~= sub_topic_bytes(ts[0])
            + (sub_topics_bytes(tail.take(i - 1)) + sub_topic_bytes(tail[i - 1])));
    }
}

/// Taking one more filter appends that filter's bytes.
proof fn lemma_unsub_topics_snoc(ts: Seq<Seq<char>>, i: int)
    requires
        0 <= i < ts.len(),
    ensures
        unsub_topics_bytes(ts.take(i + 1)) == unsub_topics_bytes(ts.take(i)) + enc_str(ts[i]),
    decreases i,
{
    if i == 0 {
        let t1 = ts.take(1);
        assert(t1.len() == 1);
        assert(t1[0] == ts[0]);
        assert(t1.drop_first() =~= Seq::<Seq<char>>::empty());
        assert(unsub_topics_bytes(Seq::<Seq<char>>::empty()) == Seq::<u8>::empty());
        assert(unsub_topics_bytes(t1) == enc_str(ts[0]) + Seq::<u8>::empty());
        assert(ts.take(0) =~= Seq::<Seq<char>>::empty());
        assert(unsub_topics_bytes(ts.take(1)) =~= unsub_topics_bytes(ts.take(0)) + enc_str(
            ts[0],
        ));
    } else {
        let tail = ts.drop_first();
        lemma_unsub_topics_snoc(tail, i - 1);
        assert(ts.take(i + 1).drop_first() =~= tail.take(i));
        assert(ts.take(i).drop_first() =~= tail.take(i - 1));
        assert(ts.take(i + 1)[0] == ts[0]);
        assert(ts.take(i)[0] == ts[0]);
        assert(unsub_topics_bytes(ts.take(i + 1)) == enc_str(ts[0]) + unsub_topics_bytes(
            tail.take(i),
        ));
        assert(unsub_topics_bytes(ts.take(i)) + enc_str(ts[i]) =~= enc_str(ts[0])
            + (unsub_topics_bytes(tail.take(i - 1)) + enc_str(tail[i - 1])));
    }
}

/// Builds the body of any packet; fails with `InvalidLength` exactly when a
/// field does not fit its length prefix or a list is empty.
fn build_body(p: &Packet) -> (r: Result<Vec<u8>, Error>)
    ensures
        wf_fields(p@) ==> (r matches Ok(v) && v@ == packet_body(p@)),
        !wf_fields(p@) ==> r == Err::<Vec<u8>, Error>(Error::InvalidLength),
{
    match p {
        Packet::Connect(c) => build_connect(c),
        Packet::Connack(c) => {
            let mut body: Vec<u8> = Vec::new();
            body.push(
                if c.session_present {
                    1
                } else {
                    0
                },
            );
            body.push(c.code.as_u8());
            assert(body@ =~= body_connack(*c));
            Ok(body)
        },
        Packet::Publish(pb) => build_publish(pb),
        Packet::Puback(pid) => {
            let mut body: Vec<u8> = Vec::new();
            write_u16(&mut body, pid.get());
            Ok(body)
        },
        Packet::Pubrec(pid) => {
            let mut body: Vec<u8> = Vec::new();
            write_u16(&mut body, pid.get());
            Ok(body)
        },
        Packet::Pubrel(pid) => {
            let mut body: Vec<u8> = Vec::new();
            write_u16(&mut body, pid.get());
            Ok(body)
        },
        Packet::Pubcomp(pid) => {
            let mut body: Vec<u8> = Vec::new();
            write_u16(&mut body, pid.get());
            Ok(body)
        },
        Packet::Subscribe(s) => build_subscribe(s),
        Packet::Suback(s) => build_suback(s),
        Packet::Unsubscribe(u) => build_unsubscribe(u),
        Packet::Unsuback(pid) => {
            let mut body: Vec<u8> = Vec::new();
            write_u16(&mut body, pid.get());
            Ok(body)
        },
        Packet::Pingreq => Ok(Vec::new()),
        Packet::Pingresp => Ok(Vec::new()),
        Packet::Disconnect => Ok(Vec::new()),
    }
}

/// The first fixed-header byte of a packet.
fn byte0_of(p: &Packet) -> (r: u8)
    ensures
        r == packet_byte0(p@),
{
    match p {
        Packet::Connect(_) => 0x10,
        Packet::Connack(_) => 0x20,
        Packet::Publish(pb) => 0x30 + (if pb.dup {
            8
        } else {
            0
        }) + 2 * pb.qospid.qos().as_u8() + (if pb.retain {
            1
        } else {
            0
        }),
        Packet::Puback(_) => 0x40,
        Packet::Pubrec(_) => 0x50,
        Packet::Pubrel(_) => 0x62,
        Packet::Pubcomp(_) => 0x70,
        Packet::Subscribe(_) => 0x82,
        Packet::Suback(_) => 0x90,
        Packet::Unsubscribe(_) => 0xA2,
        Packet::Unsuback(_) => 0xB0,
        Packet::Pingreq => 0xC0,
        Packet::Pingresp => 0xD0,
        Packet::Disconnect => 0xE0,
    }
}

/// Encodes a packet to its exact wire bytes. Succeeds if and only if the
/// packet is well formed: every field fits its length prefix, every list
/// carries at least one entry, and the body fits the remaining-length
/// bound; otherwise fails with `InvalidLength`.
pub fn encode(p: &Packet) -> (r: Result<Vec<u8>, Error>)
    ensures
        wf_packet(p@) ==> (r matches Ok(v) && v@ == encode_spec(p@)),
        !wf_packet(p@) ==> r == Err::<Vec<u8>, Error>(Error::InvalidLength),
{
    let body = match build_body(p) {
        Ok(b) => b,
        Err(e) => {
            return Err(e);
        },
    };
    if body.len() > REMAINING_LENGTH_MAX as usize {
        return Err(Error::InvalidLength);
    }
    let mut out: Vec<u8> = Vec::new();
    out.push(byte0_of(p));
    write_varint(&mut out, body.len() as u32);
    out.extend_from_slice(body.as_slice());
    assert(out@ =~= encode_spec(p@));
    Ok(out)
}

} // verus!
