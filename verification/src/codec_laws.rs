//! The laws the codec obeys: decoding an encoding gives back the packet,
//! and decoding any strict prefix of an encoding reports an incomplete
//! buffer rather than an error.

use vstd::prelude::*;

use crate::decode::{
    decode_spec, parse_body, parse_connack, parse_connect, parse_pid_only, parse_publish,
    parse_sub_topics, parse_suback_codes, parse_unsub_topics, qos_of, return_code_of,
};
use crate::encode::{
    body_connack, body_connect, body_publish, connect_flags, encode_spec, packet_body,
    packet_byte0, protocol_name, sub_topic_bytes, sub_topics_bytes, suback_codes_bytes,
    unsub_topics_bytes, wf_fields, wf_packet, wf_str,
};
use crate::packet::{
    Connack, ConnectView, PacketView, Protocol, PublishView, SubscribeReturnCodes,
    SubscribeTopicView,
};
use crate::types::{qos_value, qospid_qos, Error, Pid, QoS, QosPid};
use crate::wire::{
    enc_bytes_field, enc_str, enc_u16, enc_varint, lemma_bytes_field_roundtrip,
    lemma_str_field_roundtrip, lemma_u16_roundtrip, lemma_varint_roundtrip, parse_bytes_field,
    parse_header, parse_str_field, parse_u16,
};

verus! {

/// A level survives its wire value.
proof fn lemma_qos_value_roundtrip(q: QoS)
    ensures
        qos_of(qos_value(q)) == q,
        0 <= qos_value(q) <= 2,
{
}

/// A return code survives its wire value.
proof fn lemma_return_code_roundtrip(c: crate::packet::ConnectReturnCode)
    ensures
        return_code_of(crate::packet::return_code_value(c)) == c,
        0 <= crate::packet::return_code_value(c) <= 5,
{
}

/// A two-byte identifier body parses back to its identifier.
proof fn lemma_body_pid(v: int)
    requires
        1 <= v <= 0xFFFF,
    ensures
        parse_pid_only(enc_u16(v)) == Ok::<Pid, Error>(Pid::spec_from(v as u16)),
{
    let b = enc_u16(v);
    assert(b[0] == (v / 256) as u8);
    assert(b[1] == (v % 256) as u8);
    vstd::arithmetic::div_mod::lemma_fundamental_div_mod(v, 256);
}

/// A CONNACK body parses back to its packet.
proof fn lemma_body_connack(c: Connack)
    ensures
        parse_connack(body_connack(c)) == Ok::<Connack, Error>(c),
{
    lemma_return_code_roundtrip(c.code);
}

/// Bit extraction from the CONNECT flags byte.
proof fn lemma_connect_flags(c: ConnectView)
    ensures
        0 <= connect_flags(c) < 256,
        connect_flags(c) % 2 == 0,
        (connect_flags(c) / 2) % 2 == (if c.clean_session { 1int } else { 0int }),
        (connect_flags(c) / 4) % 2 == (match c.last_will {
            Some(_) => 1int,
            None => 0int,
        }),
        (connect_flags(c) / 8) % 4 == (match c.last_will {
            Some(w) => qos_value(w.qos),
            None => 0int,
        }),
        (connect_flags(c) / 32) % 2 == (match c.last_will {
            Some(w) => if w.retain { 1int } else { 0int },
            None => 0int,
        }),
        (connect_flags(c) / 64) % 2 == (match c.password {
            Some(_) => 1int,
            None => 0int,
        }),
        (connect_flags(c) / 128) % 2 == (match c.username {
            Some(_) => 1int,
            None => 0int,
        }),
{
    let a = if c.clean_session { 1int } else { 0int };
    let w = match c.last_will {
        Some(_) => 1int,
        None => 0int,
    };
    let q = match c.last_will {
        Some(wl) => qos_value(wl.qos),
        None => 0int,
    };
    let r = match c.last_will {
        Some(wl) => if wl.retain { 1int } else { 0int },
        None => 0int,
    };
    let s = match c.password {
        Some(_) => 1int,
        None => 0int,
    };
    let t = match c.username {
        Some(_) => 1int,
        None => 0int,
    };
    assert(connect_flags(c) == 2 * a + 4 * w + 8 * q + 32 * r + 64 * s + 128 * t);
    assert(0 <= a <= 1 && 0 <= w <= 1 && 0 <= q <= 2 && 0 <= r <= 1 && 0 <= s <= 1 && 0 <= t
        <= 1);
    let f = 2 * a + 4 * w + 8 * q + 32 * r + 64 * s + 128 * t;
    assert(f % 2 == 0 && (f / 2) % 2 == a && (f / 4) % 2 == w && (f / 8) % 4 == q && (f / 32) % 2
        == r && (f / 64) % 2 == s && (f / 128) % 2 == t) by (nonlinear_arith)
        requires
            0 <= a <= 1 && 0 <= w <= 1 && 0 <= q <= 2 && 0 <= r <= 1 && 0 <= s <= 1 && 0 <= t
                <= 1 && f == 2 * a + 4 * w + 8 * q + 32 * r + 64 * s + 128 * t,
    ;
}

/// The will part of a CONNECT body.
spec fn conn_wpart(c: ConnectView) -> Seq<u8> {
    match c.last_will {
        Some(w) => enc_str(w.topic) + enc_bytes_field(w.message),
        None => Seq::<u8>::empty(),
    }
}

/// The username part of a CONNECT body.
spec fn conn_upart(c: ConnectView) -> Seq<u8> {
    match c.username {
        Some(u) => enc_str(u),
        None => Seq::<u8>::empty(),
    }
}

/// The password part of a CONNECT body.
spec fn conn_ppart(c: ConnectView) -> Seq<u8> {
    match c.password {
        Some(pw) => enc_bytes_field(pw),
        None => Seq::<u8>::empty(),
    }
}

/// Position after the protocol name field of a CONNECT body.
spec fn conn_i1(c: ConnectView) -> int {
    2 + protocol_name(c.protocol).len() as int
}

/// Position after the client identifier of a CONNECT body.
spec fn conn_i2(c: ConnectView) -> int {
    conn_i1(c) + 4 + 2 + vstd::utf8::encode_utf8(c.client_id).len() as int
}

/// The head fields of a CONNECT body parse back: protocol name, level and
/// flags bytes, keep-alive, and the client identifier.
#[verifier::rlimit(100)]
#[verifier::spinoff_prover]
proof fn lemma_connect_head(c: ConnectView)
    requires
        wf_fields(PacketView::Connect(c)),
    ensures
        parse_bytes_field(body_connect(c), 0) == Ok::<(Seq<u8>, int), Error>(
            (protocol_name(c.protocol), conn_i1(c)),
        ),
        body_connect(c)[conn_i1(c)] == crate::encode::protocol_level(c.protocol) as u8,
        body_connect(c)[conn_i1(c) + 1] == connect_flags(c) as u8,
        parse_u16(body_connect(c), conn_i1(c) + 2) == Some(c.keep_alive as int),
        parse_str_field(body_connect(c), conn_i1(c) + 4) == Ok::<(Seq<char>, int), Error>(
            (c.client_id, conn_i2(c)),
        ),
{
    let b = body_connect(c);
    let name = protocol_name(c.protocol);
    let lvl = crate::encode::protocol_level(c.protocol) as u8;
    let flg = connect_flags(c) as u8;
    lemma_connect_flags(c);
    let tail = conn_wpart(c) + conn_upart(c) + conn_ppart(c);
    let rest1 = seq![lvl, flg] + enc_u16(c.keep_alive as int) + enc_str(c.client_id) + tail;
    assert(b =~= Seq::<u8>::empty() + enc_bytes_field(name) + rest1);
    lemma_bytes_field_roundtrip(Seq::<u8>::empty(), name, rest1);
    let i1 = conn_i1(c);
    assert(b[i1] == lvl);
    assert(b[i1 + 1] == flg);
    let prefix2 = Seq::<u8>::empty() + enc_bytes_field(name) + seq![lvl, flg];
    assert(b =~= prefix2 + enc_u16(c.keep_alive as int) + (enc_str(c.client_id) + tail));
    lemma_u16_roundtrip(prefix2, c.keep_alive as int, enc_str(c.client_id) + tail);
    let prefix3 = prefix2 + enc_u16(c.keep_alive as int);
    assert(prefix3.len() == i1 + 4);
    assert(b =~= prefix3 + enc_str(c.client_id) + tail);
    lemma_str_field_roundtrip(prefix3, c.client_id, tail);
}

/// The payload fields of a CONNECT body parse back: will, username and
/// password, consuming the body exactly.
#[verifier::rlimit(100)]
#[verifier::spinoff_prover]
proof fn lemma_connect_tail(c: ConnectView)
    requires
        wf_fields(PacketView::Connect(c)),
    ensures
        crate::decode::parse_will(
            body_connect(c),
            conn_i2(c),
            c.last_will is Some,
            match c.last_will {
                Some(w) => qos_value(w.qos),
                None => 0int,
            },
            match c.last_will {
                Some(w) => w.retain,
                None => false,
            },
        ) == Ok::<(Option<crate::packet::LastWillView>, int), Error>(
            (c.last_will, conn_i2(c) + conn_wpart(c).len() as int),
        ),
{
    let b = body_connect(c);
    let name = protocol_name(c.protocol);
    let lvl = crate::encode::protocol_level(c.protocol) as u8;
    let flg = connect_flags(c) as u8;
    let prefix4 = Seq::<u8>::empty() + enc_bytes_field(name) + seq![lvl, flg] + enc_u16(
        c.keep_alive as int,
    ) + enc_str(c.client_id);
    let i2 = conn_i2(c);
    assert(prefix4.len() == i2);
    let i3 = i2 + conn_wpart(c).len() as int;
    match c.last_will {
        Some(w) => {
            assert(b =~= prefix4 + enc_str(w.topic) + (enc_bytes_field(w.message) + conn_upart(c)
                + conn_ppart(c)));
            lemma_str_field_roundtrip(prefix4, w.topic, enc_bytes_field(w.message) + conn_upart(c)
                + conn_ppart(c));
            let prefix5 = prefix4 + enc_str(w.topic);
            assert(b =~= prefix5 + enc_bytes_field(w.message) + (conn_upart(c) + conn_ppart(c)));
            lemma_bytes_field_roundtrip(prefix5, w.message, conn_upart(c) + conn_ppart(c));
            lemma_qos_value_roundtrip(w.qos);
            assert(prefix5.len() + 2 + w.message.len() == i3);
        },
        None => {},
    }
}

/// The username and password fields of a CONNECT body parse back,
/// consuming the body exactly.
#[verifier::rlimit(100)]
#[verifier::spinoff_prover]
proof fn lemma_connect_user_pass(c: ConnectView)
    requires
        wf_fields(PacketView::Connect(c)),
    ensures
        crate::decode::parse_opt_str(
            body_connect(c),
            conn_i2(c) + conn_wpart(c).len() as int,
            c.username is Some,
        ) == Ok::<(Option<Seq<char>>, int), Error>(
            (c.username, conn_i2(c) + conn_wpart(c).len() + conn_upart(c).len() as int),
        ),
        crate::decode::parse_opt_bytes(
            body_connect(c),
            conn_i2(c) + conn_wpart(c).len() + conn_upart(c).len() as int,
            c.password is Some,
        ) == Ok::<(Option<Seq<u8>>, int), Error>((c.password, body_connect(c).len() as int)),
{
    let b = body_connect(c);
    let name = protocol_name(c.protocol);
    let lvl = crate::encode::protocol_level(c.protocol) as u8;
    let flg = connect_flags(c) as u8;
    let prefix4 = Seq::<u8>::empty() + enc_bytes_field(name) + seq![lvl, flg] + enc_u16(
        c.keep_alive as int,
    ) + enc_str(c.client_id);
    let i2 = conn_i2(c);
    assert(prefix4.len() == i2);
    let i3 = i2 + conn_wpart(c).len() as int;
    let prefix6 = prefix4 + conn_wpart(c);
    assert(prefix6.len() == i3);
    let i4 = i3 + conn_upart(c).len() as int;
    match c.username {
        Some(u) => {
            assert(b =~= prefix6 + enc_str(u) + conn_ppart(c));
            lemma_str_field_roundtrip(prefix6, u, conn_ppart(c));
        },
        None => {},
    }
    let prefix7 = prefix6 + conn_upart(c);
    assert(prefix7.len() == i4);
    match c.password {
        Some(pw) => {
            assert(b =~= prefix7 + enc_bytes_field(pw) + Seq::<u8>::empty());
            lemma_bytes_field_roundtrip(prefix7, pw, Seq::<u8>::empty());
        },
        None => {},
    }
    assert(b.len() == i4 + conn_ppart(c).len() as int);
}

/// A CONNECT body parses back to its packet.
#[verifier::rlimit(100)]
#[verifier::spinoff_prover]
proof fn lemma_body_connect(c: ConnectView)
    requires
        wf_fields(PacketView::Connect(c)),
    ensures
        parse_connect(body_connect(c)) == Ok::<ConnectView, Error>(c),
{
    lemma_connect_flags(c);
    lemma_connect_head(c);
    lemma_connect_tail(c);
    lemma_connect_user_pass(c);
    assert(protocol_name(Protocol::MQTT311).len() == 4);
    assert(protocol_name(Protocol::MQIsdp).len() == 6);
    let b = body_connect(c);
    assert(b.len() >= conn_i1(c) + 4);
}

/// A PUBLISH body parses back to its packet under its own flags.
proof fn lemma_body_publish(pb: PublishView)
    requires
        wf_fields(PacketView::Publish(pb)),
    ensures
        parse_publish(
            (if pb.dup { 8int } else { 0int }) + 2 * qos_value(qospid_qos(pb.qospid)) + (if pb.retain { 1int } else { 0int }),
            body_publish(pb),
        ) == Ok::<PublishView, Error>(pb),
{
    let d = if pb.dup { 1int } else { 0int };
    let q = qos_value(qospid_qos(pb.qospid));
    let r = if pb.retain { 1int } else { 0int };
    let fl = 8 * d + 2 * q + r;
    assert((fl / 2) % 4 == q && fl % 2 == r && (fl >= 8 <==> d == 1)) by (nonlinear_arith)
        requires
            0 <= d <= 1 && 0 <= q <= 2 && 0 <= r <= 1 && fl == 8 * d + 2 * q + r,
    ;
    let b = body_publish(pb);
    let mid = match pb.qospid {
        QosPid::AtMostOnce => Seq::<u8>::empty(),
        QosPid::AtLeastOnce(pid) => enc_u16(pid.spec_get() as int),
        QosPid::ExactlyOnce(pid) => enc_u16(pid.spec_get() as int),
    };
    assert(b =~= Seq::<u8>::empty() + enc_str(pb.topic_name) + (mid + pb.payload));
    lemma_str_field_roundtrip(Seq::<u8>::empty(), pb.topic_name, mid + pb.payload);
    let i1 = 2 + vstd::utf8::encode_utf8(pb.topic_name).len() as int;
    let prefix2 = Seq::<u8>::empty() + enc_str(pb.topic_name);
    assert(prefix2.len() == i1);
    match pb.qospid {
        QosPid::AtMostOnce => {
            assert(b.subrange(i1, b.len() as int) =~= pb.payload);
        },
        QosPid::AtLeastOnce(pid) => {
            assert(b =~= prefix2 + enc_u16(pid.spec_get() as int) + pb.payload);
            lemma_u16_roundtrip(prefix2, pid.spec_get() as int, pb.payload);
            crate::types::lemma_pid_view_roundtrip(pid);
            assert(b.subrange(i1 + 2, b.len() as int) =~= pb.payload);
        },
        QosPid::ExactlyOnce(pid) => {
            assert(b =~= prefix2 + enc_u16(pid.spec_get() as int) + pb.payload);
            lemma_u16_roundtrip(prefix2, pid.spec_get() as int, pb.payload);
            crate::types::lemma_pid_view_roundtrip(pid);
            assert(b.subrange(i1 + 2, b.len() as int) =~= pb.payload);
        },
    }
}

/// SUBSCRIBE entries parse back from their bytes, whatever stands before
/// them in the buffer.
proof fn lemma_parse_sub_topics(prefix: Seq<u8>, ts: Seq<SubscribeTopicView>)
    requires
        forall|k: int| 0 <= k < ts.len() ==> wf_str(#[trigger] ts[k].topic_path),
    ensures
        parse_sub_topics(prefix + sub_topics_bytes(ts), prefix.len() as int) == Ok::<
            Seq<SubscribeTopicView>,
            Error,
        >(ts),
    decreases ts.len(),
{
    let b = prefix + sub_topics_bytes(ts);
    if ts.len() == 0 {
        assert(b =~= prefix);
        assert(ts =~= Seq::<SubscribeTopicView>::empty());
    } else {
        let t0 = ts[0];
        let qb = qos_value(t0.qos) as u8;
        lemma_qos_value_roundtrip(t0.qos);
        let restb = sub_topics_bytes(ts.drop_first());
        assert(sub_topics_bytes(ts) == sub_topic_bytes(t0) + restb);
        assert(b =~= prefix + enc_str(t0.topic_path) + (seq![qb] + restb));
        lemma_str_field_roundtrip(prefix, t0.topic_path, seq![qb] + restb);
        let j = prefix.len() + 2 + vstd::utf8::encode_utf8(t0.topic_path).len() as int;
        assert(b[j] == qb);
        let prefix2 = prefix + enc_str(t0.topic_path) + seq![qb];
        assert(prefix2.len() == j + 1);
        assert(b =~= prefix2 + restb);
        lemma_parse_sub_topics(prefix2, ts.drop_first());
        assert(seq![SubscribeTopicView { topic_path: t0.topic_path, qos: qos_of(qb as int) }]
            + ts.drop_first() =~= ts);
    }
}

/// SUBACK return codes parse back from their bytes.
proof fn lemma_parse_suback_codes(prefix: Seq<u8>, cs: Seq<SubscribeReturnCodes>)
    ensures
        parse_suback_codes(prefix + suback_codes_bytes(cs), prefix.len() as int) == Ok::<
            Seq<SubscribeReturnCodes>,
            Error,
        >(cs),
    decreases cs.len(),
{
    let b = prefix + suback_codes_bytes(cs);
    if cs.len() == 0 {
        assert(b =~= prefix);
        assert(cs =~= Seq::<SubscribeReturnCodes>::empty());
    } else {
        let v = crate::packet::suback_code_value(cs[0]) as u8;
        assert(b[prefix.len() as int] == v);
        match cs[0] {
            SubscribeReturnCodes::Success(q) => {
                lemma_qos_value_roundtrip(q);
            },
            SubscribeReturnCodes::Failure => {},
        }
        let prefix2 = prefix + seq![v];
        assert(b =~= prefix2 + suback_codes_bytes(cs.drop_first()));
        lemma_parse_suback_codes(prefix2, cs.drop_first());
        assert(seq![cs[0]] + cs.drop_first() =~= cs);
        assert(parse_suback_codes(b, prefix.len() as int) == Ok::<
            Seq<SubscribeReturnCodes>,
            Error,
        >(cs));
    }
}

/// UNSUBSCRIBE filters parse back from their bytes.
proof fn lemma_parse_unsub_topics(prefix: Seq<u8>, ts: Seq<Seq<char>>)
    requires
        forall|k: int| 0 <= k < ts.len() ==> wf_str(#[trigger] ts[k]),
    ensures
        parse_unsub_topics(prefix + unsub_topics_bytes(ts), prefix.len() as int) == Ok::<
            Seq<Seq<char>>,
            Error,
        >(ts),
    decreases ts.len(),
{
    let b = prefix + unsub_topics_bytes(ts);
    if ts.len() == 0 {
        assert(b =~= prefix);
        assert(ts =~= Seq::<Seq<char>>::empty());
    } else {
        let restb = unsub_topics_bytes(ts.drop_first());
        assert(b =~= prefix + enc_str(ts[0]) + restb);
        lemma_str_field_roundtrip(prefix, ts[0], restb);
        let prefix2 = prefix + enc_str(ts[0]);
        assert(b =~= prefix2 + restb);
        lemma_parse_unsub_topics(prefix2, ts.drop_first());
        assert(seq![ts[0]] + ts.drop_first() =~= ts);
    }
}

/// A packet body parses back to the packet under its own fixed-header byte.
#[verifier::rlimit(100)]
#[verifier::spinoff_prover]
proof fn lemma_parse_body(p: PacketView)
    requires
        wf_fields(p),
    ensures
        parse_body(packet_byte0(p) as u8, packet_body(p)) == Ok::<PacketView, Error>(p),
{
    match p {
        PacketView::Connect(c) => {
            lemma_body_connect(c);
        },
        PacketView::Connack(c) => {
            lemma_body_connack(c);
        },
        PacketView::Publish(pb) => {
            let d = if pb.dup { 1int } else { 0int };
            let q = qos_value(qospid_qos(pb.qospid));
            let r = if pb.retain { 1int } else { 0int };
            let b0 = 0x30 + 8 * d + 2 * q + r;
            assert(b0 / 16 == 3 && b0 % 16 == 8 * d + 2 * q + r) by (nonlinear_arith)
                requires
                    0 <= d <= 1 && 0 <= q <= 2 && 0 <= r <= 1 && b0 == 0x30 + 8 * d + 2 * q + r,
            ;
            lemma_body_publish(pb);
        },
        PacketView::Puback(pid) => {
            lemma_body_pid(pid.spec_get() as int);
            crate::types::lemma_pid_view_roundtrip(pid);
        },
        PacketView::Pubrec(pid) => {
            lemma_body_pid(pid.spec_get() as int);
            crate::types::lemma_pid_view_roundtrip(pid);
        },
        PacketView::Pubrel(pid) => {
            lemma_body_pid(pid.spec_get() as int);
            crate::types::lemma_pid_view_roundtrip(pid);
        },
        PacketView::Pubcomp(pid) => {
            lemma_body_pid(pid.spec_get() as int);
            crate::types::lemma_pid_view_roundtrip(pid);
        },
        PacketView::Subscribe(s) => {
            let body = packet_body(p);
            let pfx = enc_u16(s.pid.spec_get() as int);
            assert(body =~= Seq::<u8>::empty() + pfx + sub_topics_bytes(s.topics));
            lemma_u16_roundtrip(Seq::<u8>::empty(), s.pid.spec_get() as int, sub_topics_bytes(
                s.topics,
            ));
            assert(body =~= pfx + sub_topics_bytes(s.topics));
            lemma_parse_sub_topics(pfx, s.topics);
            crate::types::lemma_pid_view_roundtrip(s.pid);
        },
        PacketView::Suback(s) => {
            let body = packet_body(p);
            let pfx = enc_u16(s.pid.spec_get() as int);
            assert(body =~= Seq::<u8>::empty() + pfx + suback_codes_bytes(s.return_codes));
            lemma_u16_roundtrip(Seq::<u8>::empty(), s.pid.spec_get() as int, suback_codes_bytes(
                s.return_codes,
            ));
            assert(body =~= pfx + suback_codes_bytes(s.return_codes));
            lemma_parse_suback_codes(pfx, s.return_codes);
            crate::types::lemma_pid_view_roundtrip(s.pid);
        },
        PacketView::Unsubscribe(u) => {
            let body = packet_body(p);
            let pfx = enc_u16(u.pid.spec_get() as int);
            assert(body =~= Seq::<u8>::empty() + pfx + unsub_topics_bytes(u.topics));
            lemma_u16_roundtrip(Seq::<u8>::empty(), u.pid.spec_get() as int, unsub_topics_bytes(
                u.topics,
            ));
            assert(body =~= pfx + unsub_topics_bytes(u.topics));
            lemma_parse_unsub_topics(pfx, u.topics);
            crate::types::lemma_pid_view_roundtrip(u.pid);
        },
        PacketView::Unsuback(pid) => {
            lemma_body_pid(pid.spec_get() as int);
            crate::types::lemma_pid_view_roundtrip(pid);
        },
        PacketView::Pingreq => {},
        PacketView::Pingresp => {},
        PacketView::Disconnect => {},
    }
}

/// Decoding an encoding gives back the packet: for every well-formed packet
/// `p`, `decode_spec(encode_spec(p))` finds exactly `p`, spanning the whole
/// encoding. Through the contracts of `encode` and `decode`, the same holds
/// of the executable codec.
pub proof fn lemma_codec_roundtrip(p: PacketView)
    requires
        wf_packet(p),
    ensures
        decode_spec(encode_spec(p)) == Ok::<Option<(PacketView, int)>, Error>(
            Some((p, encode_spec(p).len() as int)),
        ),
{
    let body = packet_body(p);
    let n = body.len() as int;
    let b0 = packet_byte0(p) as u8;
    let enc = encode_spec(p);
    lemma_varint_roundtrip(b0, n, body);
    assert(enc == seq![b0] + enc_varint(n) + body);
    let hlen = 1 + enc_varint(n).len() as int;
    assert(parse_header(enc) == Ok::<Option<(int, int)>, Error>(Some((n, hlen))));
    assert(enc.len() == hlen + n);
    assert(enc[0] == b0);
    assert(enc.subrange(hlen, hlen + n) =~= body);
    lemma_parse_body(p);
}

/// Decoding any strict prefix of an encoding reports an incomplete buffer:
/// it returns `Ok(None)`, never an error.
pub proof fn lemma_truncated_decode(p: PacketView, n: int)
    requires
        wf_packet(p),
        0 <= n < encode_spec(p).len(),
    ensures
        decode_spec(encode_spec(p).take(n)) == Ok::<Option<(PacketView, int)>, Error>(None),
{
    let body = packet_body(p);
    let rl = body.len() as int;
    let b0 = packet_byte0(p) as u8;
    let enc = encode_spec(p);
    let b = enc.take(n);
    lemma_varint_roundtrip(b0, rl, body);
    let hlen = 1 + enc_varint(rl).len() as int;
    assert(enc.len() == hlen + rl);
    if n < 2 {
        assert(b.len() < 2);
        assert(parse_header(b) == Ok::<Option<(int, int)>, Error>(None));
    } else {
        assert(b[1] == enc[1]);
        if rl < 128 {
            assert(hlen == 2);
            assert(b[1] == rl as u8);
            assert(parse_header(b) == Ok::<Option<(int, int)>, Error>(Some((rl, 2))));
            assert(b.len() < 2 + rl);
        } else if rl < 16384 {
            assert(hlen == 3);
            assert(b[1] == (rl % 128 + 128) as u8);
            if n < 3 {
                assert(parse_header(b) == Ok::<Option<(int, int)>, Error>(None));
            } else {
                assert(b[2] == (rl / 128) as u8);
                assert(rl / 128 < 128) by (nonlinear_arith)
                    requires 128 <= rl < 16384;
                vstd::arithmetic::div_mod::lemma_fundamental_div_mod(rl, 128);
                assert(parse_header(b) == Ok::<Option<(int, int)>, Error>(Some((rl, 3))));
                assert(b.len() < 3 + rl);
            }
        } else if rl < 2097152 {
            assert(hlen == 4);
            assert(b[1] == (rl % 128 + 128) as u8);
            if n < 3 {
                assert(parse_header(b) == Ok::<Option<(int, int)>, Error>(None));
            } else {
                assert(b[2] == ((rl / 128) % 128 + 128) as u8);
                if n < 4 {
                    assert(parse_header(b) == Ok::<Option<(int, int)>, Error>(None));
                } else {
                    assert(b[3] == (rl / 16384) as u8);
                    assert(128 <= rl / 128 && rl / 16384 < 128 && rl / 128 / 128 == rl / 16384)
                        by (nonlinear_arith)
                        requires 16384 <= rl < 2097152;
                    vstd::arithmetic::div_mod::lemma_fundamental_div_mod(rl, 128);
                    vstd::arithmetic::div_mod::lemma_fundamental_div_mod(rl / 128, 128);
                    assert(parse_header(b) == Ok::<Option<(int, int)>, Error>(Some((rl, 4))));
                    assert(b.len() < 4 + rl);
                }
            }
        } else {
            assert(hlen == 5);
            assert(b[1] == (rl % 128 + 128) as u8);
            if n < 3 {
                assert(parse_header(b) == Ok::<Option<(int, int)>, Error>(None));
            } else {
                assert(b[2] == ((rl / 128) % 128 + 128) as u8);
                if n < 4 {
                    assert(parse_header(b) == Ok::<Option<(int, int)>, Error>(None));
                } else {
                    assert(b[3] == ((rl / 16384) % 128 + 128) as u8);
                    if n < 5 {
                        assert(parse_header(b) == Ok::<Option<(int, int)>, Error>(None));
                    } else {
                        assert(b[4] == (rl / 2097152) as u8);
                        assert(128 <= rl / 128 && 128 <= rl / 16384 && rl / 2097152 < 128 && rl
                            / 128 / 128 == rl / 16384 && rl / 16384 / 128 == rl / 2097152)
                            by (nonlinear_arith)
                            requires 2097152 <= rl <= 268435455;
                        vstd::arithmetic::div_mod::lemma_fundamental_div_mod(rl, 128);
                        vstd::arithmetic::div_mod::lemma_fundamental_div_mod(rl / 128, 128);
                        vstd::arithmetic::div_mod::lemma_fundamental_div_mod(rl / 16384, 128);
                        assert(parse_header(b) == Ok::<Option<(int, int)>, Error>(
                            Some((rl, 5)),
                        ));
                        assert(b.len() < 5 + rl);
                    }
                }
            }
        }
    }
}

} // verus!
