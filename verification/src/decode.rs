//! The wire decoder: a specification function giving the exact parse of any
//! byte buffer, and the executable decoder proved to agree with it.
//!
//! `decode_spec` returns `Ok(None)` exactly when the buffer does not yet
//! hold a whole packet, `Ok(Some((packet, n)))` when the first `n` bytes
//! form one, and an error for malformed bytes. Trailing bytes are never
//! looked at.

use vstd::prelude::*;

use crate::packet::{
    Connack, Connect, ConnectReturnCode, ConnectView, LastWill, LastWillView, Packet, PacketView,
    Protocol, Publish, PublishView, Subscribe, SubscribeReturnCodes, SubscribeTopic,
    SubscribeTopicView, SubscribeView, Suback, SubackView, Unsubscribe, UnsubscribeView,
};
use crate::types::{Error, Pid, QoS, QosPid};
use crate::wire::{parse_bytes_field, parse_header, parse_str_field, parse_u16};

verus! {

/// The quality-of-service level of a wire value in `[0, 2]`.
pub open spec fn qos_of(v: int) -> QoS {
    if v == 0 {
        QoS::AtMostOnce
    } else if v == 1 {
        QoS::AtLeastOnce
    } else {
        QoS::ExactlyOnce
    }
}

/// The CONNACK return code of a wire value in `[0, 5]`.
pub open spec fn return_code_of(v: int) -> ConnectReturnCode {
    if v == 0 {
        ConnectReturnCode::Accepted
    } else if v == 1 {
        ConnectReturnCode::RefusedProtocolVersion
    } else if v == 2 {
        ConnectReturnCode::RefusedIdentifierRejected
    } else if v == 3 {
        ConnectReturnCode::ServerUnavailable
    } else if v == 4 {
        ConnectReturnCode::BadUsernamePassword
    } else {
        ConnectReturnCode::NotAuthorized
    }
}

/// Parses the will of a CONNECT body when the will flag is set.
pub open spec fn parse_will(
    b: Seq<u8>,
    i: int,
    will_flag: bool,
    will_qos: int,
    will_retain: bool,
) -> Result<(Option<LastWillView>, int), Error> {
    if !will_flag {
        Ok((None, i))
    } else {
        match parse_str_field(b, i) {
            Err(e) => Err(e),
            Ok((topic, j)) => match parse_bytes_field(b, j) {
                Err(e) => Err(e),
                Ok((message, k)) => Ok(
                    (
                        Some(
                            LastWillView {
                                topic,
                                message,
                                qos: qos_of(will_qos),
                                retain: will_retain,
                            },
                        ),
                        k,
                    ),
                ),
            },
        }
    }
}

/// Parses the username of a CONNECT body when its flag is set.
pub open spec fn parse_opt_str(b: Seq<u8>, i: int, present: bool) -> Result<
    (Option<Seq<char>>, int),
    Error,
> {
    if !present {
        Ok((None, i))
    } else {
        match parse_str_field(b, i) {
            Err(e) => Err(e),
            Ok((s, j)) => Ok((Some(s), j)),
        }
    }
}

/// Parses the password of a CONNECT body when its flag is set.
pub open spec fn parse_opt_bytes(b: Seq<u8>, i: int, present: bool) -> Result<
    (Option<Seq<u8>>, int),
    Error,
> {
    if !present {
        Ok((None, i))
    } else {
        match parse_bytes_field(b, i) {
            Err(e) => Err(e),
            Ok((v, j)) => Ok((Some(v), j)),
        }
    }
}

/// Parses a CONNECT body: protocol name and level, flags, keep-alive,
/// client identifier, and the flag-dependent payload fields, which must
/// consume the body exactly.
pub open spec fn parse_connect(b: Seq<u8>) -> Result<ConnectView, Error> {
    match parse_bytes_field(b, 0) {
        Err(e) => Err(e),
        Ok((name, i1)) => if i1 + 4 > b.len() {
            Err(Error::InvalidLength)
        } else {
            let level = b[i1] as int;
            if !((name == crate::encode::protocol_name(Protocol::MQTT311) && level == 4) || (name
                == crate::encode::protocol_name(Protocol::MQIsdp) && level == 3)) {
                Err(Error::InvalidProtocol)
            } else {
                let protocol = if level == 4 {
                    Protocol::MQTT311
                } else {
                    Protocol::MQIsdp
                };
                let flags = b[i1 + 1] as int;
                let keep_alive = b[i1 + 2] as int * 256 + b[i1 + 3] as int;
                if flags % 2 == 1 {
                    Err(Error::InvalidHeader)
                } else if (flags / 4) % 2 == 1 && (flags / 8) % 4 == 3 {
                    Err(Error::InvalidQos(3))
                } else {
                    match parse_str_field(b, i1 + 4) {
                        Err(e) => Err(e),
                        Ok((cid, i2)) => match parse_will(
                            b,
                            i2,
                            (flags / 4) % 2 == 1,
                            (flags / 8) % 4,
                            (flags / 32) % 2 == 1,
                        ) {
                            Err(e) => Err(e),
                            Ok((lw, i3)) => match parse_opt_str(b, i3, (flags / 128) % 2 == 1) {
                                Err(e) => Err(e),
                                Ok((un, i4)) => match parse_opt_bytes(
                                    b,
                                    i4,
                                    (flags / 64) % 2 == 1,
                                ) {
                                    Err(e) => Err(e),
                                    Ok((pw, i5)) => if i5 != b.len() {
                                        Err(Error::InvalidLength)
                                    } else {
                                        Ok(
                                            ConnectView {
                                                protocol,
                                                keep_alive: keep_alive as u16,
                                                client_id: cid,
                                                clean_session: (flags / 2) % 2 == 1,
                                                last_will: lw,
                                                username: un,
                                                password: pw,
                                            },
                                        )
                                    },
                                },
                            },
                        },
                    }
                }
            }
        },
    }
}

/// Parses a CONNACK body: exactly two bytes, the session-present bit and a
/// return code at most 5.
pub open spec fn parse_connack(b: Seq<u8>) -> Result<Connack, Error> {
    if b.len() != 2 {
        Err(Error::InvalidLength)
    } else if b[1] > 5 {
        Err(Error::InvalidConnectReturnCode(b[1]))
    } else {
        Ok(Connack { session_present: b[0] as int % 2 == 1, code: return_code_of(b[1] as int) })
    }
}

/// Parses a PUBLISH body under the fixed-header flags: topic, an identifier
/// when the level needs one, and the rest of the body as payload.
pub open spec fn parse_publish(flags: int, b: Seq<u8>) -> Result<PublishView, Error> {
    let qv = (flags / 2) % 4;
    if qv == 3 {
        Err(Error::InvalidQos(3))
    } else {
        match parse_str_field(b, 0) {
            Err(e) => Err(e),
            Ok((topic, i1)) => if qv == 0 {
                Ok(
                    PublishView {
                        dup: flags >= 8,
                        qospid: QosPid::AtMostOnce,
                        retain: flags % 2 == 1,
                        topic_name: topic,
                        payload: b.subrange(i1, b.len() as int),
                    },
                )
            } else {
                match parse_u16(b, i1) {
                    None => Err(Error::InvalidLength),
                    Some(pv) => if pv == 0 {
                        Err(Error::InvalidPid(0))
                    } else {
                        Ok(
                            PublishView {
                                dup: flags >= 8,
                                qospid: if qv == 1 {
                                    QosPid::AtLeastOnce(Pid::spec_from(pv as u16))
                                } else {
                                    QosPid::ExactlyOnce(Pid::spec_from(pv as u16))
                                },
                                retain: flags % 2 == 1,
                                topic_name: topic,
                                payload: b.subrange(i1 + 2, b.len() as int),
                            },
                        )
                    },
                }
            },
        }
    }
}

/// Parses a body that is exactly one nonzero packet identifier.
pub open spec fn parse_pid_only(b: Seq<u8>) -> Result<Pid, Error> {
    if b.len() != 2 {
        Err(Error::InvalidLength)
    } else {
        let v = b[0] as int * 256 + b[1] as int;
        if v == 0 {
            Err(Error::InvalidPid(0))
        } else {
            Ok(Pid::spec_from(v as u16))
        }
    }
}

/// Parses SUBSCRIBE entries from position `i` to the end of the body.
pub open spec fn parse_sub_topics(b: Seq<u8>, i: int) -> Result<Seq<SubscribeTopicView>, Error>
    decreases b.len() - i,
{
    if i == b.len() {
        Ok(Seq::empty())
    } else {
        match parse_str_field(b, i) {
            Err(e) => Err(e),
            Ok((path, j)) => if j + 1 > b.len() {
                Err(Error::InvalidLength)
            } else if b[j] > 2 {
                Err(Error::InvalidQos(b[j]))
            } else {
                match parse_sub_topics(b, j + 1) {
                    Err(e) => Err(e),
                    Ok(rest) => Ok(
                        seq![SubscribeTopicView { topic_path: path, qos: qos_of(b[j] as int) }]
                            + rest,
                    ),
                }
            },
        }
    }
}

/// Parses SUBACK return codes from position `i` to the end of the body.
pub open spec fn parse_suback_codes(b: Seq<u8>, i: int) -> Result<Seq<SubscribeReturnCodes>, Error>
    decreases b.len() - i,
{
    if i >= b.len() {
        Ok(Seq::empty())
    } else {
        let v = b[i];
        if v != 0x80 && v > 2 {
            Err(Error::InvalidQos(v))
        } else {
            match parse_suback_codes(b, i + 1) {
                Err(e) => Err(e),
                Ok(rest) => Ok(
                    seq![
                        if v == 0x80 {
                            SubscribeReturnCodes::Failure
                        } else {
                            SubscribeReturnCodes::Success(qos_of(v as int))
                        },
                    ] + rest,
                ),
            }
        }
    }
}

/// Parses UNSUBSCRIBE filters from position `i` to the end of the body.
pub open spec fn parse_unsub_topics(b: Seq<u8>, i: int) -> Result<Seq<Seq<char>>, Error>
    decreases b.len() - i,
{
    if i == b.len() {
        Ok(Seq::empty())
    } else {
        match parse_str_field(b, i) {
            Err(e) => Err(e),
            Ok((path, j)) => match parse_unsub_topics(b, j) {
                Err(e) => Err(e),
                Ok(rest) => Ok(seq![path] + rest),
            },
        }
    }
}

/// Parses a SUBSCRIBE body: identifier, then at least one entry.
pub open spec fn parse_subscribe(b: Seq<u8>) -> Result<SubscribeView, Error> {
    match parse_u16(b, 0) {
        None => Err(Error::InvalidLength),
        Some(pv) => if pv == 0 {
            Err(Error::InvalidPid(0))
        } else {
            match parse_sub_topics(b, 2) {
                Err(e) => Err(e),
                Ok(ts) => if ts.len() == 0 {
                    Err(Error::InvalidLength)
                } else {
                    Ok(SubscribeView { pid: Pid::spec_from(pv as u16), topics: ts })
                },
            }
        },
    }
}

/// Parses a SUBACK body: identifier, then at least one return code.
pub open spec fn parse_suback(b: Seq<u8>) -> Result<SubackView, Error> {
    match parse_u16(b, 0) {
        None => Err(Error::InvalidLength),
        Some(pv) => if pv == 0 {
            Err(Error::InvalidPid(0))
        } else {
            match parse_suback_codes(b, 2) {
                Err(e) => Err(e),
                Ok(cs) => if cs.len() == 0 {
                    Err(Error::InvalidLength)
                } else {
                    Ok(SubackView { pid: Pid::spec_from(pv as u16), return_codes: cs })
                },
            }
        },
    }
}

/// Parses an UNSUBSCRIBE body: identifier, then at least one filter.
pub open spec fn parse_unsubscribe(b: Seq<u8>) -> Result<UnsubscribeView, Error> {
    match parse_u16(b, 0) {
        None => Err(Error::InvalidLength),
        Some(pv) => if pv == 0 {
            Err(Error::InvalidPid(0))
        } else {
            match parse_unsub_topics(b, 2) {
                Err(e) => Err(e),
                Ok(ts) => if ts.len() == 0 {
                    Err(Error::InvalidLength)
                } else {
                    Ok(UnsubscribeView { pid: Pid::spec_from(pv as u16), topics: ts })
                },
            }
        },
    }
}

/// Parses a packet body under its first fixed-header byte: the packet type
/// picks the body parser, and the flag bits must be what the type demands.
pub open spec fn parse_body(byte0: u8, b: Seq<u8>) -> Result<PacketView, Error> {
    let t = byte0 / 16;
    let flags = (byte0 % 16) as int;
    if t == 1 {
        if flags != 0 {
            Err(Error::InvalidHeader)
        } else {
            match parse_connect(b) {
                Err(e) => Err(e),
                Ok(c) => Ok(PacketView::Connect(c)),
            }
        }
    } else if t == 2 {
        if flags != 0 {
            Err(Error::InvalidHeader)
        } else {
            match parse_connack(b) {
                Err(e) => Err(e),
                Ok(c) => Ok(PacketView::Connack(c)),
            }
        }
    } else if t == 3 {
        match parse_publish(flags, b) {
            Err(e) => Err(e),
            Ok(p) => Ok(PacketView::Publish(p)),
        }
    } else if t == 4 {
        if flags != 0 {
            Err(Error::InvalidHeader)
        } else {
            match parse_pid_only(b) {
                Err(e) => Err(e),
                Ok(p) => Ok(PacketView::Puback(p)),
            }
        }
    } else if t == 5 {
        if flags != 0 {
            Err(Error::InvalidHeader)
        } else {
            match parse_pid_only(b) {
                Err(e) => Err(e),
                Ok(p) => Ok(PacketView::Pubrec(p)),
            }
        }
    } else if t == 6 {
        if flags != 2 {
            Err(Error::InvalidHeader)
        } else {
            match parse_pid_only(b) {
                Err(e) => Err(e),
                Ok(p) => Ok(PacketView::Pubrel(p)),
            }
        }
    } else if t == 7 {
        if flags != 0 {
            Err(Error::InvalidHeader)
        } else {
            match parse_pid_only(b) {
                Err(e) => Err(e),
                Ok(p) => Ok(PacketView::Pubcomp(p)),
            }
        }
    } else if t == 8 {
        if flags != 2 {
            Err(Error::InvalidHeader)
        } else {
            match parse_subscribe(b) {
                Err(e) => Err(e),
                Ok(s) => Ok(PacketView::Subscribe(s)),
            }
        }
    } else if t == 9 {
        if flags != 0 {
            Err(Error::InvalidHeader)
        } else {
            match parse_suback(b) {
                Err(e) => Err(e),
                Ok(s) => Ok(PacketView::Suback(s)),
            }
        }
    } else if t == 10 {
        if flags != 2 {
            Err(Error::InvalidHeader)
        } else {
            match parse_unsubscribe(b) {
                Err(e) => Err(e),
                Ok(u) => Ok(PacketView::Unsubscribe(u)),
            }
        }
    } else if t == 11 {
        if flags != 0 {
            Err(Error::InvalidHeader)
        } else {
            match parse_pid_only(b) {
                Err(e) => Err(e),
                Ok(p) => Ok(PacketView::Unsuback(p)),
            }
        }
    } else if t == 12 {
        if flags != 0 {
            Err(Error::InvalidHeader)
        } else if b.len() != 0 {
            Err(Error::InvalidLength)
        } else {
            Ok(PacketView::Pingreq)
        }
    } else if t == 13 {
        if flags != 0 {
            Err(Error::InvalidHeader)
        } else if b.len() != 0 {
            Err(Error::InvalidLength)
        } else {
            Ok(PacketView::Pingresp)
        }
    } else if t == 14 {
        if flags != 0 {
            Err(Error::InvalidHeader)
        } else if b.len() != 0 {
            Err(Error::InvalidLength)
        } else {
            Ok(PacketView::Disconnect)
        }
    } else {
        Err(Error::InvalidHeader)
    }
}

/// The exact parse of a buffer: `Ok(None)` while the fixed header or the
/// body is still incomplete; otherwise the body parse of the first packet
/// and the count of bytes it spans.
pub open spec fn decode_spec(b: Seq<u8>) -> Result<Option<(PacketView, int)>, Error> {
    match parse_header(b) {
        Err(e) => Err(e),
        Ok(None) => Ok(None),
        Ok(Some((rl, hlen))) => if b.len() < hlen + rl {
            Ok(None)
        } else {
            match parse_body(b[0], b.subrange(hlen, hlen + rl)) {
                Err(e) => Err(e),
                Ok(p) => Ok(Some((p, hlen + rl))),
            }
        },
    }
}

/// Relies on `core::str::from_utf8`: it returns `Ok` exactly when the
/// bytes are valid UTF-8, and then the string's characters are the
/// decoding of those bytes.
#[verifier::external_body]
fn utf8_range<'a>(buf: &'a [u8], start: usize, end: usize) -> (r: Option<&'a str>)
    requires
        start <= end && end <= buf@.len(),
    ensures
        r is Some <==> vstd::utf8::valid_utf8(buf@.subrange(start as int, end as int)),
        r matches Some(s) ==> s@ == vstd::utf8::decode_utf8(
            buf@.subrange(start as int, end as int),
        ),
{
    core::str::from_utf8(&buf[start..end]).ok()
}

/// Reads a big-endian 16-bit integer.
fn read_u16(b: &[u8], i: usize) -> (r: u16)
    requires
        i + 2 <= b@.len(),
    ensures
        parse_u16(b@, i as int) == Some(r as int),
{
    (b[i] as u16) * 256 + (b[i + 1] as u16)
}

/// Reads a length-prefixed byte field.
fn read_bytes(b: &[u8], i: usize) -> (r: Result<(Vec<u8>, usize), Error>)
    requires
        i <= b@.len(),
    ensures
        match parse_bytes_field(b@, i as int) {
            Ok(p) => r matches Ok(q) && q.0@ == p.0 && q.1 as int == p.1,
            Err(e) => r == Err::<(Vec<u8>, usize), Error>(e),
        },
{
    if b.len() - i < 2 {
        return Err(Error::InvalidLength);
    }
    let l = read_u16(b, i) as usize;
    if b.len() - (i + 2) < l {
        return Err(Error::InvalidLength);
    }
    let v = vstd::slice::slice_to_vec(vstd::slice::slice_subrange(b, i + 2, i + 2 + l));
    Ok((v, i + 2 + l))
}

/// Reads a length-prefixed string field, validating UTF-8.
fn read_str(b: &[u8], i: usize) -> (r: Result<(String, usize), Error>)
    requires
        i <= b@.len(),
    ensures
        match parse_str_field(b@, i as int) {
            Ok(p) => r matches Ok(q) && q.0@ == p.0 && q.1 as int == p.1,
            Err(e) => r == Err::<(String, usize), Error>(e),
        },
{
    if b.len() - i < 2 {
        return Err(Error::InvalidLength);
    }
    let l = read_u16(b, i) as usize;
    if b.len() - (i + 2) < l {
        return Err(Error::InvalidLength);
    }
    match utf8_range(b, i + 2, i + 2 + l) {
        None => Err(Error::InvalidString),
        Some(s) => Ok((s.to_owned(), i + 2 + l)),
    }
}

/// The level of a wire value known to be at most 2.
fn qos_exec(v: u8) -> (r: QoS)
    requires
        v <= 2,
    ensures
        r == qos_of(v as int),
{
    match v {
        0 => QoS::AtMostOnce,
        1 => QoS::AtLeastOnce,
        _ => QoS::ExactlyOnce,
    }
}

/// Parses a CONNECT body.
fn body_connect_exec(b: &[u8]) -> (r: Result<Connect, Error>)
    ensures
        match parse_connect(b@) {
            Ok(c) => r matches Ok(x) && x@ == c,
            Err(e) => r == Err::<Connect, Error>(e),
        },
{
    let (name, i1) = match read_bytes(b, 0) {
        Ok(p) => p,
        Err(e) => {
            return Err(e);
        },
    };
    if b.len() - i1 < 4 {
        return Err(Error::InvalidLength);
    }
    let level = b[i1];
    let is_mqtt = level == 4 && name.len() == 4 && name[0] == 77 && name[1] == 81 && name[2] == 84
        && name[3] == 84;
    let is_mqisdp = level == 3 && name.len() == 6 && name[0] == 77 && name[1] == 81 && name[2]
        == 73 && name[3] == 115 && name[4] == 100 && name[5] == 112;
    proof {
        if name@.len() == 4 && name@[0] == 77 && name@[1] == 81 && name@[2] == 84 && name@[3]
            == 84 {
            assert(name@ =~= crate::encode::protocol_name(Protocol::MQTT311));
        }
        if name@.len() == 6 && name@[0] == 77 && name@[1] == 81 && name@[2] == 73 && name@[3]
            == 115 && name@[4] == 100 && name@[5] == 112 {
            assert(name@ =~= crate::encode::protocol_name(Protocol::MQIsdp));
        }
    }
    if !(is_mqtt || is_mqisdp) {
        return Err(Error::InvalidProtocol);
    }
    let protocol = if level == 4 {
        Protocol::MQTT311
    } else {
        Protocol::MQIsdp
    };
    let flags = b[i1 + 1];
    let keep_alive = read_u16(b, i1 + 2);
    if flags % 2 == 1 {
        return Err(Error::InvalidHeader);
    }
    let will_flag = (flags / 4) % 2 == 1;
    let will_qos = (flags / 8) % 4;
    if will_flag && will_qos == 3 {
        return Err(Error::InvalidQos(3));
    }
    let (client_id, i2) = match read_str(b, i1 + 4) {
        Ok(p) => p,
        Err(e) => {
            return Err(e);
        },
    };
    let (last_will, i3): (Option<LastWill>, usize) = if will_flag {
        let (wtopic, ja) = match read_str(b, i2) {
            Ok(p) => p,
            Err(e) => {
                return Err(e);
            },
        };
        let (wmsg, jb) = match read_bytes(b, ja) {
            Ok(p) => p,
            Err(e) => {
                return Err(e);
            },
        };
        (
            Some(
                LastWill {
                    topic: wtopic,
                    message: wmsg,
                    qos: qos_exec(will_qos),
                    retain: (flags / 32) % 2 == 1,
                },
            ),
            jb,
        )
    } else {
        (None, i2)
    };
    let (username, i4): (Option<String>, usize) = if (flags / 128) % 2 == 1 {
        let (un, jc) = match read_str(b, i3) {
            Ok(p) => p,
            Err(e) => {
                return Err(e);
            },
        };
        (Some(un), jc)
    } else {
        (None, i3)
    };
    let (password, i5): (Option<Vec<u8>>, usize) = if (flags / 64) % 2 == 1 {
        let (pw, jd) = match read_bytes(b, i4) {
            Ok(p) => p,
            Err(e) => {
                return Err(e);
            },
        };
        (Some(pw), jd)
    } else {
        (None, i4)
    };
    if i5 != b.len() {
        return Err(Error::InvalidLength);
    }
    Ok(
        Connect {
            protocol,
            keep_alive,
            client_id,
            clean_session: (flags / 2) % 2 == 1,
            last_will,
            username,
            password,
        },
    )
}

/// Parses a CONNACK body.
fn body_connack_exec(b: &[u8]) -> (r: Result<Connack, Error>)
    ensures
        match parse_connack(b@) {
            Ok(c) => r matches Ok(x) && x == c,
            Err(e) => r == Err::<Connack, Error>(e),
        },
{
    if b.len() != 2 {
        return Err(Error::InvalidLength);
    }
    let code = match ConnectReturnCode::from_u8(b[1]) {
        Some(c) => c,
        None => {
            return Err(Error::InvalidConnectReturnCode(b[1]));
        },
    };
    Ok(Connack { session_present: b[0] % 2 == 1, code })
}

/// Parses a PUBLISH body under the fixed-header flags.
fn body_publish_exec(flags: u8, b: &[u8]) -> (r: Result<Publish, Error>)
    requires
        flags < 16,
    ensures
        match parse_publish(flags as int, b@) {
            Ok(p) => r matches Ok(x) && x@ == p,
            Err(e) => r == Err::<Publish, Error>(e),
        },
{
    let qv = (flags / 2) % 4;
    if qv == 3 {
        return Err(Error::InvalidQos(3));
    }
    let (topic_name, i1) = match read_str(b, 0) {
        Ok(p) => p,
        Err(e) => {
            return Err(e);
        },
    };
    let dup = flags >= 8;
    let retain = flags % 2 == 1;
    if qv == 0 {
        let payload = vstd::slice::slice_to_vec(vstd::slice::slice_subrange(b, i1, b.len()));
        return Ok(Publish { dup, qospid: QosPid::AtMostOnce, retain, topic_name, payload });
    }
    if b.len() - i1 < 2 {
        return Err(Error::InvalidLength);
    }
    let pv = read_u16(b, i1);
    let pid = match Pid::try_from(pv) {
        Ok(p) => p,
        Err(e) => {
            return Err(e);
        },
    };
    let qospid = if qv == 1 {
        QosPid::AtLeastOnce(pid)
    } else {
        QosPid::ExactlyOnce(pid)
    };
    let payload = vstd::slice::slice_to_vec(vstd::slice::slice_subrange(b, i1 + 2, b.len()));
    Ok(Publish { dup, qospid, retain, topic_name, payload })
}

/// Parses a body that is exactly one nonzero identifier.
fn body_pid_exec(b: &[u8]) -> (r: Result<Pid, Error>)
    ensures
        match parse_pid_only(b@) {
            Ok(p) => r matches Ok(x) && x == p,
            Err(e) => r == Err::<Pid, Error>(e),
        },
{
    if b.len() != 2 {
        return Err(Error::InvalidLength);
    }
    Pid::try_from(read_u16(b, 0))
}

/// Parses a SUBSCRIBE body.
fn body_subscribe_exec(b: &[u8]) -> (r: Result<Subscribe, Error>)
    ensures
        match parse_subscribe(b@) {
            Ok(s) => r matches Ok(x) && x@ == s,
            Err(e) => r == Err::<Subscribe, Error>(e),
        },
{
    if b.len() < 2 {
        return Err(Error::InvalidLength);
    }
    let pv = read_u16(b, 0);
    let pid = match Pid::try_from(pv) {
        Ok(p) => p,
        Err(e) => {
            return Err(e);
        },
    };
    let mut topics: Vec<SubscribeTopic> = Vec::new();
    let mut i: usize = 2;
    proof {
        assert(topics@.map_values(|t: SubscribeTopic| t@) =~= Seq::<SubscribeTopicView>::empty());
    }
    while i < b.len()
        invariant
            2 <= i <= b@.len(),
            parse_u16(b@, 0) == Some(pv as int),
            pv != 0,
            pid == Pid::spec_from(pv),
            parse_sub_topics(b@, 2) == (match parse_sub_topics(b@, i as int) {
                Ok(rest) => Ok(topics@.map_values(|t: SubscribeTopic| t@) + rest),
                Err(e) => Err::<Seq<SubscribeTopicView>, Error>(e),
            }),
        decreases b@.len() - i,
    {
        let ghost prev = topics@.map_values(|t: SubscribeTopic| t@);
        let (path, j) = match read_str(b, i) {
            Ok(p) => p,
            Err(e) => {
                return Err(e);
            },
        };
        if j >= b.len() {
            return Err(Error::InvalidLength);
        }
        let q = b[j];
        if q > 2 {
            return Err(Error::InvalidQos(q));
        }
        topics.push(SubscribeTopic { topic_path: path, qos: qos_exec(q) });
        i = j + 1;
        proof {
            let item = topics@[topics@.len() - 1]@;
            assert(topics@.map_values(|t: SubscribeTopic| t@) =~= prev + seq![item]);
            match parse_sub_topics(b@, i as int) {
                Ok(rest) => {
                    assert(prev + (seq![item] + rest) =~= (prev + seq![item]) + rest);
                },
                Err(_) => {},
            }
        }
    }
    if topics.len() == 0 {
        return Err(Error::InvalidLength);
    }
    proof {
        assert(parse_sub_topics(b@, i as int) == Ok::<Seq<SubscribeTopicView>, Error>(
            Seq::empty(),
        ));
        assert(topics@.map_values(|t: SubscribeTopic| t@) + Seq::<SubscribeTopicView>::empty()
            =~= topics@.map_values(|t: SubscribeTopic| t@));
    }
    Ok(Subscribe { pid, topics })
}

/// Parses a SUBACK body.
fn body_suback_exec(b: &[u8]) -> (r: Result<Suback, Error>)
    ensures
        match parse_suback(b@) {
            Ok(s) => r matches Ok(x) && x@ == s,
            Err(e) => r == Err::<Suback, Error>(e),
        },
{
    if b.len() < 2 {
        return Err(Error::InvalidLength);
    }
    let pv = read_u16(b, 0);
    let pid = match Pid::try_from(pv) {
        Ok(p) => p,
        Err(e) => {
            return Err(e);
        },
    };
    let mut return_codes: Vec<SubscribeReturnCodes> = Vec::new();
    let mut i: usize = 2;
    proof {
        assert(return_codes@ + Seq::<SubscribeReturnCodes>::empty() =~= return_codes@);
    }
    while i < b.len()
        invariant
            2 <= i <= b@.len(),
            parse_u16(b@, 0) == Some(pv as int),
            pv != 0,
            pid == Pid::spec_from(pv),
            parse_suback_codes(b@, 2) == (match parse_suback_codes(b@, i as int) {
                Ok(rest) => Ok(return_codes@ + rest),
                Err(e) => Err::<Seq<SubscribeReturnCodes>, Error>(e),
            }),
        decreases b@.len() - i,
    {
        let ghost prev = return_codes@;
        let v = b[i];
        if v != 0x80 && v > 2 {
            return Err(Error::InvalidQos(v));
        }
        let code = if v == 0x80 {
            SubscribeReturnCodes::Failure
        } else {
            SubscribeReturnCodes::Success(qos_exec(v))
        };
        return_codes.push(code);
        i = i + 1;
        proof {
            let item = return_codes@[return_codes@.len() - 1];
            match parse_suback_codes(b@, i as int) {
                Ok(rest) => {
                    assert(prev + (seq![item] + rest) =~= return_codes@ + rest);
                },
                Err(_) => {},
            }
        }
    }
    if return_codes.len() == 0 {
        return Err(Error::InvalidLength);
    }
    proof {
        assert(return_codes@ + Seq::<SubscribeReturnCodes>::empty() =~= return_codes@);
    }
    Ok(Suback { pid, return_codes })
}

/// Parses an UNSUBSCRIBE body.
fn body_unsubscribe_exec(b: &[u8]) -> (r: Result<Unsubscribe, Error>)
    ensures
        match parse_unsubscribe(b@) {
            Ok(u) => r matches Ok(x) && x@ == u,
            Err(e) => r == Err::<Unsubscribe, Error>(e),
        },
{
    if b.len() < 2 {
        return Err(Error::InvalidLength);
    }
    let pv = read_u16(b, 0);
    let pid = match Pid::try_from(pv) {
        Ok(p) => p,
        Err(e) => {
            return Err(e);
        },
    };
    let mut topics: Vec<String> = Vec::new();
    let mut i: usize = 2;
    proof {
        assert(topics@.map_values(|t: String| t@) =~= Seq::<Seq<char>>::empty());
    }
    while i < b.len()
        invariant
            2 <= i <= b@.len(),
            parse_u16(b@, 0) == Some(pv as int),
            pv != 0,
            pid == Pid::spec_from(pv),
            parse_unsub_topics(b@, 2) == (match parse_unsub_topics(b@, i as int) {
                Ok(rest) => Ok(topics@.map_values(|t: String| t@) + rest),
                Err(e) => Err::<Seq<Seq<char>>, Error>(e),
            }),
        decreases b@.len() - i,
    {
        let ghost prev = topics@.map_values(|t: String| t@);
        let (path, j) = match read_str(b, i) {
            Ok(p) => p,
            Err(e) => {
                return Err(e);
            },
        };
        topics.push(path);
        i = j;
        proof {
            let item = topics@[topics@.len() - 1]@;
            assert(topics@.map_values(|t: String| t@) =~= prev + seq![item]);
            match parse_unsub_topics(b@, i as int) {
                Ok(rest) => {
                    assert(prev + (seq![item] + rest) =~= (prev + seq![item]) + rest);
                },
                Err(_) => {},
            }
        }
    }
    if topics.len() == 0 {
        return Err(Error::InvalidLength);
    }
    proof {
        assert(topics@.map_values(|t: String| t@) + Seq::<Seq<char>>::empty() =~= topics@
            .map_values(|t: String| t@));
    }
    Ok(Unsubscribe { pid, topics })
}

/// Parses a packet body under its first fixed-header byte.
fn body_exec(byte0: u8, b: &[u8]) -> (r: Result<Packet, Error>)
    ensures
        match parse_body(byte0, b@) {
            Ok(p) => r matches Ok(x) && x@ == p,
            Err(e) => r == Err::<Packet, Error>(e),
        },
{
    let t = byte0 / 16;
    let flags = byte0 % 16;
    if t == 1 {
        if flags != 0 {
            return Err(Error::InvalidHeader);
        }
        match body_connect_exec(b) {
            Ok(c) => Ok(Packet::Connect(c)),
            Err(e) => Err(e),
        }
    } else if t == 2 {
        if flags != 0 {
            return Err(Error::InvalidHeader);
        }
        match body_connack_exec(b) {
            Ok(c) => Ok(Packet::Connack(c)),
            Err(e) => Err(e),
        }
    } else if t == 3 {
        match body_publish_exec(flags, b) {
            Ok(p) => Ok(Packet::Publish(p)),
            Err(e) => Err(e),
        }
    } else if t == 4 {
        if flags != 0 {
            return Err(Error::InvalidHeader);
        }
        match body_pid_exec(b) {
            Ok(p) => Ok(Packet::Puback(p)),
            Err(e) => Err(e),
        }
    } else if t == 5 {
        if flags != 0 {
            return Err(Error::InvalidHeader);
        }
        match body_pid_exec(b) {
            Ok(p) => Ok(Packet::Pubrec(p)),
            Err(e) => Err(e),
        }
    } else if t == 6 {
        if flags != 2 {
            return Err(Error::InvalidHeader);
        }
        match body_pid_exec(b) {
            Ok(p) => Ok(Packet::Pubrel(p)),
            Err(e) => Err(e),
        }
    } else if t == 7 {
        if flags != 0 {
            return Err(Error::InvalidHeader);
        }
        match body_pid_exec(b) {
            Ok(p) => Ok(Packet::Pubcomp(p)),
            Err(e) => Err(e),
        }
    } else if t == 8 {
        if flags != 2 {
            return Err(Error::InvalidHeader);
        }
        match body_subscribe_exec(b) {
            Ok(s) => Ok(Packet::Subscribe(s)),
            Err(e) => Err(e),
        }
    } else if t == 9 {
        if flags != 0 {
            return Err(Error::InvalidHeader);
        }
        match body_suback_exec(b) {
            Ok(s) => Ok(Packet::Suback(s)),
            Err(e) => Err(e),
        }
    } else if t == 10 {
        if flags != 2 {
            return Err(Error::InvalidHeader);
        }
        match body_unsubscribe_exec(b) {
            Ok(u) => Ok(Packet::Unsubscribe(u)),
            Err(e) => Err(e),
        }
    } else if t == 11 {
        if flags != 0 {
            return Err(Error::InvalidHeader);
        }
        match body_pid_exec(b) {
            Ok(p) => Ok(Packet::Unsuback(p)),
            Err(e) => Err(e),
        }
    } else if t == 12 {
        if flags != 0 {
            Err(Error::InvalidHeader)
        } else if b.len() != 0 {
            Err(Error::InvalidLength)
        } else {
            Ok(Packet::Pingreq)
        }
    } else if t == 13 {
        if flags != 0 {
            Err(Error::InvalidHeader)
        } else if b.len() != 0 {
            Err(Error::InvalidLength)
        } else {
            Ok(Packet::Pingresp)
        }
    } else if t == 14 {
        if flags != 0 {
            Err(Error::InvalidHeader)
        } else if b.len() != 0 {
            Err(Error::InvalidLength)
        } else {
            Ok(Packet::Disconnect)
        }
    } else {
        Err(Error::InvalidHeader)
    }
}

/// Reads the remaining-length field that follows the first fixed-header
/// byte of `buf`, giving the value and the length of the fixed header.
/// `Ok(None)` means the header is still incomplete; a fifth length byte
/// with a continuation bit fails with `InvalidHeader`. The result is
/// exactly `parse_header` of the buffer.
pub fn decode_remaining_length(buf: &[u8]) -> (r: Result<Option<(u32, usize)>, Error>)
    ensures
        match parse_header(buf@) {
            Ok(None) => r == Ok::<Option<(u32, usize)>, Error>(None),
            Ok(Some(p)) => (r matches Ok(Some(q)) && q.0 as int == p.0 && q.1 as int == p.1),
            Err(e) => r == Err::<Option<(u32, usize)>, Error>(e),
        },
{
    if buf.len() < 2 {
        return Ok(None);
    }
    let b1 = buf[1];
    if b1 < 128 {
        return Ok(Some((b1 as u32, 2)));
    }
    if buf.len() < 3 {
        return Ok(None);
    }
    let b2 = buf[2];
    if b2 < 128 {
        return Ok(Some(((b1 - 128) as u32 + 128 * b2 as u32, 3)));
    }
    if buf.len() < 4 {
        return Ok(None);
    }
    let b3 = buf[3];
    if b3 < 128 {
        return Ok(
            Some(((b1 - 128) as u32 + 128 * (b2 - 128) as u32 + 16384 * b3 as u32, 4)),
        );
    }
    if buf.len() < 5 {
        return Ok(None);
    }
    let b4 = buf[4];
    if b4 < 128 {
        return Ok(
            Some(
                (
                    (b1 - 128) as u32 + 128 * (b2 - 128) as u32 + 16384 * (b3 - 128) as u32
                        + 2097152 * b4 as u32,
                    5,
                ),
            ),
        );
    }
    Err(Error::InvalidHeader)
}

/// Decodes the first packet of a buffer. Returns `Ok(None)` exactly while
/// the buffer does not yet hold a whole packet, and otherwise the packet
/// together with the count of bytes it spans; trailing bytes are never
/// looked at. The result is exactly `decode_spec` of the buffer.
pub fn decode(buf: &[u8]) -> (r: Result<Option<(Packet, usize)>, Error>)
    ensures
        match decode_spec(buf@) {
            Ok(None) => r == Ok::<Option<(Packet, usize)>, Error>(None),
            Ok(Some(p)) => (r matches Ok(Some(q)) && q.0@ == p.0 && q.1 as int == p.1),
            Err(e) => r == Err::<Option<(Packet, usize)>, Error>(e),
        },
{
    let (rl, hlen): (u32, usize) = match decode_remaining_length(buf) {
        Ok(Some(p)) => p,
        Ok(None) => {
            return Ok(None);
        },
        Err(e) => {
            return Err(e);
        },
    };
    let rl = rl as usize;
    if buf.len() - hlen < rl {
        return Ok(None);
    }
    let body = vstd::slice::slice_subrange(buf, hlen, hlen + rl);
    match body_exec(buf[0], body) {
        Ok(p) => Ok(Some((p, hlen + rl))),
        Err(e) => Err(e),
    }
}

} // verus!
