//! Core wire-level value types: codec errors, packet identifiers and
//! quality-of-service levels.

use vstd::prelude::*;

verus! {

/// Errors returned by the wire codec.
#[derive(Debug, Clone, PartialEq, Eq, Structural)]
pub enum Error {
    /// Not enough space in the write buffer.
    WriteZero,
    /// A packet identifier of zero was encoded or decoded.
    InvalidPid(u16),
    /// A quality-of-service level above 2 on the wire.
    InvalidQos(u8),
    /// A CONNACK return code above 5.
    InvalidConnectReturnCode(u8),
    /// An unknown protocol name or level in CONNECT.
    InvalidProtocol,
    /// An invalid fixed header: packet type, flags, or remaining length.
    InvalidHeader,
    /// An invalid or corrupt length field inside a packet.
    InvalidLength,
    /// A string field that is not valid UTF-8.
    InvalidString,
}

/// Packet-identifier arithmetic: adding `k` moves `p` forward on the cycle
/// `1, 2, ..., 65535, 1, ...`, which wraps around and skips zero.
pub open spec fn pid_add(p: int, k: int) -> int {
    if p + k <= 0xFFFF {
        p + k
    } else {
        p + k - 0xFFFF
    }
}

/// Packet-identifier arithmetic: subtracting `k` moves `p` backward on the
/// cycle `1, 2, ..., 65535, 1, ...`, which wraps around and skips zero.
pub open spec fn pid_sub(p: int, k: int) -> int {
    if p - k >= 1 {
        p - k
    } else {
        p - k + 0xFFFF
    }
}

/// Adding and then subtracting the same distance returns the original
/// identifier: for every identifier `p` in `[1, 65535]` and every `k` in
/// `[0, 65535]`, `pid_sub(pid_add(p, k), k) == p`.
pub proof fn lemma_pid_add_sub(p: int, k: int)
    requires
        1 <= p <= 0xFFFF,
        0 <= k <= 0xFFFF,
    ensures
        pid_sub(pid_add(p, k), k) == p,
        pid_add(pid_sub(p, k), k) == p,
{
}

/// The forward step agrees with the closed form `((p + k - 1) mod 65535) + 1`.
pub proof fn lemma_pid_add_closed_form(p: int, k: int)
    requires
        1 <= p <= 0xFFFF,
        0 <= k <= 0xFFFF,
    ensures
        pid_add(p, k) == (p + k - 1) % 0xFFFF + 1,
{
    if p + k <= 0xFFFF {
        vstd::arithmetic::div_mod::lemma_small_mod((p + k - 1) as nat, 0xFFFF);
    } else {
        vstd::arithmetic::div_mod::lemma_mod_sub_multiples_vanish(p + k - 1, 0xFFFF);
        vstd::arithmetic::div_mod::lemma_small_mod((p + k - 1 - 0xFFFF) as nat, 0xFFFF);
    }
}

/// The backward step agrees with the closed form `((p - k - 1) mod 65535) + 1`.
pub proof fn lemma_pid_sub_closed_form(p: int, k: int)
    requires
        1 <= p <= 0xFFFF,
        0 <= k <= 0xFFFF,
    ensures
        pid_sub(p, k) == (p - k - 1) % 0xFFFF + 1,
{
    if p - k >= 1 {
        vstd::arithmetic::div_mod::lemma_small_mod((p - k - 1) as nat, 0xFFFF);
    } else {
        vstd::arithmetic::div_mod::lemma_mod_sub_multiples_vanish(p - k - 1 + 0xFFFF, 0xFFFF);
        vstd::arithmetic::div_mod::lemma_small_mod((p - k - 1 + 0xFFFF) as nat, 0xFFFF);
    }
}

/// A packet identifier is determined by its numeric value.
pub proof fn lemma_pid_view_roundtrip(p: Pid)
    ensures
        Pid::spec_from(p.spec_get()) == p,
{
}

/// Packet identifier: a 16-bit value in `[1, 65535]`. The MQTT specification
/// forbids a packet identifier of zero, and this type cannot hold one.
#[derive(Debug, Clone, Copy, PartialEq, Eq, Structural)]
pub struct Pid {
    value: u16,
}

impl Pid {
    /// A packet identifier is never zero.
    #[verifier::type_invariant]
    pub closed spec fn inv(self) -> bool {
        self.value >= 1
    }

    /// The numeric value, for specifications.
    pub closed spec fn spec_get(self) -> u16 {
        self.value
    }

    /// Builds a packet identifier in specifications.
    pub closed spec fn spec_from(v: u16) -> Pid {
        Pid { value: v }
    }

    /// Returns a new `Pid` with value `1`.
    pub fn new() -> (r: Pid)
        ensures
            r.spec_get() == 1,
    {
        Pid { value: 1 }
    }

    /// The `Pid` as a raw `u16`.
    pub fn get(self) -> (r: u16)
        ensures
            r == self.spec_get(),
            1 <= r,
    {
        proof {
            use_type_invariant(self);
        }
        self.value
    }

    /// Converts a raw `u16`; fails with `InvalidPid(0)` exactly on zero.
    pub fn try_from(u: u16) -> (r: Result<Pid, Error>)
        ensures
            u >= 1 ==> r == Ok::<Pid, Error>(Pid::spec_from(u)),
            u == 0 ==> r == Err::<Pid, Error>(Error::InvalidPid(0)),
    {
        if u == 0 {
            Err(Error::InvalidPid(0))
        } else {
            Ok(Pid { value: u })
        }
    }

    /// Reads a big-endian identifier from `buf` at `*offset`, advancing the
    /// offset by two; fails with `InvalidPid(0)` exactly when the two bytes
    /// are both zero.
    pub fn from_buffer(buf: &[u8], offset: &mut usize) -> (r: Result<Pid, Error>)
        requires
            *old(offset) + 2 <= buf@.len(),
        ensures
            *final(offset) == *old(offset) + 2,
            ({
                let v = buf@[*old(offset) as int] as int * 256 + buf@[*old(offset) + 1] as int;
                if v >= 1 {
                    r == Ok::<Pid, Error>(Pid::spec_from(v as u16))
                } else {
                    r == Err::<Pid, Error>(Error::InvalidPid(0))
                }
            }),
    {
        let hi = buf[*offset];
        let lo = buf[*offset + 1];
        *offset += 2;
        Pid::try_from((hi as u16) * 256 + lo as u16)
    }

    /// Appends the identifier to `buf` as two big-endian bytes.
    pub fn to_buffer(self, buf: &mut Vec<u8>) -> (r: Result<(), Error>)
        ensures
            r is Ok,
            final(buf)@ == old(buf)@ + seq![
                (self.spec_get() / 256) as u8,
                (self.spec_get() % 256) as u8,
            ],
    {
        buf.push((self.value / 256) as u8);
        buf.push((self.value % 256) as u8);
        Ok(())
    }

    /// Moves the identifier forward by `u` on the cycle that skips zero.
    pub fn add(self, u: u16) -> (r: Pid)
        ensures
            r.spec_get() == pid_add(self.spec_get() as int, u as int),
    {
        proof {
            use_type_invariant(self);
        }
        let s: u32 = self.value as u32 + u as u32;
        let n: u16 = if s > 0xFFFF {
            (s - 0xFFFF) as u16
        } else {
            s as u16
        };
        Pid { value: n }
    }

    /// Moves the identifier backward by `u` on the cycle that skips zero.
    pub fn sub(self, u: u16) -> (r: Pid)
        ensures
            r.spec_get() == pid_sub(self.spec_get() as int, u as int),
    {
        proof {
            use_type_invariant(self);
        }
        let n: u16 = if self.value > u {
            self.value - u
        } else {
            ((self.value as u32 + 0xFFFF - u as u32)) as u16
        };
        Pid { value: n }
    }
}

impl Default for Pid {
    /// The default packet identifier is `1`.
    fn default() -> (r: Pid)
        ensures
            r.spec_get() == 1,
    {
        Pid::new()
    }
}

/// Packet delivery quality-of-service level.
#[derive(Debug, Clone, Copy, PartialEq, Eq, Structural)]
pub enum QoS {
    /// `QoS 0`: no acknowledgement needed.
    AtMostOnce,
    /// `QoS 1`: one acknowledgement needed.
    AtLeastOnce,
    /// `QoS 2`: two acknowledgements needed.
    ExactlyOnce,
}

/// The wire value of a quality-of-service level.
pub open spec fn qos_value(q: QoS) -> int {
    match q {
        QoS::AtMostOnce => 0,
        QoS::AtLeastOnce => 1,
        QoS::ExactlyOnce => 2,
    }
}

impl QoS {
    /// The wire value of the level.
    pub fn as_u8(&self) -> (r: u8)
        ensures
            r == qos_value(*self),
    {
        match *self {
            QoS::AtMostOnce => 0,
            QoS::AtLeastOnce => 1,
            QoS::ExactlyOnce => 2,
        }
    }

    /// Reads a level from its wire value; fails with `InvalidQos` exactly on
    /// values above 2.
    pub fn from_u8(byte: u8) -> (r: Result<QoS, Error>)
        ensures
            byte == 0 ==> r == Ok::<QoS, Error>(QoS::AtMostOnce),
            byte == 1 ==> r == Ok::<QoS, Error>(QoS::AtLeastOnce),
            byte == 2 ==> r == Ok::<QoS, Error>(QoS::ExactlyOnce),
            byte > 2 ==> r == Err::<QoS, Error>(Error::InvalidQos(byte)),
    {
        match byte {
            0 => Ok(QoS::AtMostOnce),
            1 => Ok(QoS::AtLeastOnce),
            2 => Ok(QoS::ExactlyOnce),
            n => Err(Error::InvalidQos(n)),
        }
    }
}

/// The bare level of a [`QosPid`], for specifications.
pub open spec fn qospid_qos(qp: QosPid) -> QoS {
    match qp {
        QosPid::AtMostOnce => QoS::AtMostOnce,
        QosPid::AtLeastOnce(_) => QoS::AtLeastOnce,
        QosPid::ExactlyOnce(_) => QoS::ExactlyOnce,
    }
}

/// A quality-of-service level together with the packet identifier that the
/// level requires, as carried by PUBLISH packets.
#[derive(Debug, Clone, Copy, PartialEq, Eq, Structural)]
pub enum QosPid {
    AtMostOnce,
    AtLeastOnce(Pid),
    ExactlyOnce(Pid),
}

impl QosPid {
    /// The packet identifier, if the level carries one.
    pub fn pid(self) -> (r: Option<Pid>)
        ensures
            r == match self {
                QosPid::AtMostOnce => None::<Pid>,
                QosPid::AtLeastOnce(p) => Some(p),
                QosPid::ExactlyOnce(p) => Some(p),
            },
    {
        match self {
            QosPid::AtMostOnce => None,
            QosPid::AtLeastOnce(p) => Some(p),
            QosPid::ExactlyOnce(p) => Some(p),
        }
    }

    /// The bare quality-of-service level.
    pub fn qos(self) -> (r: QoS)
        ensures
            r == match self {
                QosPid::AtMostOnce => QoS::AtMostOnce,
                QosPid::AtLeastOnce(_) => QoS::AtLeastOnce,
                QosPid::ExactlyOnce(_) => QoS::ExactlyOnce,
            },
    {
        match self {
            QosPid::AtMostOnce => QoS::AtMostOnce,
            QosPid::AtLeastOnce(_) => QoS::AtLeastOnce,
            QosPid::ExactlyOnce(_) => QoS::ExactlyOnce,
        }
    }
}

} // verus!
