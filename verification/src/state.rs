//! The session state machine: connection lifecycle, QoS 1/2 delivery
//! tracking, and the keep-alive ping discipline.
//!
//! The state is viewed as a map of in-flight publishes and two sets of
//! pending QoS 2 identifiers; every handler's contract gives the exact
//! transition over that view.

use vstd::prelude::*;

use crate::notify::{Notification, PacketKind, PublishNotification, StateError};
use crate::packet::{ConnectReturnCode, Packet};
use crate::requests::{PublishRequest, PublishRequestView, Request, RequestView};
use crate::types::{pid_add, Pid, QoS, QosPid};

verus! {

/// Where the connection stands.
#[derive(Debug, Clone, Copy, PartialEq, Eq, Structural)]
pub enum MqttConnectionStatus {
    Handshake,
    Connected,
    Disconnected,
}

/// The in-flight table as a map from packet identifier to the stored
/// publish, built from an association list.
pub open spec fn pairs_map(s: Seq<(u16, PublishRequest)>) -> Map<u16, PublishRequestView>
    decreases s.len(),
{
    if s.len() == 0 {
        Map::empty()
    } else {
        pairs_map(s.drop_last()).insert(s.last().0, s.last().1@)
    }
}

/// Specification view of the session state.
pub struct StateView {
    /// Connection lifecycle stage.
    pub status: MqttConnectionStatus,
    /// Is a PINGREQ outstanding?
    pub await_pingresp: bool,
    /// Seed of the packet-identifier generator.
    pub last_pid: int,
    /// In-flight QoS 1/2 publishes, by identifier.
    pub pubs: Map<u16, PublishRequestView>,
    /// QoS 2 publishes for which PUBREC arrived, PUBCOMP pending.
    pub rels: Set<u16>,
    /// Inbound QoS 2 identifiers, PUBREL pending.
    pub incs: Set<u16>,
    /// Bound on the in-flight table.
    pub cap: int,
}

/// What every reachable session state satisfies: tracked identifiers are
/// nonzero, the tracked sets are finite, the in-flight table respects its
/// bound, and the generator seed is a valid identifier.
pub open spec fn view_wf(v: StateView) -> bool {
    &&& (forall|k: u16| v.pubs.dom().contains(k) ==> k >= 1)
    &&& (forall|k: u16| v.rels.contains(k) ==> k >= 1)
    &&& (forall|k: u16| v.incs.contains(k) ==> k >= 1)
    &&& v.pubs.dom().finite()
    &&& v.pubs.dom().len() <= v.cap
    &&& 1 <= v.last_pid <= 0xFFFF
}

/// The session state machine.
pub struct MqttState {
    connection_status: MqttConnectionStatus,
    await_pingresp: bool,
    last_pid: Pid,
    outgoing_pub: Vec<(u16, PublishRequest)>,
    outgoing_rel: Vec<u16>,
    incoming_pub: Vec<u16>,
    inflight_cap: usize,
}

impl View for MqttState {
    type V = StateView;

    closed spec fn view(&self) -> StateView {
        StateView {
            status: self.connection_status,
            await_pingresp: self.await_pingresp,
            last_pid: self.last_pid.spec_get() as int,
            pubs: pairs_map(self.outgoing_pub@),
            rels: self.outgoing_rel@.to_set(),
            incs: self.incoming_pub@.to_set(),
            cap: self.inflight_cap as int,
        }
    }
}

/// A key occurs in an association list exactly when the map built from it
/// knows the key.
proof fn lemma_pairs_map_contains(s: Seq<(u16, PublishRequest)>, k: u16)
    ensures
        pairs_map(s).dom().contains(k) <==> exists|i: int|
            0 <= i < s.len() && (#[trigger] s[i]).0 == k,
    decreases s.len(),
{
    if s.len() > 0 {
        lemma_pairs_map_contains(s.drop_last(), k);
        if s.last().0 == k {
            assert(s[s.len() - 1].0 == k);
        } else if pairs_map(s).dom().contains(k) {
            let i = choose|i: int| 0 <= i < s.drop_last().len() && (#[trigger] s.drop_last()[i]).0
                == k;
            assert(s[i].0 == k);
        } else {
            assert forall|i: int| 0 <= i < s.len() && (#[trigger] s[i]).0 == k implies false by {
                if i < s.len() - 1 {
                    assert(s.drop_last()[i].0 == k);
                }
            }
        }
    }
}

/// The map of an association list is finite and no larger than the list.
proof fn lemma_pairs_map_len(s: Seq<(u16, PublishRequest)>)
    ensures
        pairs_map(s).dom().finite(),
        pairs_map(s).dom().len() <= s.len(),
    decreases s.len(),
{
    broadcast use vstd::set_lib::group_set_lib_default;

    if s.len() > 0 {
        lemma_pairs_map_len(s.drop_last());
    }
}

/// Pushing a pair onto the list inserts it into the map.
proof fn lemma_pairs_map_push(s: Seq<(u16, PublishRequest)>, k: u16, v: PublishRequest)
    ensures
        pairs_map(s.push((k, v))) == pairs_map(s).insert(k, v@),
{
    assert(s.push((k, v)).drop_last() =~= s);
}

/// Removing the pair at a position removes its key from the map, provided
/// the keys are unique.
proof fn lemma_pairs_map_remove(s: Seq<(u16, PublishRequest)>, i: int)
    requires
        0 <= i < s.len(),
        forall|a: int, b: int|
            0 <= a < b < s.len() ==> (#[trigger] s[a]).0 != (#[trigger] s[b]).0,
    ensures
        pairs_map(s.remove(i)) == pairs_map(s).remove(s[i].0),
    decreases s.len(),
{
    let k = s[i].0;
    if i == s.len() - 1 {
        assert(s.remove(i) =~= s.drop_last());
        lemma_pairs_map_contains(s.drop_last(), k);
        assert forall|a: int| 0 <= a < s.drop_last().len() implies (#[trigger] s.drop_last()[
            a
        ]).0 != k by {
            assert(s[a].0 == s.drop_last()[a].0);
        }
        assert(!pairs_map(s.drop_last()).dom().contains(k));
        assert(pairs_map(s.drop_last()).insert(k, s[i].1@).remove(k) =~= pairs_map(
            s.drop_last(),
        ));
    } else {
        let s2 = s.drop_last();
        assert(s.remove(i).drop_last() =~= s2.remove(i));
        assert(s.remove(i).last() == s.last());
        lemma_pairs_map_remove(s2, i);
        assert(s2[i] == s[i]);
        assert(s.last().0 != k);
        assert(pairs_map(s2).remove(k).insert(s.last().0, s.last().1@) =~= pairs_map(s2).insert(
            s.last().0,
            s.last().1@,
        ).remove(k));
    }
}

impl MqttState {
    /// Every reachable state keeps unique, nonzero identifiers in its
    /// tables and respects the in-flight bound.
    pub closed spec fn wf(self) -> bool {
        &&& (forall|a: int, b: int|
            0 <= a < b < self.outgoing_pub@.len() ==> (#[trigger] self.outgoing_pub@[a]).0 != (
            #[trigger] self.outgoing_pub@[b]).0)
        &&& (forall|i: int|
            0 <= i < self.outgoing_pub@.len() ==> (#[trigger] self.outgoing_pub@[i]).0 >= 1)
        &&& (forall|a: int, b: int|
            0 <= a < b < self.outgoing_rel@.len() ==> self.outgoing_rel@[a] != self.outgoing_rel@[
                b
            ])
        &&& (forall|i: int| 0 <= i < self.outgoing_rel@.len() ==> self.outgoing_rel@[i] >= 1)
        &&& (forall|a: int, b: int|
            0 <= a < b < self.incoming_pub@.len() ==> self.incoming_pub@[a] != self.incoming_pub@[
                b
            ])
        &&& (forall|i: int| 0 <= i < self.incoming_pub@.len() ==> self.incoming_pub@[i] >= 1)
        &&& self.outgoing_pub@.len() <= self.inflight_cap
        &&& 1 <= self.last_pid.spec_get()
    }

    /// A well-formed state has a well-formed view.
    pub proof fn lemma_wf_view(self)
        requires
            self.wf(),
        ensures
            view_wf(self@),
    {
        broadcast use vstd::seq_lib::group_seq_lib_default;

        lemma_pairs_map_len(self.outgoing_pub@);
        assert forall|k: u16| self@.pubs.dom().contains(k) implies k >= 1 by {
            lemma_pairs_map_contains(self.outgoing_pub@, k);
        }
        assert forall|k: u16| self@.rels.contains(k) implies k >= 1 by {
            assert(self.outgoing_rel@.contains(k));
        }
        assert forall|k: u16| self@.incs.contains(k) implies k >= 1 by {
            assert(self.incoming_pub@.contains(k));
        }
    }

    /// A fresh session: disconnected, nothing in flight, generator at 1.
    pub fn new(inflight_cap: usize) -> (r: MqttState)
        ensures
            r.wf(),
            r@.status == MqttConnectionStatus::Disconnected,
            !r@.await_pingresp,
            r@.last_pid == 1,
            r@.pubs == Map::<u16, PublishRequestView>::empty(),
            r@.rels == Set::<u16>::empty(),
            r@.incs == Set::<u16>::empty(),
            r@.cap == inflight_cap as int,
    {
        let r = MqttState {
            connection_status: MqttConnectionStatus::Disconnected,
            await_pingresp: false,
            last_pid: Pid::new(),
            outgoing_pub: Vec::new(),
            outgoing_rel: Vec::new(),
            incoming_pub: Vec::new(),
            inflight_cap,
        };
        proof {
            assert(r@.rels =~= Set::<u16>::empty());
            assert(r@.incs =~= Set::<u16>::empty());
        }
        r
    }

    /// Connection lifecycle stage.
    pub fn status(&self) -> (r: MqttConnectionStatus)
        ensures
            r == self@.status,
    {
        self.connection_status
    }

    /// Is a PINGREQ outstanding?
    pub fn await_pingresp(&self) -> (r: bool)
        ensures
            r == self@.await_pingresp,
    {
        self.await_pingresp
    }

    /// Number of in-flight QoS 1/2 publishes.
    pub fn inflight_len(&self) -> (r: usize)
        ensures
            r as int == self.spec_inflight_len(),
    {
        self.outgoing_pub.len()
    }

    /// Number of in-flight QoS 1/2 publishes, for specifications.
    pub closed spec fn spec_inflight_len(self) -> int {
        self.outgoing_pub@.len() as int
    }

    /// The in-flight bound this session was built with.
    pub fn inflight_cap(&self) -> (r: usize)
        ensures
            r as int == self@.cap,
    {
        self.inflight_cap
    }

    /// Is room left for one more in-flight publish?
    pub fn has_inflight_room(&self) -> (r: bool)
        ensures
            r == (self.spec_inflight_len() < self@.cap),
    {
        self.outgoing_pub.len() < self.inflight_cap
    }

    /// Starts the handshake: the next CONNECT goes out. With a clean
    /// session the pending QoS 2 sets are dropped; the in-flight table is
    /// kept either way.
    pub fn handle_outgoing_connect(&mut self, clean_session: bool)
        requires
            old(self).wf(),
        ensures
            final(self).wf(),
            final(self)@ == (StateView {
                status: MqttConnectionStatus::Handshake,
                rels: if clean_session {
                    Set::<u16>::empty()
                } else {
                    old(self)@.rels
                },
                incs: if clean_session {
                    Set::<u16>::empty()
                } else {
                    old(self)@.incs
                },
                ..old(self)@
            }),
    {
        self.connection_status = MqttConnectionStatus::Handshake;
        if clean_session {
            self.outgoing_rel.clear();
            self.incoming_pub.clear();
            proof {
                assert(self.outgoing_rel@.to_set() =~= Set::<u16>::empty());
                assert(self.incoming_pub@.to_set() =~= Set::<u16>::empty());
            }
        }
    }

    /// Tears the connection down: status back to disconnected and no ping
    /// outstanding; the tracked tables survive.
    pub fn on_disconnect(&mut self)
        requires
            old(self).wf(),
        ensures
            final(self).wf(),
            final(self)@ == (StateView {
                status: MqttConnectionStatus::Disconnected,
                await_pingresp: false,
                ..old(self)@
            }),
    {
        self.connection_status = MqttConnectionStatus::Disconnected;
        self.await_pingresp = false;
    }

    /// Advances the identifier generator and returns the fresh identifier.
    fn next_pid(&mut self) -> (r: Pid)
        requires
            old(self).wf(),
        ensures
            final(self)@ == (StateView { last_pid: pid_add(old(self)@.last_pid, 1), ..old(self)@ }),
            r.spec_get() as int == pid_add(old(self)@.last_pid, 1),
            final(self).wf(),
            final(self).spec_inflight_len() == old(self).spec_inflight_len(),
    {
        proof {
            use_type_invariant(self.last_pid);
        }
        self.last_pid = self.last_pid.add(1);
        self.last_pid
    }

    /// Index of an identifier in the in-flight table.
    fn find_pub(&self, k: u16) -> (r: Option<usize>)
        ensures
            match r {
                Some(i) => i < self.outgoing_pub@.len() && self.outgoing_pub@[i as int].0 == k,
                None => forall|i: int|
                    0 <= i < self.outgoing_pub@.len() ==> (#[trigger] self.outgoing_pub@[i]).0
                        != k,
            },
            self@.pubs.dom().contains(k) == (r is Some),
    {
        proof {
            lemma_pairs_map_contains(self.outgoing_pub@, k);
        }
        let mut i: usize = 0;
        while i < self.outgoing_pub.len()
            invariant
                i <= self.outgoing_pub@.len(),
                forall|j: int| 0 <= j < i ==> (#[trigger] self.outgoing_pub@[j]).0 != k,
            decreases self.outgoing_pub@.len() - i,
        {
            if self.outgoing_pub[i].0 == k {
                proof {
                    lemma_pairs_map_contains(self.outgoing_pub@, k);
                }
                return Some(i);
            }
            i = i + 1;
        }
        None
    }

    /// Index of an identifier in a plain identifier list.
    fn find_in(v: &Vec<u16>, k: u16) -> (r: Option<usize>)
        ensures
            match r {
                Some(i) => i < v@.len() && v@[i as int] == k,
                None => !v@.to_set().contains(k),
            },
            v@.to_set().contains(k) == (r is Some),
    {
        let mut i: usize = 0;
        while i < v.len()
            invariant
                i <= v@.len(),
                forall|j: int| 0 <= j < i ==> v@[j] != k,
            decreases v@.len() - i,
        {
            if v[i] == k {
                return Some(i);
            }
            i = i + 1;
        }
        proof {
            assert(!v@.contains(k));
        }
        None
    }

    /// Stores a publish under a fresh identifier, replacing any stale
    /// entry with the same identifier.
    fn insert_pub(&mut self, k: u16, req: PublishRequest)
        requires
            old(self).wf(),
            k >= 1,
            old(self).spec_inflight_len() < old(self)@.cap,
        ensures
            final(self).wf(),
            final(self)@ == (StateView { pubs: old(self)@.pubs.insert(k, req@), ..old(self)@ }),
            final(self).spec_inflight_len() <= old(self).spec_inflight_len() + 1,
    {
        let ghost s0 = self.outgoing_pub@;
        match self.find_pub(k) {
            Some(i) => {
                proof {
                    lemma_pairs_map_remove(s0, i as int);
                }
                self.outgoing_pub.remove(i);
                proof {
                    lemma_pairs_map_push(self.outgoing_pub@, k, req);
                    assert(pairs_map(s0).remove(k).insert(k, req@) =~= pairs_map(s0).insert(
                        k,
                        req@,
                    ));
                }
                self.outgoing_pub.push((k, req));
                proof {
                    assert forall|a: int, b: int|
                        0 <= a < b < self.outgoing_pub@.len() implies (
                    #[trigger] self.outgoing_pub@[a]).0 != (#[trigger] self.outgoing_pub@[b]).0 by {
                        if b == self.outgoing_pub@.len() - 1 {
                            assert(self.outgoing_pub@[a] == s0.remove(i as int)[a]);
                        }
                    }
                }
            },
            None => {
                proof {
                    lemma_pairs_map_push(s0, k, req);
                }
                self.outgoing_pub.push((k, req));
                proof {
                    assert forall|a: int, b: int|
                        0 <= a < b < self.outgoing_pub@.len() implies (
                    #[trigger] self.outgoing_pub@[a]).0 != (#[trigger] self.outgoing_pub@[b]).0 by {
                        if b == self.outgoing_pub@.len() - 1 {
                            assert(s0[a].0 != k);
                        }
                    }
                }
            },
        }
    }

    /// Removes an identifier from the in-flight table.
    fn remove_pub(&mut self, i: usize)
        requires
            old(self).wf(),
            i < old(self).spec_inflight_len(),
        ensures
            final(self).wf(),
            final(self)@ == (StateView {
                pubs: old(self)@.pubs.remove(old(self).spec_pub_key(i as int)),
                ..old(self)@
            }),
    {
        proof {
            lemma_pairs_map_remove(self.outgoing_pub@, i as int);
        }
        self.outgoing_pub.remove(i);
    }

    /// The identifier stored at a position of the in-flight table.
    pub closed spec fn spec_pub_key(self, i: int) -> u16 {
        self.outgoing_pub@[i].0
    }

    /// Turns an outbound request into the packet to send, assigning an
    /// identifier and updating the in-flight table as the request's level
    /// demands. A QoS 1/2 publish fails with `MaxInflight`, leaving the
    /// state unchanged, exactly when the in-flight table is full.
    pub fn handle_outgoing_request(&mut self, req: Request) -> (r: Result<Packet, StateError>)
        requires
            old(self).wf(),
        ensures
            final(self).wf(),
            match req@ {
                RequestView::Publish(p) => {
                    if p.qos == QoS::AtMostOnce {
                        &&& final(self)@ == old(self)@
                        &&& (r matches Ok(pk) && pk matches Packet::Publish(pb) && pb@.dup
                            == p.dup && pb@.qospid == QosPid::AtMostOnce && pb@.retain == p.retain
                            && pb@.topic_name == p.topic_name && pb@.payload == p.payload)
                    } else if old(self).spec_inflight_len() >= old(self)@.cap {
                        &&& final(self)@ == old(self)@
                        &&& r == Err::<Packet, StateError>(StateError::MaxInflight)
                    } else {
                        let k = pid_add(old(self)@.last_pid, 1);
                        &&& final(self)@ == (StateView {
                            last_pid: k,
                            pubs: old(self)@.pubs.insert(k as u16, p),
                            ..old(self)@
                        })
                        &&& (r matches Ok(pk) && pk matches Packet::Publish(pb) && !pb@.dup
                            && pb@.qospid == (if p.qos == QoS::AtLeastOnce {
                            QosPid::AtLeastOnce(Pid::spec_from(k as u16))
                        } else {
                            QosPid::ExactlyOnce(Pid::spec_from(k as u16))
                        }) && pb@.retain == p.retain && pb@.topic_name == p.topic_name
                            && pb@.payload == p.payload)
                    }
                },
                RequestView::Subscribe(ts) => {
                    let k = pid_add(old(self)@.last_pid, 1);
                    &&& final(self)@ == (StateView { last_pid: k, ..old(self)@ })
                    &&& (r matches Ok(pk) && pk matches Packet::Subscribe(sb) && sb@.pid
                        == Pid::spec_from(k as u16) && sb@.topics == ts)
                },
                RequestView::Unsubscribe(ts) => {
                    let k = pid_add(old(self)@.last_pid, 1);
                    &&& final(self)@ == (StateView { last_pid: k, ..old(self)@ })
                    &&& (r matches Ok(pk) && pk matches Packet::Unsubscribe(ub) && ub@.pid
                        == Pid::spec_from(k as u16) && ub@.topics == ts)
                },
            },
    {
        match req {
            Request::Publish(p) => {
                if matches!(p.qos, QoS::AtMostOnce) {
                    let pkt = Packet::Publish(crate::packet::Publish {
                        dup: p.dup,
                        qospid: QosPid::AtMostOnce,
                        retain: p.retain,
                        topic_name: p.topic_name,
                        payload: p.payload,
                    });
                    Ok(pkt)
                } else if self.outgoing_pub.len() >= self.inflight_cap {
                    Err(StateError::MaxInflight)
                } else {
                    let pid = self.next_pid();
                    let qospid = if matches!(p.qos, QoS::AtLeastOnce) {
                        QosPid::AtLeastOnce(pid)
                    } else {
                        QosPid::ExactlyOnce(pid)
                    };
                    let stored = PublishRequest {
                        dup: p.dup,
                        qos: p.qos,
                        retain: p.retain,
                        topic_name: p.topic_name.clone(),
                        payload: p.payload.clone(),
                    };
                    self.insert_pub(pid.get(), stored);
                    proof {
                        crate::types::lemma_pid_view_roundtrip(pid);
                    }
                    Ok(
                        Packet::Publish(crate::packet::Publish {
                            dup: false,
                            qospid,
                            retain: p.retain,
                            topic_name: p.topic_name,
                            payload: p.payload,
                        }),
                    )
                }
            },
            Request::Subscribe(s) => {
                let pid = self.next_pid();
                proof {
                    crate::types::lemma_pid_view_roundtrip(pid);
                }
                Ok(Packet::Subscribe(crate::packet::Subscribe { pid, topics: s.topics }))
            },
            Request::Unsubscribe(u) => {
                let pid = self.next_pid();
                proof {
                    crate::types::lemma_pid_view_roundtrip(pid);
                }
                Ok(Packet::Unsubscribe(crate::packet::Unsubscribe { pid, topics: u.topics }))
            },
        }
    }

    /// Removes the identifier at a position of a plain identifier list and
    /// relates it to the set view.
    fn remove_id(v: &mut Vec<u16>, i: usize)
        requires
            i < old(v)@.len(),
            forall|a: int, b: int| 0 <= a < b < old(v)@.len() ==> old(v)@[a] != old(v)@[b],
        ensures
            final(v)@ == old(v)@.remove(i as int),
            final(v)@.to_set() == old(v)@.to_set().remove(old(v)@[i as int]),
    {
        let ghost s = v@;
        let k = v[i];
        v.remove(i);
        proof {
            lemma_remove_to_set(s, i as int);
        }
    }

    /// Handles one inbound packet: validates it against the connection
    /// state and the in-flight tables, applies the exact transition of the
    /// session rules, and returns the notification to surface and the
    /// reply to send. A packet that the current state does not accept
    /// fails with `Unsolicited`, a refused CONNACK with `Connect`, and an
    /// oversized inbound publish with `PayloadEncoding`, each leaving the
    /// state unchanged except that a refused CONNACK disconnects.
    pub fn handle_incoming(&mut self, pkt: Packet) -> (r: Result<
        (Option<Notification>, Option<Packet>),
        StateError,
    >)
        requires
            old(self).wf(),
        ensures
            final(self).wf(),
            match pkt@ {
                crate::packet::PacketView::Connack(c) => {
                    if old(self)@.status == MqttConnectionStatus::Handshake {
                        if c.code == ConnectReturnCode::Accepted {
                            &&& final(self)@ == st_connected(old(self)@)
                            &&& r == Ok::<_, StateError>(
                                (Some(Notification::ConnAck), None::<Packet>),
                            )
                        } else {
                            &&& final(self)@ == (StateView {
                                status: MqttConnectionStatus::Disconnected,
                                ..old(self)@
                            })
                            &&& r == Err::<(Option<Notification>, Option<Packet>), StateError>(
                                StateError::Connect(
                                    crate::packet::return_code_value(c.code) as u8,
                                ),
                            )
                        }
                    } else {
                        &&& final(self)@ == old(self)@
                        &&& r == Err::<(Option<Notification>, Option<Packet>), StateError>(
                            StateError::Unsolicited(PacketKind::Connack, 0),
                        )
                    }
                },
                crate::packet::PacketView::Publish(pv) => {
                    if old(self)@.status != MqttConnectionStatus::Connected {
                        &&& final(self)@ == old(self)@
                        &&& r == Err::<(Option<Notification>, Option<Packet>), StateError>(
                            StateError::Unsolicited(PacketKind::Publish, 0),
                        )
                    } else {
                        match pv.qospid {
                            QosPid::AtMostOnce => {
                                if crate::notify::publish_fits(pv) {
                                    &&& final(self)@ == old(self)@
                                    &&& (r matches Ok((Some(Notification::Publish(n)), None))
                                        && notification_of(n@, pv))
                                } else {
                                    &&& final(self)@ == old(self)@
                                    &&& r == Err::<
                                        (Option<Notification>, Option<Packet>),
                                        StateError,
                                    >(StateError::PayloadEncoding)
                                }
                            },
                            QosPid::AtLeastOnce(pid) => {
                                if crate::notify::publish_fits(pv) {
                                    &&& final(self)@ == old(self)@
                                    &&& (r matches Ok(
                                        (Some(Notification::Publish(n)), Some(reply)),
                                    ) && notification_of(n@, pv) && reply == Packet::Puback(pid))
                                } else {
                                    &&& final(self)@ == old(self)@
                                    &&& r == Err::<
                                        (Option<Notification>, Option<Packet>),
                                        StateError,
                                    >(StateError::PayloadEncoding)
                                }
                            },
                            QosPid::ExactlyOnce(pid) => {
                                let k = pid.spec_get();
                                if old(self)@.incs.contains(k) {
                                    &&& final(self)@ == old(self)@
                                    &&& r == Ok::<_, StateError>(
                                        (None::<Notification>, Some(Packet::Pubrec(pid))),
                                    )
                                } else if crate::notify::publish_fits(pv) {
                                    &&& final(self)@ == st_inc_insert(old(self)@, k)
                                    &&& (r matches Ok(
                                        (Some(Notification::Publish(n)), Some(reply)),
                                    ) && notification_of(n@, pv) && reply == Packet::Pubrec(pid))
                                } else {
                                    &&& final(self)@ == old(self)@
                                    &&& r == Err::<
                                        (Option<Notification>, Option<Packet>),
                                        StateError,
                                    >(StateError::PayloadEncoding)
                                }
                            },
                        }
                    }
                },
                crate::packet::PacketView::Puback(p) => {
                    if old(self)@.pubs.dom().contains(p.spec_get()) {
                        &&& final(self)@ == st_puback(old(self)@, p.spec_get())
                        &&& r == Ok::<_, StateError>(
                            (Some(Notification::Puback(p)), None::<Packet>),
                        )
                    } else {
                        &&& final(self)@ == old(self)@
                        &&& r == Err::<(Option<Notification>, Option<Packet>), StateError>(
                            StateError::Unsolicited(PacketKind::Puback, p.spec_get()),
                        )
                    }
                },
                crate::packet::PacketView::Pubrec(p) => {
                    if old(self)@.pubs.dom().contains(p.spec_get()) {
                        &&& final(self)@ == st_pubrec(old(self)@, p.spec_get())
                        &&& r == Ok::<_, StateError>(
                            (Some(Notification::Pubrec(p)), Some(Packet::Pubrel(p))),
                        )
                    } else {
                        &&& final(self)@ == old(self)@
                        &&& r == Err::<(Option<Notification>, Option<Packet>), StateError>(
                            StateError::Unsolicited(PacketKind::Pubrec, p.spec_get()),
                        )
                    }
                },
                crate::packet::PacketView::Pubrel(p) => {
                    if old(self)@.incs.contains(p.spec_get()) {
                        &&& final(self)@ == st_pubrel(old(self)@, p.spec_get())
                        &&& r == Ok::<_, StateError>(
                            (None::<Notification>, Some(Packet::Pubcomp(p))),
                        )
                    } else {
                        &&& final(self)@ == old(self)@
                        &&& r == Err::<(Option<Notification>, Option<Packet>), StateError>(
                            StateError::Unsolicited(PacketKind::Pubrel, p.spec_get()),
                        )
                    }
                },
                crate::packet::PacketView::Pubcomp(p) => {
                    if old(self)@.rels.contains(p.spec_get()) {
                        &&& final(self)@ == st_pubcomp(old(self)@, p.spec_get())
                        &&& r == Ok::<_, StateError>(
                            (Some(Notification::Pubcomp(p)), None::<Packet>),
                        )
                    } else {
                        &&& final(self)@ == old(self)@
                        &&& r == Err::<(Option<Notification>, Option<Packet>), StateError>(
                            StateError::Unsolicited(PacketKind::Pubcomp, p.spec_get()),
                        )
                    }
                },
                crate::packet::PacketView::Suback(s) => {
                    if old(self)@.status == MqttConnectionStatus::Connected {
                        &&& final(self)@ == old(self)@
                        &&& (r matches Ok((Some(Notification::Suback(sb)), None)) && sb@ == s)
                    } else {
                        &&& final(self)@ == old(self)@
                        &&& r == Err::<(Option<Notification>, Option<Packet>), StateError>(
                            StateError::Unsolicited(PacketKind::Suback, s.pid.spec_get()),
                        )
                    }
                },
                crate::packet::PacketView::Unsuback(p) => {
                    if old(self)@.status == MqttConnectionStatus::Connected {
                        &&& final(self)@ == old(self)@
                        &&& r == Ok::<_, StateError>(
                            (Some(Notification::Unsuback(p)), None::<Packet>),
                        )
                    } else {
                        &&& final(self)@ == old(self)@
                        &&& r == Err::<(Option<Notification>, Option<Packet>), StateError>(
                            StateError::Unsolicited(PacketKind::Unsuback, p.spec_get()),
                        )
                    }
                },
                crate::packet::PacketView::Pingresp => {
                    if old(self)@.status == MqttConnectionStatus::Connected {
                        &&& final(self)@ == (StateView { await_pingresp: false, ..old(self)@ })
                        &&& r == Ok::<_, StateError>((None::<Notification>, None::<Packet>))
                    } else {
                        &&& final(self)@ == old(self)@
                        &&& r == Err::<(Option<Notification>, Option<Packet>), StateError>(
                            StateError::Unsolicited(PacketKind::Pingresp, 0),
                        )
                    }
                },
                crate::packet::PacketView::Pingreq => {
                    if old(self)@.status == MqttConnectionStatus::Connected {
                        &&& final(self)@ == old(self)@
                        &&& r == Ok::<_, StateError>(
                            (None::<Notification>, Some(Packet::Pingresp)),
                        )
                    } else {
                        &&& final(self)@ == old(self)@
                        &&& r == Err::<(Option<Notification>, Option<Packet>), StateError>(
                            StateError::Unsolicited(PacketKind::Pingreq, 0),
                        )
                    }
                },
                crate::packet::PacketView::Connect(_) => {
                    &&& final(self)@ == old(self)@
                    &&& r == Err::<(Option<Notification>, Option<Packet>), StateError>(
                        StateError::Unsolicited(PacketKind::Connect, 0),
                    )
                },
                crate::packet::PacketView::Subscribe(_) => {
                    &&& final(self)@ == old(self)@
                    &&& r == Err::<(Option<Notification>, Option<Packet>), StateError>(
                        StateError::Unsolicited(PacketKind::Subscribe, 0),
                    )
                },
                crate::packet::PacketView::Unsubscribe(_) => {
                    &&& final(self)@ == old(self)@
                    &&& r == Err::<(Option<Notification>, Option<Packet>), StateError>(
                        StateError::Unsolicited(PacketKind::Unsubscribe, 0),
                    )
                },
                crate::packet::PacketView::Disconnect => {
                    &&& final(self)@ == old(self)@
                    &&& r == Err::<(Option<Notification>, Option<Packet>), StateError>(
                        StateError::Unsolicited(PacketKind::Disconnect, 0),
                    )
                },
            },
    {
        match pkt {
            Packet::Connack(c) => {
                if matches!(self.connection_status, MqttConnectionStatus::Handshake) {
                    if matches!(c.code, ConnectReturnCode::Accepted) {
                        self.connection_status = MqttConnectionStatus::Connected;
                        Ok((Some(Notification::ConnAck), None))
                    } else {
                        self.connection_status = MqttConnectionStatus::Disconnected;
                        Err(StateError::Connect(c.code.as_u8()))
                    }
                } else {
                    Err(StateError::Unsolicited(PacketKind::Connack, 0))
                }
            },
            Packet::Publish(p) => {
                if !matches!(self.connection_status, MqttConnectionStatus::Connected) {
                    return Err(StateError::Unsolicited(PacketKind::Publish, 0));
                }
                match p.qospid {
                    QosPid::AtMostOnce => {
                        let n = PublishNotification::try_from(p)?;
                        Ok((Some(Notification::Publish(n)), None))
                    },
                    QosPid::AtLeastOnce(pid) => {
                        let n = PublishNotification::try_from(p)?;
                        Ok((Some(Notification::Publish(n)), Some(Packet::Puback(pid))))
                    },
                    QosPid::ExactlyOnce(pid) => {
                        let k = pid.get();
                        match Self::find_in(&self.incoming_pub, k) {
                            Some(_) => Ok((None, Some(Packet::Pubrec(pid)))),
                            None => {
                                let n = PublishNotification::try_from(p)?;
                                let ghost s = self.incoming_pub@;
                                self.incoming_pub.push(k);
                                proof {
                                    Seq::<u16>::lemma_to_set_insert_commutes(s, k);
                                    assert(s.push(k) =~= s + seq![k]);
                                    assert forall|a: int, b: int|
                                        0 <= a < b < self.incoming_pub@.len() implies self
                                        .incoming_pub@[a] != self.incoming_pub@[b] by {
                                        if b == self.incoming_pub@.len() - 1 {
                                            assert(s.contains(s[a]));
                                        }
                                    }
                                }
                                Ok((Some(Notification::Publish(n)), Some(Packet::Pubrec(pid))))
                            },
                        }
                    },
                }
            },
            Packet::Puback(p) => {
                match self.find_pub(p.get()) {
                    Some(i) => {
                        self.remove_pub(i);
                        Ok((Some(Notification::Puback(p)), None))
                    },
                    None => Err(StateError::Unsolicited(PacketKind::Puback, p.get())),
                }
            },
            Packet::Pubrec(p) => {
                let k = p.get();
                match self.find_pub(k) {
                    Some(i) => {
                        self.remove_pub(i);
                        match Self::find_in(&self.outgoing_rel, k) {
                            Some(_) => {
                                proof {
                                    assert(self@.rels.insert(k) =~= self@.rels);
                                }
                            },
                            None => {
                                let ghost s = self.outgoing_rel@;
                                self.outgoing_rel.push(k);
                                proof {
                                    Seq::<u16>::lemma_to_set_insert_commutes(s, k);
                                    assert(s.push(k) =~= s + seq![k]);
                                    assert forall|a: int, b: int|
                                        0 <= a < b < self.outgoing_rel@.len() implies self
                                        .outgoing_rel@[a] != self.outgoing_rel@[b] by {
                                        if b == self.outgoing_rel@.len() - 1 {
                                            assert(s.contains(s[a]));
                                        }
                                    }
                                }
                            },
                        }
                        Ok((Some(Notification::Pubrec(p)), Some(Packet::Pubrel(p))))
                    },
                    None => Err(StateError::Unsolicited(PacketKind::Pubrec, k)),
                }
            },
            Packet::Pubrel(p) => {
                let k = p.get();
                match Self::find_in(&self.incoming_pub, k) {
                    Some(i) => {
                        Self::remove_id(&mut self.incoming_pub, i);
                        Ok((None, Some(Packet::Pubcomp(p))))
                    },
                    None => Err(StateError::Unsolicited(PacketKind::Pubrel, k)),
                }
            },
            Packet::Pubcomp(p) => {
                let k = p.get();
                match Self::find_in(&self.outgoing_rel, k) {
                    Some(i) => {
                        Self::remove_id(&mut self.outgoing_rel, i);
                        Ok((Some(Notification::Pubcomp(p)), None))
                    },
                    None => Err(StateError::Unsolicited(PacketKind::Pubcomp, k)),
                }
            },
            Packet::Suback(s) => {
                if matches!(self.connection_status, MqttConnectionStatus::Connected) {
                    Ok((Some(Notification::Suback(s)), None))
                } else {
                    Err(StateError::Unsolicited(PacketKind::Suback, s.pid.get()))
                }
            },
            Packet::Unsuback(p) => {
                if matches!(self.connection_status, MqttConnectionStatus::Connected) {
                    Ok((Some(Notification::Unsuback(p)), None))
                } else {
                    Err(StateError::Unsolicited(PacketKind::Unsuback, p.get()))
                }
            },
            Packet::Pingresp => {
                if matches!(self.connection_status, MqttConnectionStatus::Connected) {
                    self.await_pingresp = false;
                    Ok((None, None))
                } else {
                    Err(StateError::Unsolicited(PacketKind::Pingresp, 0))
                }
            },
            Packet::Pingreq => {
                if matches!(self.connection_status, MqttConnectionStatus::Connected) {
                    Ok((None, Some(Packet::Pingresp)))
                } else {
                    Err(StateError::Unsolicited(PacketKind::Pingreq, 0))
                }
            },
            Packet::Connect(_) => Err(StateError::Unsolicited(PacketKind::Connect, 0)),
            Packet::Subscribe(_) => Err(StateError::Unsolicited(PacketKind::Subscribe, 0)),
            Packet::Unsubscribe(_) => Err(StateError::Unsolicited(PacketKind::Unsubscribe, 0)),
            Packet::Disconnect => Err(StateError::Unsolicited(PacketKind::Disconnect, 0)),
        }
    }

    /// Handles expiry of the keep-alive timer: emits a PINGREQ and records
    /// it as outstanding, or fails with `PingTimeout` exactly when the
    /// previous ping is still unanswered, so that at most one PINGREQ is
    /// ever outstanding.
    pub fn handle_keepalive_expiry(&mut self) -> (r: Result<Packet, StateError>)
        requires
            old(self).wf(),
        ensures
            final(self).wf(),
            old(self)@.await_pingresp ==> final(self)@ == old(self)@ && r == Err::<
                Packet,
                StateError,
            >(StateError::PingTimeout),
            !old(self)@.await_pingresp ==> final(self)@ == (StateView {
                await_pingresp: true,
                ..old(self)@
            }) && r == Ok::<Packet, StateError>(Packet::Pingreq),
    {
        if self.await_pingresp {
            Err(StateError::PingTimeout)
        } else {
            self.await_pingresp = true;
            Ok(Packet::Pingreq)
        }
    }
}

/// Does a surfaced notification carry exactly the fields of an inbound
/// publish?
pub open spec fn notification_of(
    n: crate::notify::PublishNotificationView,
    pv: crate::packet::PublishView,
) -> bool {
    n.dup == pv.dup && n.qospid == pv.qospid && n.retain == pv.retain && n.topic_name
        == pv.topic_name && n.payload == pv.payload
}

/// The handshake finished: the session is connected.
pub open spec fn st_connected(v: StateView) -> StateView {
    StateView { status: MqttConnectionStatus::Connected, ..v }
}

/// A QoS 1/2 publish went out under a fresh identifier.
pub open spec fn st_insert_pub(v: StateView, k: u16, p: PublishRequestView) -> StateView {
    StateView { pubs: v.pubs.insert(k, p), ..v }
}

/// PUBACK arrived: the QoS 1 publish is done.
pub open spec fn st_puback(v: StateView, k: u16) -> StateView {
    StateView { pubs: v.pubs.remove(k), ..v }
}

/// PUBREC arrived: the QoS 2 publish waits for PUBCOMP.
pub open spec fn st_pubrec(v: StateView, k: u16) -> StateView {
    StateView { pubs: v.pubs.remove(k), rels: v.rels.insert(k), ..v }
}

/// PUBCOMP arrived: the QoS 2 publish is done.
pub open spec fn st_pubcomp(v: StateView, k: u16) -> StateView {
    StateView { rels: v.rels.remove(k), ..v }
}

/// An inbound QoS 2 publish was recorded, PUBREL pending.
pub open spec fn st_inc_insert(v: StateView, k: u16) -> StateView {
    StateView { incs: v.incs.insert(k), ..v }
}

/// PUBREL arrived: the inbound QoS 2 publish was released.
pub open spec fn st_pubrel(v: StateView, k: u16) -> StateView {
    StateView { incs: v.incs.remove(k), ..v }
}

/// Removing a unique element from an identifier list removes it from the
/// set the list stands for.
proof fn lemma_remove_to_set(s: Seq<u16>, i: int)
    requires
        0 <= i < s.len(),
        forall|a: int, b: int| 0 <= a < b < s.len() ==> s[a] != s[b],
    ensures
        s.remove(i).to_set() == s.to_set().remove(s[i]),
{
    let r = s.remove(i);
    assert forall|x: u16| r.to_set().contains(x) implies s.to_set().remove(s[i]).contains(x) by {
        let j = choose|j: int| 0 <= j < r.len() && r[j] == x;
        if j < i {
            assert(s[j] == x);
        } else {
            assert(s[j + 1] == x);
        }
    }
    assert forall|x: u16| s.to_set().remove(s[i]).contains(x) implies r.to_set().contains(x) by {
        let j = choose|j: int| 0 <= j < s.len() && s[j] == x;
        if j < i {
            assert(r[j] == x);
        } else {
            assert(j != i);
            assert(r[j - 1] == x);
        }
    }
    assert(s.remove(i).to_set() =~= s.to_set().remove(s[i]));
}

/// Every identifier ever tracked by a well-formed session is nonzero: zero
/// is in none of the in-flight table, the release set and the inbound set.
pub proof fn lemma_tracked_pids_nonzero(v: StateView)
    requires
        view_wf(v),
    ensures
        !v.pubs.dom().contains(0),
        !v.rels.contains(0),
        !v.incs.contains(0),
{
}

/// The in-flight table never exceeds its bound in a well-formed session.
pub proof fn lemma_inflight_bounded(v: StateView)
    requires
        view_wf(v),
    ensures
        v.pubs.dom().finite(),
        v.pubs.dom().len() <= v.cap,
{
}

/// A completed outbound QoS 2 handshake clears its identifier: after the
/// publish was stored, PUBREC moved it to the release set and PUBCOMP
/// released it, the identifier is tracked nowhere.
pub proof fn lemma_qos2_handshake_clears(v: StateView, k: u16, p: PublishRequestView)
    ensures
        ({
            let v3 = st_pubcomp(st_pubrec(st_insert_pub(v, k, p), k), k);
            &&& !v3.pubs.dom().contains(k)
            &&& !v3.rels.contains(k)
        }),
{
}

/// An inbound QoS 2 publish is surfaced exactly once: recording it marks
/// its identifier, recording it again changes nothing, and the handlers
/// surface a publish notification only for an unmarked identifier.
pub proof fn lemma_qos2_publish_once(v: StateView, k: u16)
    ensures
        st_inc_insert(v, k).incs.contains(k),
        st_inc_insert(st_inc_insert(v, k), k) == st_inc_insert(v, k),
{
    assert(st_inc_insert(st_inc_insert(v, k), k).incs =~= st_inc_insert(v, k).incs);
}

} // verus!
