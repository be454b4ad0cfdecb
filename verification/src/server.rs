//! The reactor-side state: the registry mapping tokens to connections, token
//! allocation, the dispatch of readiness notifications under the one-job-per-
//! connection re-arm discipline, the control-message router, and the
//! broadcast fan-out.
use vstd::prelude::*;
use vstd::pervasive::VecAdditionalExecFns;
use crate::client::{
    identity_unchanged, interest_of, is_running, text_frame_view, Client, ClientState,
    ConnectionMode, Interest,
};
use crate::event_message::EventMessage;
use crate::frame::{encode_spec, Frame, FrameView, OpCode};

verus! {

/// The token reserved for the listening socket; client tokens start at 1.
pub const LISTENER_FD: u64 = 0;

/// The readiness bits of one notification.
#[derive(Clone, Copy, Debug, PartialEq, Eq, Structural)]
pub struct Readiness {
    pub readable: bool,
    pub writable: bool,
    pub hup: bool,
}

/// What the reactor decided for one readiness notification.
#[derive(Clone, Copy, Debug, PartialEq, Eq, Structural)]
pub enum DispatchAction {
    /// Unknown token, an in-flight connection, or no actionable bit: no-op.
    Ignored,
    /// A hangup: the connection was removed.
    Closed,
    /// Submit a worker job that runs the connection's read handler.
    ReadJob,
    /// Submit a worker job that runs the connection's write handler.
    WriteJob,
}

/// What the reactor owes after routing one control message.
#[derive(Clone, Copy, Debug, PartialEq, Eq, Structural)]
pub enum NotifyAction {
    /// Nothing further.
    Nothing,
    /// Re-register the connection with this interest.
    Rearm(u64, Interest),
    /// The connection was removed; release its registration and socket.
    Removed(u64),
}

/// Whether there is an entry bearing `t`.
pub open spec fn has_token(s: Seq<Client>, t: u64) -> bool {
    exists|i: int| 0 <= i < s.len() && s[i].token == t
}

/// The registry without every entry bearing `t`.
pub open spec fn remove_token(s: Seq<Client>, t: u64) -> Seq<Client> {
    s.filter(|c: Client| c.token != t)
}

/// The same client with the in-flight token flipped.
pub open spec fn set_in_flight(c: Client, b: bool) -> Client {
    Client { in_flight: b, ..c }
}

/// Whether a readiness notification issues a worker job: only for a
/// connection not already in flight, and only when an actionable bit is set.
pub open spec fn issues_job(in_flight: bool, r: Readiness) -> bool {
    !r.hup && !in_flight && (r.writable || r.readable)
}

/// The in-flight token after the reactor processed one non-hangup
/// notification: set as soon as a job is issued, cleared only by a re-arm.
pub open spec fn in_flight_after(in_flight: bool, r: Readiness) -> bool {
    in_flight || issues_job(in_flight, r)
}

/// How many worker jobs a run of readiness notifications issues, with no
/// re-arm in between.
pub open spec fn jobs_issued(in_flight: bool, events: Seq<Readiness>) -> nat
    decreases events.len(),
{
    if events.len() == 0 {
        0
    } else {
        (if issues_job(in_flight, events[0]) {
            1nat
        } else {
            0nat
        }) + jobs_issued(in_flight_after(in_flight, events[0]), events.drop_first())
    }
}

/// Mutual exclusion: between two re-arms, however many readiness
/// notifications arrive for one connection, at most one worker job is issued,
/// and none at all while a job is already in flight.
pub proof fn lemma_mutual_exclusion(in_flight: bool, events: Seq<Readiness>)
    ensures
        in_flight ==> jobs_issued(true, events) == 0,
        jobs_issued(in_flight, events) <= 1,
    decreases events.len(),
{
    if events.len() > 0 {
        lemma_mutual_exclusion(in_flight_after(in_flight, events[0]), events.drop_first());
        lemma_mutual_exclusion(true, events.drop_first());
    }
}

/// The reactor's state: the connection registry and the next free token.
/// Tokens are unique, start at 1 (0 is the listener), and are allocated
/// monotonically.
pub struct Server {
    pub clients: Vec<Client>,
    pub next_free_token: u64,
}

impl Server {
    /// The registry invariant: every token is at least 1, below the
    /// allocation cursor, and unique.
    pub open spec fn wf(self) -> bool {
        &&& 1 <= self.next_free_token
        &&& forall|i: int|
            0 <= i < self.clients@.len() ==> 1 <= #[trigger] self.clients@[i].token
                < self.next_free_token
        &&& forall|i: int, j: int|
            0 <= i < j < self.clients@.len() ==> #[trigger] self.clients@[i].token
                != #[trigger] self.clients@[j].token
    }

    /// An empty registry; the first client gets token 1.
    pub fn new() -> (r: Server)
        ensures
            r.wf(),
            r.clients@ == Seq::<Client>::empty(),
            r.next_free_token == 1,
    {
        Server { clients: Vec::new(), next_free_token: 1 }
    }

    /// The index of the entry bearing `token`, if any.
    fn find_index(&self, token: u64) -> (r: Option<usize>)
        ensures
            match r {
                Some(i) => i < self.clients@.len() && self.clients@[i as int].token == token,
                None => !has_token(self.clients@, token),
            },
    {
        let n = self.clients.len();
        let mut i: usize = 0;
        while i < n
            invariant
                i <= n,
                n == self.clients@.len(),
                forall|j: int| 0 <= j < i ==> self.clients@[j].token != token,
            decreases n - i,
        {
            if self.clients[i].token == token {
                return Some(i);
            }
            i = i + 1;
        }
        None
    }

    /// Accepts one connection: allocates the next token, registers the fresh
    /// connection (which advances it to `AwaitingHandshake`), and reports the
    /// interest to register it with. Insertion happens before the interest is
    /// handed out, so the token resolves once events can arrive.
    pub fn accept(&mut self, mode: ConnectionMode) -> (r: (u64, Interest))
        requires
            old(self).wf(),
            old(self).next_free_token < u64::MAX,
        ensures
            final(self).wf(),
            r.0 == old(self).next_free_token,
            !has_token(old(self).clients@, r.0),
            final(self).next_free_token == old(self).next_free_token + 1,
            final(self).clients@.len() == old(self).clients@.len() + 1,
            forall|i: int|
                0 <= i < old(self).clients@.len() ==> final(self).clients@[i] == old(
                    self,
                ).clients@[i],
            ({
                let c = final(self).clients@.last();
                &&& c.token == r.0
                &&& c.state == ClientState::AwaitingHandshake
                &&& c.mode == mode
                &&& c.inbound@ == Seq::<u8>::empty()
                &&& c.outbound@ == Seq::<u8>::empty()
                &&& c.in_flight == false
                &&& c.peer_key is None
            }),
            r.1 == interest_of(ClientState::AwaitingHandshake),
    {
        let token = self.next_free_token;
        self.next_free_token = self.next_free_token + 1;
        let mut client = Client::with_mode(token, mode);
        let interest = client.register();
        self.clients.push(client);
        (token, interest)
    }

    /// Removes the entry bearing `token`, if any: the single point that drops
    /// a connection. Exactly one entry leaves on the first close; any later
    /// close for the same token is a no-op.
    pub fn handle_client_close(&mut self, token: u64) -> (removed: bool)
        requires
            old(self).wf(),
        ensures
            final(self).wf(),
            final(self).next_free_token == old(self).next_free_token,
            removed == has_token(old(self).clients@, token),
            final(self).clients@ == remove_token(old(self).clients@, token),
    {
        let r = self.find_index(token);
        match r {
            None => {
                proof {
                    lemma_filter_all_true(self.clients@, |c: Client| c.token != token);
                }
                false
            },
            Some(i) => {
                proof {
                    lemma_remove_is_filter(self.clients@, i as int, token);
                }
                let _ = self.clients.remove(i);
                proof {
                    let s = old(self).clients@;
                    let kept = s.remove(i as int);
                    assert forall|a: int|
                        0 <= a < kept.len() implies 1 <= #[trigger] kept[a].token < old(
                        self,
                    ).next_free_token by {
                        if a < i {
                            assert(kept[a] == s[a]);
                        } else {
                            assert(kept[a] == s[a + 1]);
                        }
                    }
                    assert forall|a: int, b: int|
                        0 <= a < b < kept.len() implies #[trigger] kept[a].token
                        != #[trigger] kept[b].token by {
                        let a2: int = if a < i {
                            a
                        } else {
                            a + 1
                        };
                        let b2: int = if b < i {
                            b
                        } else {
                            b + 1
                        };
                        assert(kept[a] == s[a2]);
                        assert(kept[b] == s[b2]);
                    }
                }
                true
            },
        }
    }

    /// Claims the in-flight token for one worker job, handing back which job
    /// to submit; a connection already in flight, or an unknown token, gets
    /// none.
    fn claim_job(&mut self, token: u64, job: DispatchAction) -> (r: DispatchAction)
        requires
            old(self).wf(),
        ensures
            final(self).wf(),
            final(self).next_free_token == old(self).next_free_token,
            !has_token(old(self).clients@, token) ==> r == DispatchAction::Ignored && final(self).clients@ == old(self).clients@,
            forall|i: int|
                0 <= i < old(self).clients@.len() && old(self).clients@[i].token == token ==> {
                    let c = old(self).clients@[i];
                    if c.in_flight {
                        r == DispatchAction::Ignored && final(self).clients@ == old(self).clients@
                    } else {
                        r == job && final(self).clients@ == old(self).clients@.update(
                            i,
                            set_in_flight(c, true),
                        )
                    }
                },
    {
        let found = self.find_index(token);
        match found {
            None => DispatchAction::Ignored,
            Some(i) => {
                if self.clients[i].in_flight {
                    DispatchAction::Ignored
                } else {
                    let mut taken = Client::new(0);
                    self.clients.set_and_swap(i, &mut taken);
                    taken.in_flight = true;
                    self.clients.set_and_swap(i, &mut taken);
                    proof {
                        assert(final(self).clients@ =~= old(self).clients@.update(
                            i as int,
                            set_in_flight(old(self).clients@[i as int], true),
                        ));
                    }
                    job
                }
            },
        }
    }

    /// Issues a worker job for the connection's read handler, unless a job
    /// for this connection is already in flight.
    pub fn handle_client_read(&mut self, token: u64) -> (r: DispatchAction)
        requires
            old(self).wf(),
        ensures
            final(self).wf(),
            final(self).next_free_token == old(self).next_free_token,
            !has_token(old(self).clients@, token) ==> r == DispatchAction::Ignored && final(self).clients@ == old(self).clients@,
            forall|i: int|
                0 <= i < old(self).clients@.len() && old(self).clients@[i].token == token ==> {
                    let c = old(self).clients@[i];
                    if c.in_flight {
                        r == DispatchAction::Ignored && final(self).clients@ == old(self).clients@
                    } else {
                        r == DispatchAction::ReadJob && final(self).clients@ == old(
                            self,
                        ).clients@.update(i, set_in_flight(c, true))
                    }
                },
    {
        self.claim_job(token, DispatchAction::ReadJob)
    }

    /// Issues a worker job for the connection's write handler, unless a job
    /// for this connection is already in flight.
    pub fn handle_client_write(&mut self, token: u64) -> (r: DispatchAction)
        requires
            old(self).wf(),
        ensures
            final(self).wf(),
            final(self).next_free_token == old(self).next_free_token,
            !has_token(old(self).clients@, token) ==> r == DispatchAction::Ignored && final(self).clients@ == old(self).clients@,
            forall|i: int|
                0 <= i < old(self).clients@.len() && old(self).clients@[i].token == token ==> {
                    let c = old(self).clients@[i];
                    if c.in_flight {
                        r == DispatchAction::Ignored && final(self).clients@ == old(self).clients@
                    } else {
                        r == DispatchAction::WriteJob && final(self).clients@ == old(
                            self,
                        ).clients@.update(i, set_in_flight(c, true))
                    }
                },
    {
        self.claim_job(token, DispatchAction::WriteJob)
    }

    /// Translates one readiness notification: a hangup closes at once (no
    /// buffer work is needed); otherwise a worker job is issued only if no
    /// job for this connection is in flight, write before read so that
    /// backpressure drains first; a token no longer registered is a no-op.
    pub fn dispatch(&mut self, token: u64, readiness: Readiness) -> (r: DispatchAction)
        requires
            old(self).wf(),
        ensures
            final(self).wf(),
            final(self).next_free_token == old(self).next_free_token,
            !has_token(old(self).clients@, token) ==> r == DispatchAction::Ignored && final(self).clients@ == old(self).clients@,
            forall|i: int|
                0 <= i < old(self).clients@.len() && old(self).clients@[i].token == token ==> {
                    let c = old(self).clients@[i];
                    if readiness.hup {
                        r == DispatchAction::Closed && final(self).clients@ == remove_token(
                            old(self).clients@,
                            token,
                        )
                    } else if !issues_job(c.in_flight, readiness) {
                        r == DispatchAction::Ignored && final(self).clients@ == old(self).clients@
                    } else {
                        (if readiness.writable {
                            r == DispatchAction::WriteJob
                        } else {
                            r == DispatchAction::ReadJob
                        }) && final(self).clients@ == old(self).clients@.update(
                            i,
                            set_in_flight(c, true),
                        )
                    }
                },
    {
        if readiness.hup {
            let removed = self.handle_client_close(token);
            proof {
                if !has_token(old(self).clients@, token) {
                    lemma_filter_all_true(old(self).clients@, |c: Client| c.token != token);
                }
            }
            if removed {
                DispatchAction::Closed
            } else {
                DispatchAction::Ignored
            }
        } else if readiness.writable {
            self.handle_client_write(token)
        } else if readiness.readable {
            self.handle_client_read(token)
        } else {
            DispatchAction::Ignored
        }
    }
    /// Clears the in-flight token (the job finished) and re-derives the
    /// interest to re-register from the connection's current state. Unknown
    /// tokens are a no-op.
    pub fn handle_client_rearm(&mut self, token: u64) -> (r: Option<Interest>)
        requires
            old(self).wf(),
        ensures
            final(self).wf(),
            final(self).next_free_token == old(self).next_free_token,
            final(self).clients@.len() == old(self).clients@.len(),
            !has_token(old(self).clients@, token) ==> r is None && final(self).clients@ == old(
                self,
            ).clients@,
            forall|j: int|
                0 <= j < old(self).clients@.len() && old(self).clients@[j].token != token
                    ==> final(self).clients@[j] == old(self).clients@[j],
            forall|i: int|
                0 <= i < old(self).clients@.len() && #[trigger] old(self).clients@[i].token
                    == token ==> {
                    let c = old(self).clients@[i];
                    let c2 = final(self).clients@[i];
                    let s2 = if c.state == ClientState::New {
                        ClientState::AwaitingHandshake
                    } else {
                        c.state
                    };
                    &&& r == Some(interest_of(s2))
                    &&& c2.state == s2
                    &&& c2.in_flight == false
                    &&& c2.token == c.token
                    &&& c2.mode == c.mode
                    &&& c2.display_name == c.display_name
                    &&& c2.max_frame_len == c.max_frame_len
                    &&& c2.inbound@ == c.inbound@
                    &&& c2.outbound@ == c.outbound@
                    &&& c2.peer_key == c.peer_key
                },
    {
        let found = self.find_index(token);
        match found {
            None => None,
            Some(i) => {
                let mut taken = Client::new(0);
                self.clients.set_and_swap(i, &mut taken);
                taken.in_flight = false;
                let interest = taken.register();
                self.clients.set_and_swap(i, &mut taken);
                Some(interest)
            },
        }
    }

    /// Queues a pong on the pinged connection (when it is running).
    pub fn handle_client_ping(&mut self, token: u64, ping_frame: Frame)
        requires
            old(self).wf(),
        ensures
            final(self).wf(),
            final(self).next_free_token == old(self).next_free_token,
            final(self).clients@.len() == old(self).clients@.len(),
            !has_token(old(self).clients@, token) ==> final(self).clients@ == old(self).clients@,
            forall|j: int|
                0 <= j < old(self).clients@.len() && old(self).clients@[j].token != token
                    ==> final(self).clients@[j] == old(self).clients@[j],
            forall|i: int|
                0 <= i < old(self).clients@.len() && #[trigger] old(self).clients@[i].token
                    == token ==> {
                    let c = old(self).clients@[i];
                    let c2 = final(self).clients@[i];
                    &&& identity_unchanged(c, c2)
                    &&& c2.inbound@ == c.inbound@
                    &&& c2.peer_key == c.peer_key
                    &&& if is_running(c.state) {
                        c2.outbound@ == c.outbound@ + encode_spec(
                            FrameView {
                                fin: true,
                                opcode: OpCode::Pong,
                                payload: ping_frame@.payload,
                            },
                        ) && c2.state == ClientState::RunningAndWriting
                    } else {
                        c2.outbound@ == c.outbound@ && c2.state == c.state
                    }
                },
    {
        let found = self.find_index(token);
        match found {
            None => (),
            Some(i) => {
                let mut taken = Client::new(0);
                self.clients.set_and_swap(i, &mut taken);
                taken.handle_ping(ping_frame);
                self.clients.set_and_swap(i, &mut taken);
            },
        }
    }

    /// A pong answers one of our pings; nothing is updated.
    pub fn handle_client_pong(&mut self, token: u64, payload: Vec<u8>)
        requires
            old(self).wf(),
        ensures
            final(self).wf(),
            final(self).next_free_token == old(self).next_free_token,
            final(self).clients@.len() == old(self).clients@.len(),
            forall|j: int|
                0 <= j < old(self).clients@.len() ==> client_view_unchanged(
                    old(self).clients@[j],
                    #[trigger] final(self).clients@[j],
                ),
    {
        let found = self.find_index(token);
        match found {
            None => (),
            Some(i) => {
                let mut taken = Client::new(0);
                self.clients.set_and_swap(i, &mut taken);
                taken.handle_pong(payload);
                self.clients.set_and_swap(i, &mut taken);
            },
        }
    }

    /// A binary message has no chat meaning here: the bearing connection is
    /// looked up and left as it is (ignored entirely before it runs).
    pub fn handle_client_binary_frame(&mut self, token: u64, payload: Vec<u8>)
        requires
            old(self).wf(),
        ensures
            final(self).wf(),
            final(self).next_free_token == old(self).next_free_token,
            final(self).clients@.len() == old(self).clients@.len(),
            forall|j: int|
                0 <= j < old(self).clients@.len() ==> client_view_unchanged(
                    old(self).clients@[j],
                    #[trigger] final(self).clients@[j],
                ),
    {
        let found = self.find_index(token);
        match found {
            None => (),
            Some(i) => {
                let mut taken = Client::new(0);
                self.clients.set_and_swap(i, &mut taken);
                let _ = taken.handle_binary_frame(payload);
                self.clients.set_and_swap(i, &mut taken);
            },
        }
    }

    /// Broadcast fan-out: every connection other than the sender that has
    /// completed its handshake gets a copy of the message queued as a text
    /// frame; the sender gets nothing back, and connections still in their
    /// handshake ignore the delivery. Delivery order is registry order.
    pub fn handle_client_message(&mut self, sender: u64, message: String)
        requires
            old(self).wf(),
        ensures
            final(self).wf(),
            final(self).next_free_token == old(self).next_free_token,
            final(self).clients@.len() == old(self).clients@.len(),
            forall|j: int|
                0 <= j < old(self).clients@.len() ==> {
                    let c = old(self).clients@[j];
                    let c2 = #[trigger] final(self).clients@[j];
                    &&& identity_unchanged(c, c2)
                    &&& c2.inbound@ == c.inbound@
                    &&& c2.peer_key == c.peer_key
                    &&& if c.token != sender && is_running(c.state) {
                        c2.outbound@ == c.outbound@ + encode_spec(text_frame_view(message@))
                            && c2.state == ClientState::RunningAndWriting
                    } else {
                        c2.outbound@ == c.outbound@ && c2.state == c.state
                    }
                },
    {
        let n = self.clients.len();
        let mut i: usize = 0;
        while i < n
            invariant
                i <= n,
                n == old(self).clients@.len(),
                self.clients@.len() == n,
                self.next_free_token == old(self).next_free_token,
                forall|j: int| i <= j < n ==> self.clients@[j] == old(self).clients@[j],
                forall|j: int|
                    0 <= j < i ==> {
                        let c = old(self).clients@[j];
                        let c2 = #[trigger] self.clients@[j];
                        &&& identity_unchanged(c, c2)
                        &&& c2.inbound@ == c.inbound@
                        &&& c2.peer_key == c.peer_key
                        &&& if c.token != sender && is_running(c.state) {
                            c2.outbound@ == c.outbound@ + encode_spec(text_frame_view(message@))
                                && c2.state == ClientState::RunningAndWriting
                        } else {
                            c2.outbound@ == c.outbound@ && c2.state == c.state
                        }
                    },
            decreases n - i,
        {
            let mut taken = Client::new(0);
            self.clients.set_and_swap(i, &mut taken);
            let _ = taken.deliver_from(sender, &message);
            self.clients.set_and_swap(i, &mut taken);
            i = i + 1;
        }
        proof {
            assert forall|a: int, b: int|
                0 <= a < b < final(self).clients@.len() implies #[trigger] final(self).clients@[a].token != #[trigger] final(self).clients@[b].token by {
                assert(final(self).clients@[a].token == old(self).clients@[a].token);
                assert(final(self).clients@[b].token == old(self).clients@[b].token);
            }
        }
    }

    /// Routes one control message from the notification channel: re-arm and
    /// close requests, and the per-frame deliveries, each to its handler.
    pub fn notify(&mut self, msg: EventMessage) -> (r: NotifyAction)
        requires
            old(self).wf(),
        ensures
            final(self).wf(),
            final(self).next_free_token == old(self).next_free_token,
            match msg {
                EventMessage::ReArm(t) => {
                    &&& (!has_token(old(self).clients@, t) ==> r == NotifyAction::Nothing
                        && final(self).clients@ == old(self).clients@)
                    &&& final(self).clients@.len() == old(self).clients@.len()
                    &&& (forall|j: int|
                        0 <= j < old(self).clients@.len() && old(self).clients@[j].token != t
                            ==> final(self).clients@[j] == old(self).clients@[j])
                    &&& (forall|i: int|
                        0 <= i < old(self).clients@.len() && #[trigger] old(
                            self,
                        ).clients@[i].token == t ==> {
                            let c = old(self).clients@[i];
                            let c2 = final(self).clients@[i];
                            let s2 = if c.state == ClientState::New {
                                ClientState::AwaitingHandshake
                            } else {
                                c.state
                            };
                            &&& r == NotifyAction::Rearm(t, interest_of(s2))
                            &&& c2.state == s2
                            &&& c2.in_flight == false
                            &&& c2.token == c.token
                            &&& c2.mode == c.mode
                            &&& c2.inbound@ == c.inbound@
                            &&& c2.outbound@ == c.outbound@
                            &&& c2.peer_key == c.peer_key
                        })
                },
                EventMessage::Close(t) => {
                    &&& final(self).clients@ == remove_token(old(self).clients@, t)
                    &&& r == (if has_token(old(self).clients@, t) {
                        NotifyAction::Removed(t)
                    } else {
                        NotifyAction::Nothing
                    })
                },
                EventMessage::Ping(t, f) => {
                    &&& r == NotifyAction::Nothing
                    &&& final(self).clients@.len() == old(self).clients@.len()
                    &&& (forall|j: int|
                        0 <= j < old(self).clients@.len() && old(self).clients@[j].token != t
                            ==> final(self).clients@[j] == old(self).clients@[j])
                    &&& (forall|i: int|
                        0 <= i < old(self).clients@.len() && #[trigger] old(
                            self,
                        ).clients@[i].token == t ==> {
                            let c = old(self).clients@[i];
                            let c2 = final(self).clients@[i];
                            &&& identity_unchanged(c, c2)
                            &&& c2.inbound@ == c.inbound@
                            &&& c2.peer_key == c.peer_key
                            &&& if is_running(c.state) {
                                c2.outbound@ == c.outbound@ + encode_spec(
                                    FrameView {
                                        fin: true,
                                        opcode: OpCode::Pong,
                                        payload: f@.payload,
                                    },
                                ) && c2.state == ClientState::RunningAndWriting
                            } else {
                                c2.outbound@ == c.outbound@ && c2.state == c.state
                            }
                        })
                },
                EventMessage::Pong(t, p) => r == NotifyAction::Nothing && final(self).clients@.len() == old(self).clients@.len() && (forall|j: int|
                    0 <= j < old(self).clients@.len() ==> client_view_unchanged(
                        old(self).clients@[j],
                        #[trigger] final(self).clients@[j],
                    )),
                EventMessage::TextFrame(t, s) => {
                    &&& r == NotifyAction::Nothing
                    &&& final(self).clients@.len() == old(self).clients@.len()
                    &&& (forall|j: int|
                        0 <= j < old(self).clients@.len() ==> {
                            let c = old(self).clients@[j];
                            let c2 = #[trigger] final(self).clients@[j];
                            &&& identity_unchanged(c, c2)
                            &&& c2.inbound@ == c.inbound@
                            &&& c2.peer_key == c.peer_key
                            &&& if c.token != t && is_running(c.state) {
                                c2.outbound@ == c.outbound@ + encode_spec(text_frame_view(s@))
                                    && c2.state == ClientState::RunningAndWriting
                            } else {
                                c2.outbound@ == c.outbound@ && c2.state == c.state
                            }
                        })
                },
                EventMessage::BinaryFrame(t, p) => r == NotifyAction::Nothing && final(self).clients@.len() == old(self).clients@.len() && (forall|j: int|
                    0 <= j < old(self).clients@.len() ==> client_view_unchanged(
                        old(self).clients@[j],
                        #[trigger] final(self).clients@[j],
                    )),
            },
    {
        match msg {
            EventMessage::ReArm(t) => {
                match self.handle_client_rearm(t) {
                    Some(interest) => NotifyAction::Rearm(t, interest),
                    None => NotifyAction::Nothing,
                }
            },
            EventMessage::Close(t) => {
                if self.handle_client_close(t) {
                    NotifyAction::Removed(t)
                } else {
                    NotifyAction::Nothing
                }
            },
            EventMessage::Ping(t, f) => {
                self.handle_client_ping(t, f);
                NotifyAction::Nothing
            },
            EventMessage::Pong(t, p) => {
                self.handle_client_pong(t, p);
                NotifyAction::Nothing
            },
            EventMessage::TextFrame(t, s) => {
                self.handle_client_message(t, s);
                NotifyAction::Nothing
            },
            EventMessage::BinaryFrame(t, p) => {
                self.handle_client_binary_frame(t, p);
                NotifyAction::Nothing
            },
        }
    }
}

/// Everything observable about a client is as it was (its buffers and fields
/// compared by value and by view).
pub open spec fn client_view_unchanged(a: Client, b: Client) -> bool {
    &&& identity_unchanged(a, b)
    &&& b.state == a.state
    &&& b.inbound@ == a.inbound@
    &&& b.outbound@ == a.outbound@
    &&& b.peer_key == a.peer_key
}

/// Filtering changes nothing when every element satisfies the predicate.
proof fn lemma_filter_all_true(s: Seq<Client>, pred: spec_fn(Client) -> bool)
    requires
        forall|i: int| 0 <= i < s.len() ==> pred(#[trigger] s[i]),
    ensures
        s.filter(pred) == s,
    decreases s.len(),
{
    reveal(Seq::filter);
    if s.len() == 0 {
        assert(s.filter(pred) =~= s);
    } else {
        lemma_filter_all_true(s.drop_last(), pred);
        assert(s.drop_last().filter(pred).push(s.last()) =~= s);
    }
}

/// Removing the index of the only entry bearing `t` is filtering `t` out.
proof fn lemma_remove_is_filter(s: Seq<Client>, i: int, t: u64)
    requires
        0 <= i < s.len(),
        s[i].token == t,
        forall|j: int| 0 <= j < s.len() && j != i ==> s[j].token != t,
    ensures
        s.remove(i) == remove_token(s, t),
{
    let pred = |c: Client| c.token != t;
    let front = s.subrange(0, i);
    let middle = s.subrange(i, i + 1);
    let back = s.subrange(i + 1, s.len() as int);
    assert(s =~= front + middle + back);
    Seq::filter_distributes_over_add(front + middle, back, pred);
    Seq::filter_distributes_over_add(front, middle, pred);
    lemma_filter_all_true(front, pred);
    lemma_filter_all_true(back, pred);
    reveal_with_fuel(Seq::filter, 3);
    assert(middle.drop_last() =~= Seq::<Client>::empty());
    assert(middle.filter(pred) =~= Seq::<Client>::empty());
    assert((front + middle + back).filter(pred) == front + back);
    assert(s.remove(i) =~= front + back);
}

/// Close idempotence: one close removes every entry bearing the token; a
/// second close for the same token finds nothing and changes nothing.
pub proof fn lemma_close_idempotent(s: Seq<Client>, t: u64)
    ensures
        !has_token(remove_token(s, t), t),
        remove_token(remove_token(s, t), t) == remove_token(s, t),
{
    let pred = |c: Client| c.token != t;
    let filtered = s.filter(pred);
    assert forall|i: int| 0 <= i < filtered.len() implies #[trigger] filtered[i].token != t by {
        s.lemma_filter_pred(pred, i);
    }
    lemma_filter_all_true(filtered, pred);
}

} // verus!
