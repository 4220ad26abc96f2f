//! The broker: the single registry that maps each live connection to its
//! outbound channel and its room, and that arbitrates every delivery.
//!
//! All observable behaviour is pinned by ghost transition functions over
//! [`LobbyModel`]: [`spec_register`], [`spec_deregister`] and [`spec_route`].
//! Each executable operation ensures that the new registry state is exactly
//! the corresponding transition applied to the old state.

use vstd::prelude::*;
use crate::messages::{Envelope, WsMessage, is_direct, direct_target_id};

verus! {

/// Ghost model of one outbound channel: every frame pushed so far, oldest
/// first, and whether the receiving side is gone. A push to a closed channel
/// is dropped.
pub struct ChannelModel {
    pub frames: Seq<Seq<char>>,
    pub closed: bool,
}

/// Ghost model of one live connection's registry entry.
pub struct SessionModel {
    pub room: u128,
    pub name: Seq<char>,
    pub chan: ChannelModel,
}

/// Ghost model of the whole registry: connection identity to session entry.
/// A room exists exactly while some session sits in it.
pub struct LobbyModel {
    pub sessions: Map<u128, SessionModel>,
}

/// The capability through which the lobby pushes text frames to exactly one
/// connection actor. The lobby holds it inside the registry entry; the
/// owning actor drains it.
pub struct OutboundChannel {
    frames: Vec<WsMessage>,
    closed: bool,
}

pub open spec fn frames_view(fs: Seq<WsMessage>) -> Seq<Seq<char>> {
    fs.map_values(|m: WsMessage| m@)
}

impl View for OutboundChannel {
    type V = ChannelModel;

    closed spec fn view(&self) -> ChannelModel {
        ChannelModel { frames: frames_view(self.frames@), closed: self.closed }
    }
}

/// Pushing onto a channel: dropped when the receiver is gone.
pub open spec fn spec_push(c: ChannelModel, t: Seq<char>) -> ChannelModel {
    if c.closed {
        c
    } else {
        ChannelModel { frames: c.frames.push(t), closed: c.closed }
    }
}

impl OutboundChannel {
    /// A fresh channel: open, nothing pushed yet.
    pub fn new() -> (c: Self)
        ensures
            c@.frames == Seq::<Seq<char>>::empty(),
            !c@.closed,
    {
        let c = OutboundChannel { frames: Vec::new(), closed: false };
        proof {
            assert(c@.frames =~= Seq::<Seq<char>>::empty());
        }
        c
    }

    /// Marks the receiving side gone; later pushes are dropped.
    pub fn close(&mut self)
        ensures
            final(self)@ == (ChannelModel { closed: true, ..old(self)@ }),
    {
        self.closed = true;
    }

    /// Pushes one frame, unless the channel is closed.
    fn push(&mut self, text: &String)
        ensures
            final(self)@ == spec_push(old(self)@, text@),
    {
        if !self.closed {
            self.frames.push(WsMessage(text.clone()));
            proof {
                assert(frames_view(self.frames@) =~= old(self)@.frames.push(text@));
            }
        }
    }

    /// Hands out every pushed frame, oldest first, leaving the channel empty.
    pub fn drain(&mut self) -> (r: Vec<WsMessage>)
        ensures
            frames_view(r@) == old(self)@.frames,
            final(self)@ == (ChannelModel { frames: Seq::<Seq<char>>::empty(), ..old(self)@ }),
    {
        let mut out: Vec<WsMessage> = Vec::new();
        core::mem::swap(&mut out, &mut self.frames);
        proof {
            assert(frames_view(self.frames@) =~= Seq::<Seq<char>>::empty());
        }
        out
    }
}

/// One registry entry: a connection, the room it joined, the label used in
/// notices, and the channel the lobby pushes through.
struct Session {
    conn: u128,
    room: u128,
    name: String,
    chan: OutboundChannel,
}

impl View for Session {
    type V = SessionModel;

    closed spec fn view(&self) -> SessionModel {
        SessionModel { room: self.room, name: self.name@, chan: self.chan@ }
    }
}

/// The broker. Registration and room-join are one atomic step, so the room
/// tables of the model are derived: a connection is a member of exactly the
/// room recorded in its session entry.
pub struct Lobby {
    sessions: Vec<Session>,
}

spec fn unique_conns(ss: Seq<Session>) -> bool {
    forall|i: int, j: int| 0 <= i < j < ss.len() ==> ss[i].conn != ss[j].conn
}

spec fn sessions_map(ss: Seq<Session>) -> Map<u128, SessionModel>
    decreases ss.len(),
{
    if ss.len() == 0 {
        Map::empty()
    } else {
        sessions_map(ss.drop_last()).insert(ss.last().conn, ss.last()@)
    }
}

impl View for Lobby {
    type V = LobbyModel;

    closed spec fn view(&self) -> LobbyModel {
        LobbyModel { sessions: sessions_map(self.sessions@) }
    }
}

proof fn lemma_map_contains(ss: Seq<Session>, c: u128)
    ensures
        sessions_map(ss).contains_key(c) <==> exists|i: int| 0 <= i < ss.len() && ss[i].conn == c,
    decreases ss.len(),
{
    if ss.len() > 0 {
        lemma_map_contains(ss.drop_last(), c);
        if ss.last().conn == c {
            assert(ss[ss.len() - 1].conn == c);
        } else if sessions_map(ss).contains_key(c) {
            let i = choose|i: int| 0 <= i < ss.drop_last().len() && ss.drop_last()[i].conn == c;
            assert(ss[i].conn == c);
        } else if exists|i: int| 0 <= i < ss.len() && ss[i].conn == c {
            let i = choose|i: int| 0 <= i < ss.len() && ss[i].conn == c;
            assert(ss.drop_last()[i].conn == c);
        }
    }
}

proof fn lemma_map_index(ss: Seq<Session>, i: int)
    requires
        unique_conns(ss),
        0 <= i < ss.len(),
    ensures
        sessions_map(ss).contains_key(ss[i].conn),
        sessions_map(ss)[ss[i].conn] == ss[i]@,
    decreases ss.len(),
{
    if i < ss.len() - 1 {
        assert(unique_conns(ss.drop_last()));
        lemma_map_index(ss.drop_last(), i);
        assert(ss.drop_last()[i] == ss[i]);
        assert(ss.last().conn != ss[i].conn);
    }
}

proof fn lemma_map_push(ss: Seq<Session>, s: Session)
    ensures
        sessions_map(ss.push(s)) == sessions_map(ss).insert(s.conn, s@),
{
    assert(ss.push(s).drop_last() =~= ss);
    assert(ss.push(s).last() == s);
}

proof fn lemma_map_update(ss: Seq<Session>, i: int, s: Session)
    requires
        unique_conns(ss),
        0 <= i < ss.len(),
        s.conn == ss[i].conn,
    ensures
        sessions_map(ss.update(i, s)) == sessions_map(ss).insert(s.conn, s@),
    decreases ss.len(),
{
    let up = ss.update(i, s);
    if i == ss.len() - 1 {
        assert(up.drop_last() =~= ss.drop_last());
        assert(up.last() == s);
        assert(sessions_map(ss.drop_last()).insert(s.conn, s@) =~= sessions_map(
            ss.drop_last(),
        ).insert(ss.last().conn, ss.last()@).insert(s.conn, s@));
    } else {
        assert(unique_conns(ss.drop_last()));
        assert(up.drop_last() =~= ss.drop_last().update(i, s));
        lemma_map_update(ss.drop_last(), i, s);
        assert(up.last() == ss.last());
        assert(ss.drop_last()[i] == ss[i]);
        assert(ss.last().conn != s.conn);
        assert(sessions_map(ss.drop_last()).insert(s.conn, s@).insert(ss.last().conn, ss.last()@)
            =~= sessions_map(ss.drop_last()).insert(ss.last().conn, ss.last()@).insert(
            s.conn,
            s@,
        ));
    }
}

proof fn lemma_map_remove(ss: Seq<Session>, i: int)
    requires
        unique_conns(ss),
        0 <= i < ss.len(),
    ensures
        sessions_map(ss.remove(i)) == sessions_map(ss).remove(ss[i].conn),
    decreases ss.len(),
{
    let c = ss[i].conn;
    if i == ss.len() - 1 {
        assert(ss.remove(i) =~= ss.drop_last());
        lemma_map_contains(ss.drop_last(), c);
        assert(forall|j: int|
            0 <= j < ss.drop_last().len() ==> ss.drop_last()[j] == ss[j] && ss[j].conn != c);
        assert(!sessions_map(ss.drop_last()).contains_key(c));
        assert(sessions_map(ss.drop_last()) =~= sessions_map(ss.drop_last()).insert(
            c,
            ss.last()@,
        ).remove(c));
    } else {
        assert(unique_conns(ss.drop_last()));
        assert(ss.remove(i).drop_last() =~= ss.drop_last().remove(i));
        assert(ss.remove(i).last() == ss.last());
        lemma_map_remove(ss.drop_last(), i);
        assert(ss.drop_last()[i] == ss[i]);
        assert(ss.last().conn != c);
        assert(sessions_map(ss.drop_last()).remove(c).insert(ss.last().conn, ss.last()@)
            =~= sessions_map(ss.drop_last()).insert(ss.last().conn, ss.last()@).remove(c));
    }
}

/// The system notice sent to the members a connection joins.
pub open spec fn join_notice(name: Seq<char>) -> Seq<char> {
    name + " just joined!"@
}

/// The welcome notice pushed to the joining connection itself.
pub open spec fn welcome_notice(name: Seq<char>) -> Seq<char> {
    "Welcome "@ + name + "!"@
}

/// The system notice sent to the members a connection leaves behind.
pub open spec fn left_notice(name: Seq<char>) -> Seq<char> {
    name + " disconnected."@
}

fn join_notice_line(name: &String) -> (r: String)
    ensures
        r@ == join_notice(name@),
{
    let mut t = name.clone();
    t.append(" just joined!");
    t
}

fn welcome_notice_line(name: &String) -> (r: String)
    ensures
        r@ == welcome_notice(name@),
{
    let mut t = String::from_str("Welcome ");
    t.append(name.as_str());
    t.append("!");
    t
}

fn left_notice_line(name: &String) -> (r: String)
    ensures
        r@ == left_notice(name@),
{
    let mut t = name.clone();
    t.append(" disconnected.");
    t
}

/// Delivery of one frame to every current member of `room` at once: each
/// member's channel gets the frame (unless closed); every other session is
/// untouched. Membership itself never changes here.
pub open spec fn spec_notify_room(m: LobbyModel, room: u128, t: Seq<char>) -> LobbyModel {
    LobbyModel {
        sessions: Map::new(
            |c: u128| m.sessions.contains_key(c),
            |c: u128|
                if m.sessions[c].room == room {
                    (SessionModel { chan: spec_push(m.sessions[c].chan, t), ..m.sessions[c] })
                } else {
                    m.sessions[c]
                },
        ),
    }
}

/// Registration, with room-join as part of the same atomic step. A
/// connection that was already registered is silently superseded: the old
/// entry (and with it the old room membership) goes away without any notice.
/// Every other current member of `room` is sent the join notice, and the
/// joining connection's own channel then gets the welcome notice.
pub open spec fn spec_register(
    m: LobbyModel,
    conn: u128,
    room: u128,
    name: Seq<char>,
    ch: ChannelModel,
) -> LobbyModel {
    let m1 = LobbyModel { sessions: m.sessions.remove(conn) };
    let m2 = spec_notify_room(m1, room, join_notice(name));
    LobbyModel {
        sessions: m2.sessions.insert(
            conn,
            (SessionModel { room, name, chan: spec_push(ch, welcome_notice(name)) }),
        ),
    }
}

/// Deregistration. Unknown connections are a no-op; otherwise the entry is
/// removed and the members remaining in its room are sent the left notice
/// (so the sole member of a room leaves without any notice being sent).
pub open spec fn spec_deregister(m: LobbyModel, conn: u128) -> LobbyModel {
    if m.sessions.contains_key(conn) {
        spec_notify_room(
            LobbyModel { sessions: m.sessions.remove(conn) },
            m.sessions[conn].room,
            left_notice(m.sessions[conn].name),
        )
    } else {
        m
    }
}

/// Routing one envelope: a line carrying the `\w` directive goes to the
/// connection its token names (and is dropped when the token is missing,
/// malformed or unregistered); any other line is broadcast to every member
/// of `room`, the sender included.
pub open spec fn spec_route(m: LobbyModel, room: u128, text: Seq<char>) -> LobbyModel {
    if is_direct(text) {
        match direct_target_id(text) {
            Some(t) => spec_send(m, t, text),
            None => m,
        }
    } else {
        spec_notify_room(m, room, text)
    }
}

/// Delivery to one connection: its channel gets the frame (unless closed);
/// an unregistered target makes the whole operation a no-op.
pub open spec fn spec_send(m: LobbyModel, to: u128, t: Seq<char>) -> LobbyModel {
    if m.sessions.contains_key(to) {
        LobbyModel {
            sessions: m.sessions.insert(
                to,
                (SessionModel { chan: spec_push(m.sessions[to].chan, t), ..m.sessions[to] }),
            ),
        }
    } else {
        m
    }
}

impl Lobby {
    /// Whether every registry entry names a distinct connection.
    pub closed spec fn wf(&self) -> bool {
        unique_conns(self.sessions@)
    }

    /// An empty lobby: no sessions, hence no rooms.
    pub fn new() -> (l: Self)
        ensures
            l.wf(),
            l@.sessions == Map::<u128, SessionModel>::empty(),
    {
        let l = Lobby { sessions: Vec::new() };
        proof {
            assert(l@.sessions =~= Map::<u128, SessionModel>::empty());
        }
        l
    }

    fn find_index(&self, conn: u128) -> (r: Option<usize>)
        requires
            self.wf(),
        ensures
            r is Some <==> self@.sessions.contains_key(conn),
            r is Some ==> r->0 < self.sessions@.len() && self.sessions@[r->0 as int].conn == conn,
    {
        let n = self.sessions.len();
        let mut i: usize = 0;
        while i < n
            invariant
                i <= n,
                n == self.sessions@.len(),
                forall|k: int| 0 <= k < i ==> self.sessions@[k].conn != conn,
            decreases n - i,
        {
            if self.sessions[i].conn == conn {
                proof {
                    lemma_map_contains(self.sessions@, conn);
                }
                return Some(i);
            }
            i += 1;
        }
        proof {
            lemma_map_contains(self.sessions@, conn);
        }
        None
    }

    /// Pushes `message` to the channel of `id_to`, if that connection is
    /// registered; otherwise the message is dropped.
    fn send_message(&mut self, message: &String, id_to: u128)
        requires
            old(self).wf(),
        ensures
            final(self).wf(),
            final(self)@ == spec_send(old(self)@, id_to, message@),
    {
        let ghost ss0 = self.sessions@;
        match self.find_index(id_to) {
            Some(i) => {
                self.sessions[i].chan.push(message);
                proof {
                    let s2 = self.sessions@[i as int];
                    assert(s2.conn == id_to && s2.room == ss0[i as int].room && s2.name@
                        == ss0[i as int].name@);
                    assert(s2@ == (SessionModel {
                        chan: spec_push(ss0[i as int]@.chan, message@),
                        ..ss0[i as int]@
                    }));
                    assert(unique_conns(self.sessions@));
                    lemma_map_update(ss0, i as int, s2);
                    assert(self.sessions@ =~= ss0.update(i as int, s2));
                    lemma_map_index(ss0, i as int);
                }
            },
            None => {},
        }
    }

    /// Pushes `text` to every current member of `room` in one pass.
    fn notify_room(&mut self, room: u128, text: &String)
        requires
            old(self).wf(),
        ensures
            final(self).wf(),
            final(self)@ == spec_notify_room(old(self)@, room, text@),
    {
        let ghost ss0 = self.sessions@;
        let ghost m0 = self@;
        let n = self.sessions.len();
        let mut j: usize = 0;
        while j < n
            invariant
                j <= n,
                n == self.sessions@.len(),
                ss0.len() == n,
                forall|k: int|
                    0 <= k < n ==> (#[trigger] self.sessions@[k]).conn == ss0[k].conn,
                forall|k: int| j <= k < n ==> self.sessions@[k] == ss0[k],
                forall|k: int|
                    0 <= k < j ==> (#[trigger] self.sessions@[k])@ == (if ss0[k]@.room == room {
                        (SessionModel { chan: spec_push(ss0[k]@.chan, text@), ..ss0[k]@ })
                    } else {
                        ss0[k]@
                    }),
            decreases n - j,
        {
            if self.sessions[j].room == room {
                self.sessions[j].chan.push(text);
            }
            j += 1;
        }
        proof {
            assert(unique_conns(self.sessions@));
            let cur = self.sessions@;
            let target = spec_notify_room(m0, room, text@).sessions;
            assert forall|c: u128| sessions_map(cur).contains_key(c) == target.contains_key(
                c,
            ) by {
                lemma_map_contains(cur, c);
                lemma_map_contains(ss0, c);
                if sessions_map(cur).contains_key(c) {
                    let i = choose|i: int| 0 <= i < cur.len() && cur[i].conn == c;
                    assert(ss0[i].conn == c);
                }
                if sessions_map(ss0).contains_key(c) {
                    let i = choose|i: int| 0 <= i < ss0.len() && ss0[i].conn == c;
                    assert(cur[i].conn == c);
                }
            }
            assert forall|c: u128| #[trigger]
                sessions_map(cur).contains_key(c) implies sessions_map(cur)[c] == target[c] by {
                lemma_map_contains(cur, c);
                let i = choose|i: int| 0 <= i < cur.len() && cur[i].conn == c;
                lemma_map_index(cur, i);
                lemma_map_index(ss0, i);
            }
            assert(sessions_map(cur) =~= target);
        }
    }

    /// Registers a connection into `room` under the label `name`, handing
    /// the lobby the send half of its outbound channel. The other members of
    /// the room are notified before the newcomer's own welcome notice is
    /// pushed; an existing entry for the same connection is silently
    /// replaced (reconnect supersedes the old registration).
    pub fn register(&mut self, conn: u128, room: u128, name: String, chan: OutboundChannel)
        requires
            old(self).wf(),
        ensures
            final(self).wf(),
            final(self)@ == spec_register(old(self)@, conn, room, name@, chan@),
    {
        let ghost m0 = self@;
        let ghost ss0 = self.sessions@;
        match self.find_index(conn) {
            Some(i) => {
                self.sessions.remove(i);
                proof {
                    lemma_map_remove(ss0, i as int);
                    assert(unique_conns(self.sessions@));
                }
            },
            None => {
                proof {
                    assert(self@.sessions =~= m0.sessions.remove(conn));
                }
            },
        }
        proof {
            assert(self@.sessions =~= m0.sessions.remove(conn));
            lemma_map_contains(self.sessions@, conn);
        }
        let notice = join_notice_line(&name);
        self.notify_room(room, &notice);
        let mut chan2 = chan;
        let welcome = welcome_notice_line(&name);
        chan2.push(&welcome);
        let ghost ss1 = self.sessions@;
        proof {
            lemma_map_contains(ss1, conn);
        }
        self.sessions.push(Session { conn, room, name, chan: chan2 });
        proof {
            lemma_map_push(ss1, self.sessions@.last());
            assert(unique_conns(self.sessions@));
            assert(self@.sessions =~= spec_register(m0, conn, room, self.sessions@.last().name@,
                chan@).sessions);
        }
    }

    /// Removes a connection's entry, notifying the members remaining in its
    /// room. A connection with no entry is a no-op: nothing changes and no
    /// notice is sent. The room identity a departing actor hands over always
    /// matches its registered room; registration and room-join being one
    /// atomic step, that is an invariant of the design, stated here as a
    /// precondition.
    pub fn deregister(&mut self, conn: u128, room_id: u128)
        requires
            old(self).wf(),
            old(self)@.sessions.contains_key(conn) ==> old(self)@.sessions[conn].room == room_id,
        ensures
            final(self).wf(),
            final(self)@ == spec_deregister(old(self)@, conn),
    {
        let ghost m0 = self@;
        let ghost ss0 = self.sessions@;
        match self.find_index(conn) {
            Some(i) => {
                let sess = self.sessions.remove(i);
                proof {
                    lemma_map_remove(ss0, i as int);
                    lemma_map_index(ss0, i as int);
                    assert(unique_conns(self.sessions@));
                    assert(sess@ == m0.sessions[conn]);
                }
                let notice = left_notice_line(&sess.name);
                self.notify_room(sess.room, &notice);
            },
            None => {},
        }
    }

    /// Routes one envelope as [`spec_route`] says: direct lines to the
    /// connection their token names, everything else broadcast to every
    /// member of the envelope's room, the sender included.
    pub fn route(&mut self, env: &Envelope)
        requires
            old(self).wf(),
        ensures
            final(self).wf(),
            final(self)@ == spec_route(old(self)@, env.room_id, env.msg@),
    {
        if crate::messages::is_direct_line(env.msg.as_str()) {
            match crate::messages::direct_target_conn(env.msg.as_str()) {
                Some(target) => self.send_message(&env.msg, target),
                None => {},
            }
        } else {
            self.notify_room(env.room_id, &env.msg);
        }
    }

    /// Whether a connection currently has a session entry.
    pub fn is_registered(&self, conn: u128) -> (r: bool)
        requires
            self.wf(),
        ensures
            r == self@.sessions.contains_key(conn),
    {
        self.find_index(conn).is_some()
    }

    /// The members of `room`, one entry per connection, in registry order.
    /// The room exists exactly while this is non-empty.
    pub fn room_members(&self, room: u128) -> (r: Vec<u128>)
        requires
            self.wf(),
        ensures
            r@.no_duplicates(),
            forall|c: u128| #[trigger]
                r@.contains(c) <==> (self@.sessions.contains_key(c) && self@.sessions[c].room
                    == room),
    {
        let n = self.sessions.len();
        let mut out: Vec<u128> = Vec::new();
        let mut i: usize = 0;
        while i < n
            invariant
                i <= n,
                n == self.sessions@.len(),
                self.wf(),
                out@.no_duplicates(),
                forall|c: u128| #[trigger]
                    out@.contains(c) <==> exists|k: int|
                        0 <= k < i && self.sessions@[k].conn == c && self.sessions@[k].room
                            == room,
            decreases n - i,
        {
            let ghost out0 = out@;
            let ghost e = self.sessions@[i as int].conn;
            if self.sessions[i].room == room {
                proof {
                    if out0.contains(e) {
                        let k = choose|k: int|
                            0 <= k < i && self.sessions@[k].conn == e && self.sessions@[k].room
                                == room;
                        assert(self.sessions@[k].conn == self.sessions@[i as int].conn);
                        assert(false);
                    }
                }
                out.push(self.sessions[i].conn);
                proof {
                    assert(out@ == out0.push(e));
                    assert(out@[out@.len() - 1] == e);
                    assert forall|p: int, q: int|
                        0 <= p < q < out@.len() implies out@[p] != out@[q] by {
                        if q == out@.len() - 1 {
                            assert(out@[p] == out0[p]);
                            if out0[p] == e {
                                assert(out0.contains(e));
                            }
                        }
                    }
                    assert(out@.no_duplicates());
                    assert forall|c: u128| #[trigger] out@.contains(c) implies exists|k: int|
                        0 <= k < i + 1 && self.sessions@[k].conn == c && self.sessions@[k].room
                            == room by {
                        let k0 = choose|k0: int| 0 <= k0 < out@.len() && out@[k0] == c;
                        if k0 < out@.len() - 1 {
                            assert(out0[k0] == c);
                            assert(out0.contains(c));
                        } else {
                            assert(self.sessions@[i as int].conn == c && self.sessions@[
                                i as int].room == room);
                        }
                    }
                    assert forall|c: u128|
                        (exists|k: int|
                            0 <= k < i + 1 && self.sessions@[k].conn == c && self.sessions@[k].room
                                == room) implies #[trigger] out@.contains(c) by {
                        let k = choose|k: int|
                            0 <= k < i + 1 && self.sessions@[k].conn == c && self.sessions@[k].room
                                == room;
                        if k < i {
                            assert(out0.contains(c));
                            let k0 = choose|k0: int| 0 <= k0 < out0.len() && out0[k0] == c;
                            assert(out@[k0] == c);
                        } else {
                            assert(out@[out@.len() - 1] == c);
                        }
                    }
                }
            } else {
                proof {
                    assert forall|c: u128|
                        (exists|k: int|
                            0 <= k < i + 1 && self.sessions@[k].conn == c && self.sessions@[k].room
                                == room) implies #[trigger] out@.contains(c) by {
                        let k = choose|k: int|
                            0 <= k < i + 1 && self.sessions@[k].conn == c && self.sessions@[k].room
                                == room;
                        assert(0 <= k < i);
                    }
                }
            }
            i += 1;
        }
        proof {
            assert forall|c: u128| #[trigger] out@.contains(c) implies (
            self@.sessions.contains_key(c) && self@.sessions[c].room == room) by {
                let k = choose|k: int|
                    0 <= k < n && self.sessions@[k].conn == c && self.sessions@[k].room == room;
                lemma_map_index(self.sessions@, k);
            }
            assert forall|c: u128|
                self@.sessions.contains_key(c) && self@.sessions[c].room
                    == room implies #[trigger] out@.contains(c) by {
                lemma_map_contains(self.sessions@, c);
                let k = choose|k: int| 0 <= k < n && self.sessions@[k].conn == c;
                lemma_map_index(self.sessions@, k);
            }
        }
        out
    }

    /// Drains every frame so far pushed to `conn`'s channel, oldest first.
    /// The entry itself stays; an unregistered connection yields nothing.
    pub fn drain_frames(&mut self, conn: u128) -> (r: Vec<WsMessage>)
        requires
            old(self).wf(),
        ensures
            final(self).wf(),
            old(self)@.sessions.contains_key(conn) ==> frames_view(r@) == old(
                self,
            )@.sessions[conn].chan.frames && final(self)@ == (LobbyModel {
                sessions: old(self)@.sessions.insert(
                    conn,
                    (SessionModel {
                        chan: (ChannelModel {
                            frames: Seq::<Seq<char>>::empty(),
                            ..old(self)@.sessions[conn].chan
                        }),
                        ..old(self)@.sessions[conn]
                    }),
                ),
            }),
            !old(self)@.sessions.contains_key(conn) ==> r@.len() == 0 && final(self)@ == old(
                self,
            )@,
    {
        let ghost ss0 = self.sessions@;
        match self.find_index(conn) {
            Some(i) => {
                let r = self.sessions[i].chan.drain();
                proof {
                    let s2 = self.sessions@[i as int];
                    assert(s2.conn == conn);
                    lemma_map_update(ss0, i as int, s2);
                    assert(self.sessions@ =~= ss0.update(i as int, s2));
                    lemma_map_index(ss0, i as int);
                    assert(unique_conns(self.sessions@));
                }
                r
            },
            None => Vec::new(),
        }
    }
}

/// The member set of a room: exactly the registered connections whose entry
/// records that room. A room is occupied (exists) iff this set is non-empty.
pub open spec fn spec_room(m: LobbyModel, room: u128) -> Set<u128> {
    m.sessions.dom().filter(|c: u128| m.sessions[c].room == room)
}

/// Registering moves the connection into `room` and out of any room its
/// superseded entry sat in: the target room's member set gains exactly the
/// connection, and every other room's set loses it (a no-op unless a
/// superseded entry sat there).
pub proof fn lemma_register_membership(
    m: LobbyModel,
    conn: u128,
    room: u128,
    name: Seq<char>,
    ch: ChannelModel,
)
    ensures
        spec_room(spec_register(m, conn, room, name, ch), room) =~= spec_room(m, room).insert(
            conn,
        ),
        forall|r2: u128|
            r2 != room ==> #[trigger] spec_room(spec_register(m, conn, room, name, ch), r2)
                =~= spec_room(m, r2).remove(conn),
{
}

/// Deregistering removes the connection from every room's member set: from
/// the room its entry recorded, and vacuously from all others. An unknown
/// connection changes nothing.
pub proof fn lemma_deregister_membership(m: LobbyModel, conn: u128)
    ensures
        forall|r2: u128| #[trigger]
            spec_room(spec_deregister(m, conn), r2) =~= spec_room(m, r2).remove(conn),
{
}

/// Routing never changes any room's membership, whatever the line says.
pub proof fn lemma_route_membership(m: LobbyModel, room: u128, text: Seq<char>)
    ensures
        forall|r2: u128| #[trigger]
            spec_room(spec_route(m, room, text), r2) =~= spec_room(m, r2),
{
}

/// A deregister for a connection with no session entry is a no-op: the
/// registry is exactly as before, so in particular no notice is sent.
pub proof fn lemma_deregister_unknown_noop(m: LobbyModel, conn: u128)
    requires
        !m.sessions.contains_key(conn),
    ensures
        spec_deregister(m, conn) == m,
{
}

/// One membership-changing command on a single room.
pub enum RoomCmd {
    Register(u128),
    Deregister(u128),
}

/// The member set a sequence of commands leaves behind, starting from an
/// empty room: each register inserts its connection, each deregister removes
/// it (a removal of an absent connection being a no-op).
pub open spec fn apply_cmds(s: Seq<RoomCmd>) -> Set<u128>
    decreases s.len(),
{
    if s.len() == 0 {
        Set::empty()
    } else {
        match s.last() {
            RoomCmd::Register(c) => apply_cmds(s.drop_last()).insert(c),
            RoomCmd::Deregister(c) => apply_cmds(s.drop_last()).remove(c),
        }
    }
}

/// A connection whose registration is still outstanding: some register of it
/// is not followed by any deregister of it.
pub open spec fn outstanding(s: Seq<RoomCmd>, c: u128) -> bool {
    exists|i: int|
        0 <= i < s.len() && s[i] == RoomCmd::Register(c) && (forall|j: int|
            i < j < s.len() ==> s[j] != RoomCmd::Deregister(c))
}

/// For every sequence of register/deregister commands on a room, the member
/// set is finite and holds exactly the connections whose registrations are
/// still outstanding; its size is that count, and a set size never goes
/// negative. Together with [`lemma_register_membership`] and
/// [`lemma_deregister_membership`], which say that each broker operation
/// changes the member sets exactly as the corresponding command does, this
/// pins the membership count of any room under any operation sequence.
pub proof fn lemma_membership_count(s: Seq<RoomCmd>)
    ensures
        apply_cmds(s).finite(),
        apply_cmds(s) =~= Set::new(|c: u128| outstanding(s, c)),
    decreases s.len(),
{
    if s.len() == 0 {
        assert forall|c: u128| !outstanding(s, c) by {}
    } else {
        let dl = s.drop_last();
        lemma_membership_count(dl);
        match s.last() {
            RoomCmd::Register(c0) => {
                assert forall|c: u128| outstanding(s, c) == apply_cmds(dl).insert(c0).contains(
                    c,
                ) by {
                    if c == c0 {
                        assert(s[s.len() - 1] == RoomCmd::Register(c0));
                        assert(outstanding(s, c0));
                    } else {
                        if outstanding(s, c) {
                            let i = choose|i: int|
                                0 <= i < s.len() && s[i] == RoomCmd::Register(c) && (forall|j: int|
                                    i < j < s.len() ==> s[j] != RoomCmd::Deregister(c));
                            assert(i < s.len() - 1);
                            assert(dl[i] == s[i]);
                            assert(outstanding(dl, c));
                        }
                        if outstanding(dl, c) {
                            let i = choose|i: int|
                                0 <= i < dl.len() && dl[i] == RoomCmd::Register(c) && (forall|
                                    j: int,
                                |
                                    i < j < dl.len() ==> dl[j] != RoomCmd::Deregister(c));
                            assert(s[i] == RoomCmd::Register(c));
                            assert forall|j: int|
                                i < j < s.len() implies s[j] != RoomCmd::Deregister(c) by {
                                if j < s.len() - 1 {
                                    assert(dl[j] == s[j]);
                                }
                            }
                            assert(outstanding(s, c));
                        }
                        assert(apply_cmds(dl).insert(c0).contains(c) == apply_cmds(dl).contains(
                            c,
                        ));
                    }
                }
            },
            RoomCmd::Deregister(c0) => {
                assert forall|c: u128| outstanding(s, c) == apply_cmds(dl).remove(c0).contains(
                    c,
                ) by {
                    if c == c0 {
                        if outstanding(s, c0) {
                            let i = choose|i: int|
                                0 <= i < s.len() && s[i] == RoomCmd::Register(c0) && (forall|
                                    j: int,
                                |
                                    i < j < s.len() ==> s[j] != RoomCmd::Deregister(c0));
                            assert(i < s.len() - 1);
                            assert(s[s.len() - 1] != RoomCmd::Deregister(c0));
                            assert(false);
                        }
                    } else {
                        if outstanding(s, c) {
                            let i = choose|i: int|
                                0 <= i < s.len() && s[i] == RoomCmd::Register(c) && (forall|j: int|
                                    i < j < s.len() ==> s[j] != RoomCmd::Deregister(c));
                            assert(i < s.len() - 1);
                            assert(dl[i] == s[i]);
                            assert(outstanding(dl, c));
                        }
                        if outstanding(dl, c) {
                            let i = choose|i: int|
                                0 <= i < dl.len() && dl[i] == RoomCmd::Register(c) && (forall|
                                    j: int,
                                |
                                    i < j < dl.len() ==> dl[j] != RoomCmd::Deregister(c));
                            assert(s[i] == RoomCmd::Register(c));
                            assert forall|j: int|
                                i < j < s.len() implies s[j] != RoomCmd::Deregister(c) by {
                                if j < s.len() - 1 {
                                    assert(dl[j] == s[j]);
                                }
                            }
                            assert(outstanding(s, c));
                        }
                    }
                }
            },
        }
    }
}

/// When the sole member of a room deregisters, the room is gone: its member
/// set is empty, and nobody else's session (in any room) is touched, so no
/// notice is sent to anyone.
pub proof fn lemma_last_member_leaves(m: LobbyModel, conn: u128, room: u128)
    requires
        m.sessions.contains_key(conn),
        m.sessions[conn].room == room,
        spec_room(m, room) =~= set![conn],
    ensures
        spec_room(spec_deregister(m, conn), room) =~= Set::<u128>::empty(),
        forall|c: u128|
            c != conn && #[trigger] m.sessions.contains_key(c) ==> spec_deregister(
                m,
                conn,
            ).sessions.contains_key(c) && spec_deregister(m, conn).sessions[c] == m.sessions[c],
{
    lemma_deregister_membership(m, conn);
    assert forall|c: u128|
        c != conn && #[trigger] m.sessions.contains_key(c) implies spec_deregister(
        m,
        conn,
    ).sessions.contains_key(c) && spec_deregister(m, conn).sessions[c] == m.sessions[c] by {
        if m.sessions[c].room == room {
            assert(spec_room(m, room).contains(c));
        }
    }
}

/// A broadcast to a room with no members changes nothing: zero recipients,
/// no error.
pub proof fn lemma_broadcast_empty_room(m: LobbyModel, room: u128, text: Seq<char>)
    requires
        !is_direct(text),
        spec_room(m, room) =~= Set::<u128>::empty(),
    ensures
        spec_route(m, room, text) == m,
{
    assert forall|c: u128| #[trigger]
        m.sessions.contains_key(c) implies spec_route(m, room, text).sessions[c]
        == m.sessions[c] by {
        if m.sessions[c].room == room {
            assert(spec_room(m, room).contains(c));
        }
    }
    assert(spec_route(m, room, text).sessions =~= m.sessions);
}

/// When a connection joins a room already holding an (open-channelled)
/// member, that member receives the join notice before any line broadcast
/// afterwards: its channel ends with exactly the notice and then the line.
pub proof fn lemma_join_notice_precedes_broadcast(
    m: LobbyModel,
    a: u128,
    b: u128,
    room: u128,
    name: Seq<char>,
    ch: ChannelModel,
    text: Seq<char>,
)
    requires
        a != b,
        m.sessions.contains_key(a),
        m.sessions[a].room == room,
        !m.sessions[a].chan.closed,
        !is_direct(text),
    ensures
        spec_route(spec_register(m, b, room, name, ch), room, text).sessions[a].chan.frames
            =~= m.sessions[a].chan.frames + seq![join_notice(name), text],
{
}

/// A room broadcast (a line without the `\w` directive) reaches every
/// current member of the room, the sender included, and leaves everyone
/// else's session untouched.
pub proof fn lemma_broadcast_echo(m: LobbyModel, room: u128, text: Seq<char>, c: u128)
    requires
        !is_direct(text),
        m.sessions.contains_key(c),
    ensures
        spec_route(m, room, text).sessions.contains_key(c),
        m.sessions[c].room == room && !m.sessions[c].chan.closed ==> spec_route(
            m,
            room,
            text,
        ).sessions[c].chan.frames == m.sessions[c].chan.frames.push(text),
        m.sessions[c].room != room ==> spec_route(m, room, text).sessions[c] == m.sessions[c],
{
}

/// A direct line addressed to a registered connection lands on exactly that
/// connection's channel, verbatim; every other session is untouched.
pub proof fn lemma_direct_delivery(
    m: LobbyModel,
    room: u128,
    text: Seq<char>,
    b: u128,
    c: u128,
)
    requires
        is_direct(text),
        direct_target_id(text) == Some(b),
        m.sessions.contains_key(b),
        !m.sessions[b].chan.closed,
    ensures
        spec_route(m, room, text).sessions[b].chan.frames == m.sessions[b].chan.frames.push(text),
        c != b && m.sessions.contains_key(c) ==> spec_route(m, room, text).sessions[c]
            == m.sessions[c],
{
}

impl Default for Lobby {
    /// By default the lobby is created empty.
    fn default() -> (l: Self)
        ensures
            l.wf(),
            l@.sessions == Map::<u128, SessionModel>::empty(),
    {
        Lobby::new()
    }
}

} // verus!
