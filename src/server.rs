use vstd::prelude::*;

use crate::codec::{decode, read_frame};
use crate::message::{views_of, GameMessage, MessageView, PlayerState};
use crate::ambient::new_player_id;

verus! {

/// What the hub holds, as mathematics.
///
/// `links` is the connection registry: for each admitted session, in order of
/// admission, its player id and the messages queued for delivery to it.
/// `roster` is the player state store: for each player, its id and last known
/// score.
pub struct ServerView {
    pub links: Seq<(Seq<char>, Seq<MessageView>)>,
    pub roster: Seq<(Seq<char>, i32)>,
}

impl ServerView {
    /// A session with this id is registered.
    pub open spec fn has(self, id: Seq<char>) -> bool {
        exists|i: int| 0 <= i < self.links.len() && #[trigger] self.links[i].0 == id
    }

    /// Registry and store list the same ids in the same order, and no id twice.
    pub open spec fn wf(self) -> bool {
        &&& self.links.len() == self.roster.len()
        &&& forall|i: int| 0 <= i < self.links.len() ==> #[trigger] self.roster[i].0 == self.links[i].0
        &&& forall|i: int, j: int|
            0 <= i < self.links.len() && 0 <= j < self.links.len() && i != j ==> #[trigger] self.links[i].0
                != #[trigger] self.links[j].0
    }

    /// Where the session with this id stands (meaningful when `has(id)`).
    pub open spec fn index_of(self, id: Seq<char>) -> int {
        choose|i: int| 0 <= i < self.links.len() && #[trigger] self.links[i].0 == id
    }

    /// The set of ids in the connection registry.
    pub open spec fn registry_keys(self) -> Set<Seq<char>> {
        Set::new(|id: Seq<char>| exists|i: int| 0 <= i < self.links.len() && #[trigger] self.links[i].0 == id)
    }

    /// The set of ids in the player state store.
    pub open spec fn store_keys(self) -> Set<Seq<char>> {
        Set::new(|id: Seq<char>| exists|i: int| 0 <= i < self.roster.len() && #[trigger] self.roster[i].0 == id)
    }
}

/// The most messages a broadcast leaves queued for one recipient.
pub const OUTBOUND_CAPACITY: usize = 1024;

/// One link after `msg` is offered to it: appended unless the link is the
/// excluded one or its queue is full. A full queue drops the newest message,
/// so what a recipient already has queued, and its order, never change.
pub open spec fn offer(
    link: (Seq<char>, Seq<MessageView>),
    msg: MessageView,
    exclude: Option<Seq<char>>,
) -> (Seq<char>, Seq<MessageView>) {
    if exclude == Some(link.0) || link.1.len() >= OUTBOUND_CAPACITY {
        link
    } else {
        (link.0, link.1.push(msg))
    }
}

/// Every link after a broadcast of `msg` that skips `exclude`.
pub open spec fn deliver(
    links: Seq<(Seq<char>, Seq<MessageView>)>,
    msg: MessageView,
    exclude: Option<Seq<char>>,
) -> Seq<(Seq<char>, Seq<MessageView>)> {
    links.map_values(|l: (Seq<char>, Seq<MessageView>)| offer(l, msg, exclude))
}

/// The roster with the score of `id` overwritten (unchanged when `id` is absent).
pub open spec fn with_score(roster: Seq<(Seq<char>, i32)>, id: Seq<char>, score: i32) -> Seq<
    (Seq<char>, i32),
> {
    roster.map_values(
        |p: (Seq<char>, i32)|
            if p.0 == id {
                (id, score)
            } else {
                p
            },
    )
}

/// The state after the session `id` is removed from registry and store (the
/// same state when it is not registered).
pub open spec fn without(v: ServerView, id: Seq<char>) -> ServerView {
    if v.has(id) {
        let i = v.index_of(id);
        ServerView { links: v.links.remove(i), roster: v.roster.remove(i) }
    } else {
        v
    }
}

/// The replay of a roster to a newcomer: one `GameState` per entry, in order.
pub open spec fn replay_of(roster: Seq<(Seq<char>, i32)>) -> Seq<MessageView> {
    roster.map_values(|p: (Seq<char>, i32)| MessageView::GameState { player_id: p.0, score: p.1 })
}

/// What a newcomer `id` finds queued right after its admission: its own
/// `Join`, the replay of the roster taken before it registered, then the
/// broadcast of its `Join`.
pub open spec fn admission_queue(id: Seq<char>, roster: Seq<(Seq<char>, i32)>) -> Seq<MessageView> {
    seq![MessageView::Join { player_id: id }] + replay_of(roster) + seq![
        MessageView::Join { player_id: id },
    ]
}

/// The state after the admission of a new session `id`.
pub open spec fn admitted(v: ServerView, id: Seq<char>) -> ServerView {
    let join = MessageView::Join { player_id: id };
    ServerView {
        links: deliver(v.links, join, None).push((id, admission_queue(id, v.roster))),
        roster: v.roster.push((id, 0)),
    }
}

/// The state after the session `sender` sent the valid message `m`.
pub open spec fn after_message(v: ServerView, sender: Seq<char>, m: MessageView) -> ServerView {
    ServerView {
        links: deliver(v.links, m, Some(sender)),
        roster: match m {
            MessageView::GameState { player_id, score } => with_score(v.roster, player_id, score),
            _ => v.roster,
        },
    }
}

/// The state after the session `id` ended: removed, then its departure
/// broadcast to every remaining session.
pub open spec fn torn_down(v: ServerView, id: Seq<char>) -> ServerView {
    let w = without(v, id);
    ServerView {
        links: deliver(w.links, MessageView::PlayerLeft { player_id: id }, None),
        roster: w.roster,
    }
}

/// The id a broadcast skips, if any.
pub open spec fn opt_id(exclude: Option<&String>) -> Option<Seq<char>> {
    match exclude {
        Some(e) => Some(e@),
        None => None,
    }
}

/// The links after a series of broadcasts, each a message and the id it skips.
pub open spec fn deliver_all(
    links: Seq<(Seq<char>, Seq<MessageView>)>,
    events: Seq<(MessageView, Option<Seq<char>>)>,
) -> Seq<(Seq<char>, Seq<MessageView>)>
    decreases events.len(),
{
    if events.len() == 0 {
        links
    } else {
        deliver(deliver_all(links, events.drop_last()), events.last().0, events.last().1)
    }
}

/// In a well-formed state the connection registry and the player state store
/// have the same set of keys. Every operation of `MultiplayerServer` keeps the
/// state well formed, so the two key sets agree between any two calls.
pub proof fn lemma_registry_matches_store(v: ServerView)
    requires
        v.wf(),
    ensures
        v.registry_keys() == v.store_keys(),
{
    assert forall|id: Seq<char>| v.registry_keys().contains(id) implies v.store_keys().contains(id) by {
        let i = choose|i: int| 0 <= i < v.links.len() && #[trigger] v.links[i].0 == id;
        assert(v.roster[i].0 == id);
    }
    assert forall|id: Seq<char>| v.store_keys().contains(id) implies v.registry_keys().contains(id) by {
        let i = choose|i: int| 0 <= i < v.roster.len() && #[trigger] v.roster[i].0 == id;
        assert(v.links[i].0 == id);
    }
    assert(v.registry_keys() =~= v.store_keys());
}

/// A broadcast that excludes `id` leaves the queue of `id` as it was: a
/// sender never receives its own message.
pub proof fn lemma_no_self_echo(
    links: Seq<(Seq<char>, Seq<MessageView>)>,
    msg: MessageView,
    id: Seq<char>,
)
    ensures
        forall|i: int|
            0 <= i < links.len() && links[i].0 == id ==> #[trigger] deliver(links, msg, Some(id))[i]
                == links[i],
{
}

/// Broadcasts only append: after any series of them every queue still starts
/// with what it held before.
pub proof fn lemma_deliver_all_keeps_prefix(
    links: Seq<(Seq<char>, Seq<MessageView>)>,
    events: Seq<(MessageView, Option<Seq<char>>)>,
)
    ensures
        deliver_all(links, events).len() == links.len(),
        forall|i: int|
            0 <= i < links.len() ==> (#[trigger] deliver_all(links, events)[i]).0 == links[i].0
                && deliver_all(links, events)[i].1.len() >= links[i].1.len()
                && deliver_all(links, events)[i].1.take(links[i].1.len() as int) == links[i].1,
    decreases events.len(),
{
    if events.len() > 0 {
        lemma_deliver_all_keeps_prefix(links, events.drop_last());
        let before = deliver_all(links, events.drop_last());
        assert forall|i: int| 0 <= i < links.len() implies (#[trigger] deliver_all(links, events)[i]).0
            == links[i].0 && deliver_all(links, events)[i].1.len() >= links[i].1.len()
            && deliver_all(links, events)[i].1.take(links[i].1.len() as int) == links[i].1 by {
            let q = before[i].1;
            assert(q.take(links[i].1.len() as int) == links[i].1);
            assert(q.push(events.last().0).take(links[i].1.len() as int) =~= q.take(
                links[i].1.len() as int,
            ));
            assert(deliver_all(links, events)[i] == offer(before[i], events.last().0, events.last().1));
        }
    }
}

/// A newcomer receives its own `Join` and the whole roster that stood before
/// its admission ahead of any message broadcast after it: whatever the
/// broadcasts that follow, its queue starts with the admission queue.
pub proof fn lemma_snapshot_before_live(
    v: ServerView,
    id: Seq<char>,
    events: Seq<(MessageView, Option<Seq<char>>)>,
)
    requires
        v.wf(),
        !v.has(id),
    ensures
        ({
            let w = admitted(v, id);
            let q = deliver_all(w.links, events)[v.links.len() as int].1;
            q.take(admission_queue(id, v.roster).len() as int) == admission_queue(id, v.roster)
        }),
{
    let w = admitted(v, id);
    lemma_deliver_all_keeps_prefix(w.links, events);
    assert(w.links[v.links.len() as int].1 == admission_queue(id, v.roster));
}

/// Removing a session twice leaves the state as removing it once, and
/// removing an id that is not registered changes nothing.
pub proof fn lemma_unregister_idempotent(v: ServerView, id: Seq<char>)
    requires
        v.wf(),
    ensures
        without(without(v, id), id) == without(v, id),
        !v.has(id) ==> without(v, id) == v,
{
    if v.has(id) {
        let i = v.index_of(id);
        let w = without(v, id);
        assert forall|k: int| 0 <= k < w.links.len() implies #[trigger] w.links[k].0 != id by {
            let k0 = if k < i { k } else { k + 1 };
            assert(v.links[k0].0 == w.links[k].0);
            assert(k0 != i);
        }
    }
}

/// One entry of the connection registry: a session and its outbound queue.
struct Link {
    player_id: String,
    outbound: Vec<GameMessage>,
}

/// The synchronisation hub: the connection registry (one outbound queue per
/// session) and the player state store, kept with the same keys.
///
/// Sending never happens here: a broadcast only appends to queues, which the
/// transport drains with `take_outbound`. A broadcast queues at most
/// `OUTBOUND_CAPACITY` messages for a recipient that stalls: beyond that the
/// newest are dropped for it (the others are not held back). The replay
/// queued at admission is always queued whole.
pub struct MultiplayerServer {
    clients: Vec<Link>,
    player_states: Vec<PlayerState>,
}

spec fn link_view(l: Link) -> (Seq<char>, Seq<MessageView>) {
    (l.player_id@, views_of(l.outbound@))
}

pub open spec fn state_view(p: PlayerState) -> (Seq<char>, i32) {
    (p.player_id@, p.score)
}

impl View for MultiplayerServer {
    type V = ServerView;

    closed spec fn view(&self) -> ServerView {
        ServerView {
            links: self.clients@.map_values(|l: Link| link_view(l)),
            roster: self.player_states@.map_values(|p: PlayerState| state_view(p)),
        }
    }
}

impl MultiplayerServer {
    /// Registry and store hold the same ids in the same order, none twice.
    pub open spec fn wf(&self) -> bool {
        self@.wf()
    }

    /// An empty hub.
    pub fn new() -> (r: MultiplayerServer)
        ensures
            r.wf(),
            r@.links == Seq::<(Seq<char>, Seq<MessageView>)>::empty(),
            r@.roster == Seq::<(Seq<char>, i32)>::empty(),
    {
        let r = MultiplayerServer { clients: Vec::new(), player_states: Vec::new() };
        assert(r@.links =~= Seq::<(Seq<char>, Seq<MessageView>)>::empty());
        assert(r@.roster =~= Seq::<(Seq<char>, i32)>::empty());
        r
    }

    /// The position of the session `id` in the registry, if it is there.
    fn find(&self, id: &String) -> (r: Option<usize>)
        requires
            self.wf(),
        ensures
            match r {
                Some(i) => i < self@.links.len() && self@.links[i as int].0 == id@,
                None => !self@.has(id@),
            },
    {
        let n = self.clients.len();
        for i in 0..n
            invariant
                n == self.clients@.len(),
                self.wf(),
                forall|k: int| 0 <= k < i ==> #[trigger] self@.links[k].0 != id@,
        {
            if self.clients[i].player_id == *id {
                return Some(i);
            }
        }
        None
    }

    /// Whether a session with this id is registered.
    pub fn is_registered(&self, id: &String) -> (r: bool)
        requires
            self.wf(),
        ensures
            r == self@.has(id@),
    {
        self.find(id).is_some()
    }

    /// Registers a new session: an empty outbound queue in the registry and a
    /// score of 0 in the store. Returns `false`, changing nothing, when the id
    /// is already registered.
    pub fn register(&mut self, player_id: String) -> (r: bool)
        requires
            old(self).wf(),
        ensures
            final(self).wf(),
            r == !old(self)@.has(player_id@),
            r ==> final(self)@ == (ServerView {
                links: old(self)@.links.push((player_id@, Seq::empty())),
                roster: old(self)@.roster.push((player_id@, 0)),
            }),
            !r ==> final(self)@ == old(self)@,
    {
        if self.find(&player_id).is_some() {
            return false;
        }
        let ghost v0 = self@;
        let state = PlayerState { player_id: player_id.clone(), score: 0, name: None };
        self.player_states.push(state);
        self.clients.push(Link { player_id, outbound: Vec::new() });
        proof {
            assert(views_of(Seq::<GameMessage>::empty()) =~= Seq::empty());
            assert(self@.links =~= v0.links.push((player_id@, Seq::empty())));
            assert(self@.roster =~= v0.roster.push((player_id@, 0)));
            assert forall|i: int, j: int|
                0 <= i < self@.links.len() && 0 <= j < self@.links.len() && i != j implies #[trigger] self@.links[i].0
                    != #[trigger] self@.links[j].0 by {
                if i == v0.links.len() as int {
                    assert(v0.links[j].0 == self@.links[j].0);
                } else if j == v0.links.len() as int {
                    assert(v0.links[i].0 == self@.links[i].0);
                }
            }
        }
        true
    }

    /// Removes the session `id` from registry and store. Removing an id that is
    /// not registered changes nothing.
    pub fn unregister(&mut self, player_id: &String)
        requires
            old(self).wf(),
        ensures
            final(self).wf(),
            final(self)@ == without(old(self)@, player_id@),
    {
        match self.find(player_id) {
            None => {},
            Some(i) => {
                let ghost v0 = self@;
                self.clients.remove(i);
                self.player_states.remove(i);
                proof {
                    let k = v0.index_of(player_id@);
                    assert(v0.links[i as int].0 == player_id@);
                    assert(k == i as int);
                    assert(self@.links =~= v0.links.remove(i as int));
                    assert(self@.roster =~= v0.roster.remove(i as int));
                    assert forall|a: int, b: int|
                        0 <= a < self@.links.len() && 0 <= b < self@.links.len() && a != b implies #[trigger] self@.links[a].0
                            != #[trigger] self@.links[b].0 by {
                        let a0 = if a < i { a } else { a + 1 };
                        let b0 = if b < i { b } else { b + 1 };
                        assert(v0.links[a0].0 == self@.links[a].0);
                        assert(v0.links[b0].0 == self@.links[b].0);
                    }
                    assert forall|a: int| 0 <= a < self@.links.len() implies #[trigger] self@.roster[a].0
                        == self@.links[a].0 by {
                        let a0 = if a < i { a } else { a + 1 };
                        assert(v0.roster[a0].0 == v0.links[a0].0);
                    }
                }
            },
        }
    }

    /// Overwrites the score of `player_id` in the store; changes nothing when
    /// the id is no longer registered.
    pub fn update_score(&mut self, player_id: &String, score: i32)
        requires
            old(self).wf(),
        ensures
            final(self).wf(),
            final(self)@ == (ServerView {
                links: old(self)@.links,
                roster: with_score(old(self)@.roster, player_id@, score),
            }),
    {
        let ghost v0 = self@;
        match self.find(player_id) {
            None => {
                assert(with_score(v0.roster, player_id@, score) =~= v0.roster) by {
                    assert forall|k: int| 0 <= k < v0.roster.len() implies #[trigger] v0.roster[k].0
                        != player_id@ by {
                        assert(v0.links[k].0 == v0.roster[k].0);
                    }
                }
            },
            Some(i) => {
                self.player_states[i].score = score;
                proof {
                    assert(self@.links =~= v0.links);
                    assert forall|k: int| 0 <= k < v0.roster.len() implies #[trigger] self@.roster[k]
                        == with_score(v0.roster, player_id@, score)[k] by {
                        if k != i as int {
                            assert(v0.links[k].0 != v0.links[i as int].0);
                        }
                    }
                    assert(self@.roster =~= with_score(v0.roster, player_id@, score));
                }
            },
        }
    }

    /// A point-in-time copy of every player's id and score, in roster order.
    /// The hub stores no display names, so none is given.
    pub fn snapshot(&self) -> (r: Vec<PlayerState>)
        requires
            self.wf(),
        ensures
            r@.map_values(|p: PlayerState| state_view(p)) == self@.roster,
            forall|i: int| 0 <= i < r@.len() ==> (#[trigger] r@[i]).name is None,
    {
        let mut r: Vec<PlayerState> = Vec::new();
        let n = self.player_states.len();
        for i in 0..n
            invariant
                n == self.player_states@.len(),
                r@.map_values(|p: PlayerState| state_view(p)) =~= self@.roster.take(i as int),
                forall|k: int| 0 <= k < r@.len() ==> (#[trigger] r@[k]).name is None,
        {
            let p = &self.player_states[i];
            let ghost before = r@;
            let q = PlayerState { player_id: p.player_id.clone(), score: p.score, name: None };
            assert(state_view(q) == self@.roster[i as int]);
            r.push(q);
            assert(r@.map_values(|p: PlayerState| state_view(p)) =~= before.map_values(
                |p: PlayerState| state_view(p),
            ).push(state_view(q)));
            assert(self@.roster.take(i + 1) =~= self@.roster.take(i as int).push(self@.roster[i as int]));
        }
        assert(self@.roster.take(n as int) =~= self@.roster);
        r
    }

    /// Appends a copy of `msg` to the outbound queue of every registered
    /// session but `exclude`, unless that queue is full. Queues are not
    /// drained here; nothing waits.
    pub fn broadcast(&mut self, msg: &GameMessage, exclude: Option<&String>)
        requires
            old(self).wf(),
        ensures
            final(self).wf(),
            final(self)@ == (ServerView {
                links: deliver(old(self)@.links, msg@, opt_id(exclude)),
                roster: old(self)@.roster,
            }),
    {
        let ghost v0 = self@;
        let ghost c0 = self.clients@;
        let ghost ex = opt_id(exclude);
        let n = self.clients.len();
        for i in 0..n
            invariant
                n == self.clients@.len(),
                c0.len() == n,
                v0.links == c0.map_values(|l: Link| link_view(l)),
                ex == opt_id(exclude),
                self.player_states == old(self).player_states,
                forall|k: int|
                    0 <= k < i ==> #[trigger] link_view(self.clients@[k]) == offer(
                        link_view(c0[k]),
                        msg@,
                        ex,
                    ),
                forall|k: int| i <= k < n ==> #[trigger] self.clients@[k] == c0[k],
        {
            let skip = match exclude {
                Some(e) => self.clients[i].player_id == *e,
                None => false,
            } || self.clients[i].outbound.len() >= OUTBOUND_CAPACITY;
            let ghost before = self.clients@;
            if !skip {
                assert(ex != Some(c0[i as int].player_id@));
                assert(views_of(c0[i as int].outbound@).len() < OUTBOUND_CAPACITY);
                let m = msg.duplicate();
                self.clients[i].outbound.push(m);
                proof {
                    assert(self.clients@[i as int].player_id == before[i as int].player_id);
                    assert(views_of(self.clients@[i as int].outbound@) =~= views_of(
                        before[i as int].outbound@,
                    ).push(msg@));
                    assert(link_view(self.clients@[i as int]) == offer(link_view(c0[i as int]), msg@, ex));
                    assert forall|k: int| 0 <= k < n && k != i implies #[trigger] self.clients@[k]
                        == before[k] by {}
                }
            }
        }
        assert(self@.links =~= deliver(v0.links, msg@, ex));
    }

    /// Hands out, in arrival order, every message queued for the session `id`
    /// and empties its queue. Nothing comes back for an unregistered id.
    pub fn take_outbound(&mut self, player_id: &String) -> (r: Vec<GameMessage>)
        requires
            old(self).wf(),
        ensures
            final(self).wf(),
            old(self)@.has(player_id@) ==> {
                let i = old(self)@.index_of(player_id@);
                &&& views_of(r@) == old(self)@.links[i].1
                &&& final(self)@ == (ServerView {
                    links: old(self)@.links.update(i, (player_id@, Seq::empty())),
                    roster: old(self)@.roster,
                })
            },
            !old(self)@.has(player_id@) ==> r@.len() == 0 && final(self)@ == old(self)@,
    {
        let ghost v0 = self@;
        match self.find(player_id) {
            None => Vec::new(),
            Some(i) => {
                let mut taken: Vec<GameMessage> = Vec::new();
                std::mem::swap(&mut taken, &mut self.clients[i].outbound);
                proof {
                    assert(v0.index_of(player_id@) == i as int);
                    assert(views_of(Seq::<GameMessage>::empty()) =~= Seq::empty());
                    assert(self@.links =~= v0.links.update(i as int, (player_id@, Seq::empty())));
                    assert(self@.roster =~= v0.roster);
                }
                taken
            },
        }
    }

    /// Appends `m` to the queue of the session at position `i`.
    fn enqueue(&mut self, i: usize, m: GameMessage)
        requires
            old(self).wf(),
            i < old(self)@.links.len(),
        ensures
            final(self).wf(),
            final(self)@ == (ServerView {
                links: old(self)@.links.update(
                    i as int,
                    (old(self)@.links[i as int].0, old(self)@.links[i as int].1.push(m@)),
                ),
                roster: old(self)@.roster,
            }),
    {
        let ghost v0 = self@;
        let ghost mv = m@;
        self.clients[i].outbound.push(m);
        proof {
            assert(views_of(self.clients@[i as int].outbound@) =~= v0.links[i as int].1.push(mv));
            assert(self@.links =~= v0.links.update(
                i as int,
                (v0.links[i as int].0, v0.links[i as int].1.push(mv)),
            ));
            assert(self@.roster =~= v0.roster);
        }
    }

    /// Admits a new session `id`: queues for it its own `Join` and a replay of
    /// the roster as it stood before, registers it, then broadcasts its `Join`
    /// to every session, itself included. Existing peers learn of the
    /// newcomer by that `Join` alone; its score of 0 is implied. Returns
    /// `false`, changing nothing, when the id is already registered.
    pub fn admit_player(&mut self, player_id: String) -> (r: bool)
        requires
            old(self).wf(),
        ensures
            final(self).wf(),
            r == !old(self)@.has(player_id@),
            r ==> final(self)@ == admitted(old(self)@, player_id@),
            !r ==> final(self)@ == old(self)@,
    {
        let ghost v0 = self@;
        let ghost id = player_id@;
        let roster = self.snapshot();
        let join = GameMessage::Join { player_id: player_id.clone() };
        if !self.register(player_id) {
            return false;
        }
        let last = self.clients.len() - 1;
        self.enqueue(last, join.duplicate());
        let n = roster.len();
        for k in 0..n
            invariant
                self.wf(),
                n == roster@.len(),
                last + 1 == self@.links.len(),
                last == v0.links.len(),
                roster@.map_values(|p: PlayerState| state_view(p)) == v0.roster,
                self@.roster == v0.roster.push((id, 0)),
                self@.links == v0.links.push(
                    (id, seq![MessageView::Join { player_id: id }] + replay_of(v0.roster.take(k as int))),
                ),
        {
            let p = &roster[k];
            let m = GameMessage::GameState { player_id: p.player_id.clone(), score: p.score };
            self.enqueue(last, m);
            proof {
                assert(state_view(roster@[k as int]) == v0.roster[k as int]);
                assert(replay_of(v0.roster.take(k + 1)) =~= replay_of(v0.roster.take(k as int)).push(
                    MessageView::GameState { player_id: v0.roster[k as int].0, score: v0.roster[k as int].1 },
                ));
                assert(self@.links =~= v0.links.push(
                    (id, seq![MessageView::Join { player_id: id }] + replay_of(v0.roster.take(k + 1))),
                ));
            }
        }
        proof {
            assert(v0.roster.take(n as int) =~= v0.roster);
        }
        self.enqueue(last, join.duplicate());
        proof {
            let join_v = MessageView::Join { player_id: id };
            assert((seq![join_v] + replay_of(v0.roster)).push(join_v) =~= admission_queue(id, v0.roster));
            assert(self@.links =~= v0.links.push((id, admission_queue(id, v0.roster))));
        }
        let newcomer = join.player_id().clone();
        self.broadcast(&join, Some(&newcomer));
        proof {
            assert(v0.roster.take(n as int) =~= v0.roster);
            let join_v = MessageView::Join { player_id: id };
            let queue0 = seq![join_v] + replay_of(v0.roster);
            assert(queue0.push(join_v) =~= admission_queue(id, v0.roster));
            assert forall|k: int| 0 <= k < v0.links.len() implies #[trigger] v0.links[k].0 != id by {
                assert(v0.has(v0.links[k].0));
            }
            assert(deliver(v0.links.push((id, admission_queue(id, v0.roster))), join_v, Some(id))
                =~= deliver(v0.links, join_v, None).push((id, admission_queue(id, v0.roster))));
        }
        true
    }

    /// Admits a new session under a freshly generated random id and returns
    /// that id; returns `None`, changing nothing, in the unlikely case that
    /// the id drawn is already registered.
    pub fn admit_new(&mut self) -> (r: Option<String>)
        requires
            old(self).wf(),
        ensures
            final(self).wf(),
            match r {
                Some(id) => !old(self)@.has(id@) && final(self)@ == admitted(old(self)@, id@),
                None => final(self)@ == old(self)@,
            },
            old(self)@.links.len() == 0 ==> r is Some,
    {
        let id = new_player_id();
        if self.admit_player(id.clone()) {
            Some(id)
        } else {
            None
        }
    }

    /// Reacts to a valid message from the session `sender`: a `GameState`
    /// overwrites that player's score; every message is then broadcast to all
    /// sessions but the sender.
    pub fn handle_message(&mut self, sender: &String, msg: GameMessage)
        requires
            old(self).wf(),
        ensures
            final(self).wf(),
            final(self)@ == after_message(old(self)@, sender@, msg@),
    {
        match &msg {
            GameMessage::GameState { player_id, score } => self.update_score(player_id, *score),
            _ => {},
        }
        self.broadcast(&msg, Some(sender));
    }

    /// Ends the session `id`: removes it from registry and store, then
    /// broadcasts its `PlayerLeft` to every remaining session.
    pub fn teardown(&mut self, player_id: &String)
        requires
            old(self).wf(),
        ensures
            final(self).wf(),
            final(self)@ == torn_down(old(self)@, player_id@),
    {
        self.unregister(player_id);
        let left = GameMessage::PlayerLeft { player_id: player_id.clone() };
        self.broadcast(&left, None);
    }

    /// Reacts to one text frame received from the session `sender`: a frame
    /// that holds a message (see `codec::read_frame`) is handled as
    /// `handle_message` does; any other frame is dropped and changes nothing.
    pub fn handle_frame(&mut self, sender: &String, frame: &str)
        requires
            old(self).wf(),
        ensures
            final(self).wf(),
            match read_frame(frame@) {
                Some(m) => final(self)@ == after_message(old(self)@, sender@, m),
                None => final(self)@ == old(self)@,
            },
    {
        match decode(frame) {
            Some(m) => self.handle_message(sender, m),
            None => {},
        }
    }
}

} // verus!
