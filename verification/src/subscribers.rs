//! The clients that are sent a snapshot whenever the state changes.
use vstd::prelude::*;
use vstd::string::*;

use crate::search;
use crate::text;

verus! {

/// A client that snapshots are sent to. Only the newest snapshot is kept for
/// it, so that a slow client skips states and never falls behind.
pub struct Subscriber {
    /// Identifier, unique among all clients.
    pub id: u64,
    /// The newest snapshot that is still to be delivered.
    pub latest: Option<String>,
    /// Whether the client has been woken to deliver it. There is at most one
    /// wakeup outstanding.
    pub wake: bool,
    /// Whether the client is still there.
    pub connected: bool,
}

/// The clients that snapshots are sent to.
pub struct Subscribers {
    /// Identifier of the next client.
    pub next_id: u64,
    /// The clients, in the order in which they came.
    pub clients: Vec<Subscriber>,
}

/// The mathematical model of a [`Subscriber`].
pub struct SubscriberModel {
    pub id: u64,
    pub latest: Option<Seq<char>>,
    pub wake: bool,
    pub connected: bool,
}

impl View for Subscriber {
    type V = SubscriberModel;

    open spec fn view(&self) -> SubscriberModel {
        SubscriberModel {
            id: self.id,
            latest: text::opt_view(self.latest),
            wake: self.wake,
            connected: self.connected,
        }
    }
}

/// The mathematical model of [`Subscribers`].
#[verifier::ext_equal]
pub struct SubscribersModel {
    pub next_id: u64,
    pub clients: Seq<SubscriberModel>,
}

impl View for Subscribers {
    type V = SubscribersModel;

    open spec fn view(&self) -> SubscribersModel {
        SubscribersModel {
            next_id: self.next_id,
            clients: Seq::new(self.clients@.len(), |i: int| self.clients@[i]@),
        }
    }
}

/// The clients without those with identifier `id`.
pub open spec fn without_client(clients: Seq<SubscriberModel>, id: u64) -> Seq<SubscriberModel>
    decreases clients.len(),
{
    if clients.len() == 0 {
        Seq::empty()
    } else {
        let before = without_client(clients.drop_last(), id);
        if clients.last().id != id {
            before.push(clients.last())
        } else {
            before
        }
    }
}

/// The clients after a snapshot was published: those still there, each with
/// that snapshot to deliver and woken.
pub open spec fn published(clients: Seq<SubscriberModel>, json: Seq<char>) -> Seq<SubscriberModel>
    decreases clients.len(),
{
    if clients.len() == 0 {
        Seq::empty()
    } else {
        let before = published(clients.drop_last(), json);
        let client = clients.last();
        if client.connected {
            before.push(SubscriberModel { latest: Some(json), wake: true, ..client })
        } else {
            before
        }
    }
}

impl SubscribersModel {
    /// Whether no two clients share an identifier and none has one that is
    /// still to be handed out.
    pub open spec fn wf(self) -> bool {
        &&& forall|i: int, j: int|
            0 <= i < j < self.clients.len() ==> (#[trigger] self.clients[i]).id != (
            #[trigger] self.clients[j]).id
        &&& forall|i: int|
            0 <= i < self.clients.len() ==> (#[trigger] self.clients[i]).id < self.next_id
    }

    /// Whether the client at an index has identifier `id`.
    pub open spec fn has_id(self, id: u64) -> spec_fn(int) -> bool {
        |i: int| self.clients[i].id == id
    }

    /// The index of the first client with identifier `id`.
    pub open spec fn index(self, id: u64) -> Option<int> {
        search::least(self.clients.len() as int, self.has_id(id))
    }

    /// The clients with a new one.
    pub open spec fn registered(self) -> SubscribersModel {
        SubscribersModel {
            next_id: (self.next_id + 1) as u64,
            clients: self.clients.push(
                SubscriberModel { id: self.next_id, latest: None, wake: false, connected: true },
            ),
        }
    }

    /// The clients without the one with identifier `id`.
    pub open spec fn unregistered(self, id: u64) -> SubscribersModel {
        SubscribersModel { clients: without_client(self.clients, id), ..self }
    }

    /// The clients after a snapshot was published.
    pub open spec fn publishing(self, json: Seq<char>) -> SubscribersModel {
        SubscribersModel { clients: published(self.clients, json), ..self }
    }

    /// The clients with one of them replaced.
    pub open spec fn with_client(self, i: int, client: SubscriberModel) -> SubscribersModel {
        SubscribersModel { clients: self.clients.update(i, client), ..self }
    }

    /// The clients after the one with identifier `id` went away.
    pub open spec fn disconnected(self, id: u64) -> SubscribersModel {
        match self.index(id) {
            Some(i) => self.with_client(
                i,
                SubscriberModel { connected: false, ..self.clients[i] },
            ),
            None => self,
        }
    }

    /// Whether the client with identifier `id` has been woken.
    pub open spec fn woken(self, id: u64) -> bool {
        match self.index(id) {
            Some(i) => self.clients[i].wake,
            None => false,
        }
    }

    /// The clients after the wakeup of the one with identifier `id` was received.
    pub open spec fn received(self, id: u64) -> SubscribersModel {
        match self.index(id) {
            Some(i) => self.with_client(i, SubscriberModel { wake: false, ..self.clients[i] }),
            None => self,
        }
    }

    /// The snapshot to deliver to the client with identifier `id`.
    pub open spec fn pending(self, id: u64) -> Option<Seq<char>> {
        match self.index(id) {
            Some(i) => self.clients[i].latest,
            None => None,
        }
    }

    /// The clients after the snapshot of the one with identifier `id` was taken.
    pub open spec fn taken(self, id: u64) -> SubscribersModel {
        match self.index(id) {
            Some(i) => self.with_client(i, SubscriberModel { latest: None, ..self.clients[i] }),
            None => self,
        }
    }
}

impl Default for Subscribers {
    /// No clients.
    fn default() -> (r: Subscribers)
        ensures
            r@ == (SubscribersModel { next_id: 0, clients: Seq::empty() }),
    {
        let r = Subscribers { next_id: 0, clients: Vec::new() };
        assert(r@ =~= (SubscribersModel { next_id: 0, clients: Seq::empty() }));
        r
    }
}

impl Subscribers {
    /// Register a new client and return its identifier.
    pub fn register(&mut self) -> (id: u64)
        requires
            old(self).next_id < u64::MAX,
        ensures
            id == old(self).next_id,
            final(self)@ == old(self)@.registered(),
    {
        let id: u64 = self.next_id;
        self.next_id = id + 1;
        self.clients.push(Subscriber { id, latest: None, wake: false, connected: true });
        assert(self@ =~= old(self)@.registered());
        id
    }

    /// Remove the client with identifier `id`.
    pub fn unregister(&mut self, id: u64)
        ensures
            final(self)@ == old(self)@.unregistered(id),
    {
        let ghost all = self@.clients;
        let mut i: usize = 0;
        let ghost mut seen: int = 0;
        assert(all.take(0) =~= Seq::empty());
        assert(all.skip(0) =~= all);
        while i < self.clients.len()
            invariant
                all == old(self)@.clients,
                self.next_id == old(self).next_id,
                0 <= seen <= all.len(),
                self.clients@.len() - i == all.len() - seen,
                self@.clients =~= without_client(all.take(seen), id) + all.skip(seen),
                without_client(all.take(seen), id).len() == i,
            decreases self.clients@.len() - i,
        {
            let ghost kept = without_client(all.take(seen), id);
            let ghost now = self@.clients;
            assert(all.take(seen + 1).drop_last() =~= all.take(seen));
            assert(all.take(seen + 1).last() == all[seen]);
            assert(now[i as int] == all[seen]);
            if self.clients[i].id == id {
                self.clients.remove(i);
                assert(self@.clients =~= now.remove(i as int));
                assert(self@.clients =~= kept + all.skip(seen + 1));
            } else {
                assert(self@.clients =~= kept.push(all[seen]) + all.skip(seen + 1));
                i += 1;
            }
            proof {
                seen = seen + 1;
            }
        }
        assert(all.take(seen) =~= all);
        assert(self@ =~= old(self)@.unregistered(id));
    }

    /// Publish a snapshot: it replaces what every client still has to deliver,
    /// and the client is woken. Clients that went away are removed.
    pub fn publish(&mut self, json: &str)
        ensures
            final(self)@ == old(self)@.publishing(json@),
    {
        let ghost all = self@.clients;
        let mut i: usize = 0;
        let ghost mut seen: int = 0;
        assert(all.take(0) =~= Seq::empty());
        assert(all.skip(0) =~= all);
        while i < self.clients.len()
            invariant
                all == old(self)@.clients,
                self.next_id == old(self).next_id,
                0 <= seen <= all.len(),
                self.clients@.len() - i == all.len() - seen,
                self@.clients =~= published(all.take(seen), json@) + all.skip(seen),
                published(all.take(seen), json@).len() == i,
            decreases self.clients@.len() - i,
        {
            let ghost sent = published(all.take(seen), json@);
            let ghost now = self@.clients;
            assert(all.take(seen + 1).drop_last() =~= all.take(seen));
            assert(all.take(seen + 1).last() == all[seen]);
            assert(now[i as int] == all[seen]);
            if self.clients[i].connected {
                self.clients[i].latest = Some(String::from_str(json));
                self.clients[i].wake = true;
                proof {
                    let client = SubscriberModel { latest: Some(json@), wake: true, ..all[seen] };
                    assert(self@.clients =~= now.update(i as int, client));
                    assert(self@.clients =~= sent.push(client) + all.skip(seen + 1));
                }
                i += 1;
            } else {
                self.clients.remove(i);
                assert(self@.clients =~= now.remove(i as int));
                assert(self@.clients =~= sent + all.skip(seen + 1));
            }
            proof {
                seen = seen + 1;
            }
        }
        assert(all.take(seen) =~= all);
        assert(self@ =~= old(self)@.publishing(json@));
    }

    /// The index of the first client with identifier `id`.
    fn find(&self, id: u64) -> (r: Option<usize>)
        ensures
            r is Some <==> self@.index(id) is Some,
            r is Some ==> r->0 == self@.index(id)->0 && r->0 < self.clients@.len(),
    {
        let ghost n = self.clients@.len() as int;
        let ghost holds = self@.has_id(id);
        let mut i: usize = 0;
        while i < self.clients.len()
            invariant
                i <= self.clients@.len() == n,
                holds == self@.has_id(id),
                forall|k: int| 0 <= k < i ==> !(#[trigger] holds(k)),
            decreases self.clients@.len() - i,
        {
            if self.clients[i].id == id {
                proof {
                    assert(search::is_least(n, holds, i as int));
                    search::lemma_least_is(n, holds, i as int);
                }
                return Some(i);
            }
            i += 1;
        }
        proof {
            search::lemma_least_none(n, holds);
        }
        None
    }

    /// Note that the client with identifier `id` went away.
    pub fn disconnect(&mut self, id: u64)
        ensures
            final(self)@ == old(self)@.disconnected(id),
    {
        if let Some(i) = self.find(id) {
            self.clients[i].connected = false;
        }
        assert(self@ =~= old(self)@.disconnected(id));
    }

    /// Receive the wakeup of the client with identifier `id`, if there is one.
    pub fn try_recv(&mut self, id: u64) -> (woken: bool)
        ensures
            woken == old(self)@.woken(id),
            final(self)@ == old(self)@.received(id),
    {
        let mut woken: bool = false;
        if let Some(i) = self.find(id) {
            woken = self.clients[i].wake;
            self.clients[i].wake = false;
        }
        assert(self@ =~= old(self)@.received(id));
        woken
    }

    /// Take the snapshot to deliver to the client with identifier `id`.
    pub fn take(&mut self, id: u64) -> (r: Option<String>)
        ensures
            text::opt_view(r) == old(self)@.pending(id),
            final(self)@ == old(self)@.taken(id),
    {
        let mut r: Option<String> = None;
        if let Some(i) = self.find(id) {
            r = text::copy_opt(&self.clients[i].latest);
            self.clients[i].latest = None;
        }
        assert(self@ =~= old(self)@.taken(id));
        r
    }

    /// Whether there are no clients.
    pub fn is_empty(&self) -> (r: bool)
        ensures
            r == (self@.clients.len() == 0),
    {
        self.clients.len() == 0
    }
}

/// Which clients are there after a snapshot was published: those that were
/// connected, in the same order, each with the snapshot to deliver and woken.
proof fn lemma_published(clients: Seq<SubscriberModel>, json: Seq<char>)
    ensures
        published(clients, json).len() <= clients.len(),
        forall|i: int|
            0 <= i < published(clients, json).len() ==> {
                let client = #[trigger] published(clients, json)[i];
                client.connected && client.wake && client.latest == Some(json)
            },
        forall|i: int|
            0 <= i < published(clients, json).len() ==> exists|k: int|
                i <= k < clients.len() && (#[trigger] clients[k]).id == (
                #[trigger] published(clients, json)[i]).id,
        forall|k: int|
            0 <= k < clients.len() && (#[trigger] clients[k]).connected ==> published(
                clients,
                json,
            ).contains(SubscriberModel { latest: Some(json), wake: true, ..clients[k] }),
    decreases clients.len(),
{
    if clients.len() > 0 {
        let rest = clients.drop_last();
        let before = published(rest, json);
        let all = published(clients, json);
        lemma_published(rest, json);
        assert forall|i: int| 0 <= i < all.len() implies exists|k: int|
            i <= k < clients.len() && (#[trigger] clients[k]).id == (#[trigger] all[i]).id by {
            if i < before.len() {
                let k = choose|k: int|
                    i <= k < rest.len() && (#[trigger] rest[k]).id == before[i].id;
                assert(clients[k].id == all[i].id);
            } else {
                assert(clients[clients.len() - 1].id == all[i].id);
            }
        }
        assert forall|k: int| 0 <= k < clients.len() && (#[trigger] clients[k]).connected implies
            all.contains(SubscriberModel { latest: Some(json), wake: true, ..clients[k] }) by {
            let want = SubscriberModel { latest: Some(json), wake: true, ..clients[k] };
            if k < rest.len() {
                assert(rest[k].connected);
                let i = choose|i: int| 0 <= i < before.len() && before[i] == want;
                assert(all[i] == want);
            } else {
                assert(all[all.len() - 1] == want);
            }
        }
    }
}

/// Delivery converges: a client that was sent two snapshots before it delivered
/// any is left with the newer one alone, as if the older had never been sent.
pub proof fn only_the_newest_snapshot_is_kept(
    s: SubscribersModel,
    older: Seq<char>,
    newer: Seq<char>,
)
    ensures
        s.publishing(older).publishing(newer) == s.publishing(newer),
{
    lemma_republished(s.clients, older, newer);
}

/// Publishing twice leaves what publishing the newer snapshot alone does.
proof fn lemma_republished(clients: Seq<SubscriberModel>, older: Seq<char>, newer: Seq<char>)
    ensures
        published(published(clients, older), newer) == published(clients, newer),
    decreases clients.len(),
{
    if clients.len() > 0 {
        lemma_republished(clients.drop_last(), older, newer);
        if clients.last().connected {
            let once = published(clients, older);
            assert(once.drop_last() =~= published(clients.drop_last(), older));
        }
    }
}

/// A connected client is woken by a published snapshot and gets to deliver it;
/// clients that went away are gone.
pub proof fn published_snapshot_is_delivered(s: SubscribersModel, json: Seq<char>, k: int)
    requires
        s.wf(),
        0 <= k < s.clients.len(),
    ensures
        s.clients[k].connected ==> s.publishing(json).woken(s.clients[k].id) && s.publishing(
            json,
        ).pending(s.clients[k].id) == Some(json),
        !s.clients[k].connected ==> s.publishing(json).index(s.clients[k].id) is None,
        s.publishing(json).wf(),
{
    let t = s.publishing(json);
    let id = s.clients[k].id;
    let n = t.clients.len() as int;
    lemma_published(s.clients, json);
    lemma_published_ids(s.clients, json);
    search::lemma_least(n, t.has_id(id));
    if s.clients[k].connected {
        let want = SubscriberModel { latest: Some(json), wake: true, ..s.clients[k] };
        assert(t.clients.contains(want));
        let i = choose|i: int| 0 <= i < n && t.clients[i] == want;
        assert(t.has_id(id)(i));
    } else if t.index(id) is Some {
        let i = t.index(id)->0;
        assert(t.has_id(id)(i));
        lemma_connected_only(s.clients, json, i);
        let m = choose|m: int|
            0 <= m < s.clients.len() && (#[trigger] s.clients[m]).id == t.clients[i].id
                && s.clients[m].connected;
        assert(s.clients[m].id == s.clients[k].id);
    }
    assert forall|i: int| 0 <= i < n implies (#[trigger] t.clients[i]).id < t.next_id by {
        let m = choose|m: int|
            i <= m < s.clients.len() && (#[trigger] s.clients[m]).id == t.clients[i].id;
        assert(s.clients[m].id < s.next_id);
    }
}

/// A client that is there after publishing was connected before.
proof fn lemma_connected_only(clients: Seq<SubscriberModel>, json: Seq<char>, i: int)
    requires
        0 <= i < published(clients, json).len(),
    ensures
        exists|m: int|
            0 <= m < clients.len() && (#[trigger] clients[m]).id == published(clients, json)[i].id
                && clients[m].connected,
    decreases clients.len(),
{
    let rest = clients.drop_last();
    let before = published(rest, json);
    if i < before.len() {
        lemma_connected_only(rest, json, i);
        let m = choose|m: int|
            0 <= m < rest.len() && (#[trigger] rest[m]).id == before[i].id && rest[m].connected;
        assert(clients[m] == rest[m]);
    } else {
        assert(clients[clients.len() - 1].connected);
    }
}

/// Publishing keeps identifiers distinct.
proof fn lemma_published_ids(clients: Seq<SubscriberModel>, json: Seq<char>)
    requires
        forall|i: int, j: int|
            0 <= i < j < clients.len() ==> (#[trigger] clients[i]).id != (
            #[trigger] clients[j]).id,
    ensures
        forall|i: int, j: int|
            0 <= i < j < published(clients, json).len() ==> (#[trigger] published(
                clients,
                json,
            )[i]).id != (#[trigger] published(clients, json)[j]).id,
    decreases clients.len(),
{
    if clients.len() > 0 {
        let rest = clients.drop_last();
        lemma_published_ids(rest, json);
        lemma_published(rest, json);
        let before = published(rest, json);
        let all = published(clients, json);
        assert forall|i: int, j: int| 0 <= i < j < all.len() implies (#[trigger] all[i]).id != (
        #[trigger] all[j]).id by {
            if j == before.len() {
                let m = choose|m: int|
                    i <= m < rest.len() && (#[trigger] rest[m]).id == before[i].id;
                assert(clients[m].id != clients[clients.len() - 1].id);
            } else {
                assert(before[i].id != before[j].id);
            }
        }
    }
}

/// Registering a client and removing it again leaves the others as they were,
/// and its identifier is never handed out again.
pub proof fn unregistering_undoes_registering(s: SubscribersModel)
    requires
        s.wf(),
        s.next_id < u64::MAX,
    ensures
        s.registered().wf(),
        s.registered().unregistered(s.next_id).clients == s.clients,
        s.registered().unregistered(s.next_id).next_id > s.next_id,
{
    let t = s.registered();
    assert(t.clients.drop_last() =~= s.clients);
    lemma_absent(s.clients, s.next_id);
    assert forall|i: int, j: int| 0 <= i < j < t.clients.len() implies (
    #[trigger] t.clients[i]).id != (#[trigger] t.clients[j]).id by {
        if j == s.clients.len() {
            assert(s.clients[i].id < s.next_id);
        } else {
            assert(s.clients[i].id != s.clients[j].id);
        }
    }
}

/// Removing a client that is not there changes nothing.
proof fn lemma_absent(clients: Seq<SubscriberModel>, id: u64)
    requires
        forall|i: int| 0 <= i < clients.len() ==> (#[trigger] clients[i]).id != id,
    ensures
        without_client(clients, id) == clients,
    decreases clients.len(),
{
    if clients.len() > 0 {
        let rest = clients.drop_last();
        assert forall|i: int| 0 <= i < rest.len() implies (#[trigger] rest[i]).id != id by {
            assert(clients[i].id != id);
        }
        lemma_absent(rest, id);
        assert(clients[clients.len() - 1].id != id);
        assert(rest.push(clients.last()) =~= clients);
    }
}

/// Removing a client keeps identifiers distinct, and leaves no client with its
/// identifier.
pub proof fn unregistering_keeps_wf(s: SubscribersModel, id: u64)
    requires
        s.wf(),
    ensures
        s.unregistered(id).wf(),
        s.unregistered(id).index(id) is None,
{
    let t = s.unregistered(id);
    lemma_without_client(s.clients, id);
    assert forall|i: int| 0 <= i < t.clients.len() implies (#[trigger] t.clients[i]).id
        < t.next_id by {
        let k = choose|k: int| 0 <= k < s.clients.len() && s.clients[k] == t.clients[i];
        assert(s.clients[k].id < s.next_id);
    }
    search::lemma_least(t.clients.len() as int, t.has_id(id));
    if let Some(i) = t.index(id) {
        assert(t.has_id(id)(i));
        assert(t.clients[i].id != id);
    }
}

/// The clients left after some were removed are among those before.
proof fn lemma_without_client(clients: Seq<SubscriberModel>, id: u64)
    requires
        forall|i: int, j: int|
            0 <= i < j < clients.len() ==> (#[trigger] clients[i]).id != (
            #[trigger] clients[j]).id,
    ensures
        forall|i: int|
            0 <= i < without_client(clients, id).len() ==> (#[trigger] without_client(
                clients,
                id,
            )[i]).id != id && exists|k: int|
                0 <= k < clients.len() && clients[k] == without_client(clients, id)[i],
        forall|i: int, j: int|
            0 <= i < j < without_client(clients, id).len() ==> (#[trigger] without_client(
                clients,
                id,
            )[i]).id != (#[trigger] without_client(clients, id)[j]).id,
    decreases clients.len(),
{
    if clients.len() > 0 {
        let rest = clients.drop_last();
        let before = without_client(rest, id);
        let all = without_client(clients, id);
        lemma_without_client(rest, id);
        assert forall|i: int| 0 <= i < all.len() implies (#[trigger] all[i]).id != id && exists|
            k: int,
        | 0 <= k < clients.len() && clients[k] == all[i] by {
            if i < before.len() {
                assert(before[i].id != id);
                let k = choose|k: int| 0 <= k < rest.len() && rest[k] == before[i];
                assert(clients[k] == all[i]);
            } else {
                assert(clients[clients.len() - 1] == all[i]);
            }
        }
        assert forall|i: int, j: int| 0 <= i < j < all.len() implies (#[trigger] all[i]).id != (
        #[trigger] all[j]).id by {
            if j == before.len() {
                assert(before[i].id != id);
                let k = choose|k: int| 0 <= k < rest.len() && rest[k] == before[i];
                assert(clients[k].id != clients[clients.len() - 1].id);
            } else {
                assert(before[i].id != before[j].id);
            }
        }
    }
}

/// A new client stands behind the others, which stay as they are. It gets the
/// identifier that was next, and starts connected, with nothing to deliver and
/// not woken.
pub proof fn new_clients_come_last(s: SubscribersModel)
    requires
        s.next_id < u64::MAX,
    ensures
        s.registered().clients.drop_last() == s.clients,
        s.registered().clients.last().id == s.next_id,
        s.registered().clients.last().latest is None,
        !s.registered().clients.last().wake,
        s.registered().clients.last().connected,
        s.registered().next_id == s.next_id + 1,
{
    assert(s.registered().clients.drop_last() =~= s.clients);
}

/// Removing a client leaves every other as it is, in the same order, and the
/// identifier that is next.
pub proof fn unregistering_leaves_the_others(s: SubscribersModel, id: u64)
    ensures
        s.unregistered(id).clients == s.clients.filter(|c: SubscriberModel| c.id != id),
        s.unregistered(id).next_id == s.next_id,
{
    lemma_filtered(s.clients, id);
}

/// Those that remain are those with another identifier.
proof fn lemma_filtered(clients: Seq<SubscriberModel>, id: u64)
    ensures
        without_client(clients, id) == clients.filter(|c: SubscriberModel| c.id != id),
    decreases clients.len(),
{
    reveal(Seq::filter);
    if clients.len() > 0 {
        lemma_filtered(clients.drop_last(), id);
    }
}

/// Publishing keeps the identifier of every connected client and their order,
/// and leaves each of them connected.
pub proof fn publishing_keeps_connected_clients(s: SubscribersModel, json: Seq<char>, i: int)
    requires
        0 <= i < s.publishing(json).clients.len(),
    ensures
        s.publishing(json).clients.len() == s.clients.filter(
            |c: SubscriberModel| c.connected,
        ).len(),
        s.publishing(json).clients[i].id == s.clients.filter(
            |c: SubscriberModel| c.connected,
        )[i].id,
        s.publishing(json).clients[i].latest == Some(json),
        s.publishing(json).clients[i].wake,
        s.publishing(json).clients[i].connected,
        s.publishing(json).next_id == s.next_id,
{
    lemma_kept(s.clients, json);
    lemma_published(s.clients, json);
}

/// Those that remain after publishing are those that were connected.
proof fn lemma_kept(clients: Seq<SubscriberModel>, json: Seq<char>)
    ensures
        published(clients, json).len() == clients.filter(|c: SubscriberModel| c.connected).len(),
        forall|i: int|
            0 <= i < published(clients, json).len() ==> (#[trigger] published(clients, json)[i]).id
                == clients.filter(|c: SubscriberModel| c.connected)[i].id,
    decreases clients.len(),
{
    reveal(Seq::filter);
    if clients.len() > 0 {
        lemma_kept(clients.drop_last(), json);
    }
}

/// The client with an identifier is the one that has it.
proof fn lemma_index(s: SubscribersModel, k: int)
    requires
        s.wf(),
        0 <= k < s.clients.len(),
    ensures
        s.index(s.clients[k].id) == Some(k),
{
    let holds = s.has_id(s.clients[k].id);
    assert(search::is_least(s.clients.len() as int, holds, k));
    search::lemma_least_is(s.clients.len() as int, holds, k);
}

/// Receiving a wakeup says whether there was one and clears it; nothing else of
/// that client changes, and nothing of any other.
pub proof fn wakeups_are_received_once(s: SubscribersModel, k: int)
    requires
        s.wf(),
        0 <= k < s.clients.len(),
    ensures
        ({
            let id = s.clients[k].id;
            let t = s.received(id);
            &&& s.woken(id) == s.clients[k].wake
            &&& !t.woken(id)
            &&& t.pending(id) == s.pending(id)
            &&& t.next_id == s.next_id
            &&& t.clients.len() == s.clients.len()
            &&& t.clients[k].id == id
            &&& t.clients[k].connected == s.clients[k].connected
            &&& forall|j: int|
                0 <= j < s.clients.len() && j != k ==> #[trigger] t.clients[j] == s.clients[j]
        }),
{
    let t = s.received(s.clients[k].id);
    lemma_index(s, k);
    assert forall|i: int, j: int| 0 <= i < j < t.clients.len() implies (
    #[trigger] t.clients[i]).id != (#[trigger] t.clients[j]).id by {
        assert(s.clients[i].id != s.clients[j].id);
    }
    assert forall|i: int| 0 <= i < t.clients.len() implies (#[trigger] t.clients[i]).id
        < t.next_id by {
        assert(s.clients[i].id < s.next_id);
    }
    lemma_index(t, k);
}

/// Taking a snapshot gives the newest one and leaves none; nothing else of that
/// client changes, and nothing of any other.
pub proof fn snapshots_are_taken_once(s: SubscribersModel, k: int)
    requires
        s.wf(),
        0 <= k < s.clients.len(),
    ensures
        ({
            let id = s.clients[k].id;
            let t = s.taken(id);
            &&& s.pending(id) == s.clients[k].latest
            &&& t.pending(id) is None
            &&& t.woken(id) == s.woken(id)
            &&& t.next_id == s.next_id
            &&& t.clients.len() == s.clients.len()
            &&& t.clients[k].id == id
            &&& t.clients[k].connected == s.clients[k].connected
            &&& forall|j: int|
                0 <= j < s.clients.len() && j != k ==> #[trigger] t.clients[j] == s.clients[j]
        }),
{
    let t = s.taken(s.clients[k].id);
    lemma_index(s, k);
    assert forall|i: int, j: int| 0 <= i < j < t.clients.len() implies (
    #[trigger] t.clients[i]).id != (#[trigger] t.clients[j]).id by {
        assert(s.clients[i].id != s.clients[j].id);
    }
    assert forall|i: int| 0 <= i < t.clients.len() implies (#[trigger] t.clients[i]).id
        < t.next_id by {
        assert(s.clients[i].id < s.next_id);
    }
    lemma_index(t, k);
}

/// A client that went away is no longer connected, and no other client is
/// touched.
pub proof fn disconnecting_marks_one_client(s: SubscribersModel, k: int)
    requires
        s.wf(),
        0 <= k < s.clients.len(),
    ensures
        ({
            let t = s.disconnected(s.clients[k].id);
            &&& !t.clients[k].connected
            &&& t.clients[k].id == s.clients[k].id
            &&& t.clients[k].latest == s.clients[k].latest
            &&& t.clients[k].wake == s.clients[k].wake
            &&& t.next_id == s.next_id
            &&& t.clients.len() == s.clients.len()
            &&& forall|j: int|
                0 <= j < s.clients.len() && j != k ==> #[trigger] t.clients[j] == s.clients[j]
        }),
{
    lemma_index(s, k);
}

/// An identifier that no client has is not woken, has nothing to deliver, and
/// changes nothing.
pub proof fn unknown_clients_change_nothing(s: SubscribersModel, id: u64)
    requires
        forall|i: int| 0 <= i < s.clients.len() ==> (#[trigger] s.clients[i]).id != id,
    ensures
        !s.woken(id),
        s.pending(id) is None,
        s.received(id) == s,
        s.taken(id) == s,
        s.disconnected(id) == s,
        s.unregistered(id) == s,
{
    search::lemma_least_none(s.clients.len() as int, s.has_id(id));
    lemma_absent(s.clients, id);
}

} // verus!
