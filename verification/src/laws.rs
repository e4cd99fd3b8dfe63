//! The laws of the library, stated and proved over the same spec functions
//! that the executable functions' contracts use.

use vstd::prelude::*;

use crate::direct_fetch::{direct_events, step_after_success, QueryOutcome, MAX_STEP};
use crate::peer_fetch::{collected_sents, collected_spends, page_terminal, PageOutcome};
use crate::registry::{
    lemma_add_preserves_invariants, lemma_remove_preserves_invariants, lemma_remove_properties,
    peers_after_add, peers_after_remove, peers_after_update, peers_exclude, peers_unique,
};
use crate::sync::{
    peers_after_add_all, peers_after_contact, peers_after_round, round_winner, winner_from,
    PeerContact,
};
use crate::types::{FailureKind, Peer, SentEvent, SpendEvent};

verus! {

/// One registry operation, as exposed by the node manager.
pub enum RegOp {
    AddPeer(Peer),
    RemovePeer(u64),
    UpdatePeer(Peer),
}

/// The peer list after one registry operation.
pub open spec fn peers_after_op(peers: Seq<Peer>, ext: Option<u64>, op: RegOp) -> Seq<Peer> {
    match op {
        RegOp::AddPeer(p) => peers_after_add(peers, ext, p),
        RegOp::RemovePeer(a) => peers_after_remove(peers, a),
        RegOp::UpdatePeer(p) => peers_after_update(peers, ext, p),
    }
}

/// The peer list after a sequence of registry operations, applied in
/// order.
pub open spec fn peers_after_ops(peers: Seq<Peer>, ext: Option<u64>, ops: Seq<RegOp>) -> Seq<
    Peer,
>
    decreases ops.len(),
{
    if ops.len() == 0 {
        peers
    } else {
        peers_after_ops(peers_after_op(peers, ext, ops[0]), ext, ops.drop_first())
    }
}

/// One registry operation keeps the registry invariant.
pub proof fn lemma_op_preserves_invariants(peers: Seq<Peer>, ext: Option<u64>, op: RegOp)
    requires
        peers_unique(peers),
        peers_exclude(peers, ext),
    ensures
        peers_unique(peers_after_op(peers, ext, op)),
        peers_exclude(peers_after_op(peers, ext, op), ext),
{
    match op {
        RegOp::AddPeer(p) => {
            lemma_add_preserves_invariants(peers, ext, p);
        },
        RegOp::RemovePeer(a) => {
            lemma_remove_preserves_invariants(peers, ext, a);
        },
        RegOp::UpdatePeer(p) => {
            lemma_remove_preserves_invariants(peers, ext, p.addr);
            lemma_add_preserves_invariants(peers_after_remove(peers, p.addr), ext, p);
        },
    }
}

/// No sequence of add, remove and update operations can make the registry
/// hold two entries with the same address, or an entry carrying the node's
/// own external address.
pub proof fn lemma_ops_preserve_invariants(peers: Seq<Peer>, ext: Option<u64>, ops: Seq<RegOp>)
    requires
        peers_unique(peers),
        peers_exclude(peers, ext),
    ensures
        peers_unique(peers_after_ops(peers, ext, ops)),
        peers_exclude(peers_after_ops(peers, ext, ops), ext),
    decreases ops.len(),
{
    if ops.len() > 0 {
        lemma_op_preserves_invariants(peers, ext, ops[0]);
        lemma_ops_preserve_invariants(peers_after_op(peers, ext, ops[0]), ext, ops.drop_first());
    }
}

/// Merging a gossiped peer list keeps the registry invariant.
pub proof fn lemma_add_all_preserves_invariants(
    peers: Seq<Peer>,
    ext: Option<u64>,
    list: Seq<Peer>,
)
    requires
        peers_unique(peers),
        peers_exclude(peers, ext),
    ensures
        peers_unique(peers_after_add_all(peers, ext, list)),
        peers_exclude(peers_after_add_all(peers, ext, list), ext),
    decreases list.len(),
{
    if list.len() > 0 {
        lemma_add_preserves_invariants(peers, ext, list[0]);
        lemma_add_all_preserves_invariants(
            peers_after_add(peers, ext, list[0]),
            ext,
            list.drop_first(),
        );
    }
}

/// One peer contact keeps the registry invariant.
pub proof fn lemma_contact_preserves_invariants(
    peers: Seq<Peer>,
    ext: Option<u64>,
    target: Peer,
    c: PeerContact,
)
    requires
        peers_unique(peers),
        peers_exclude(peers, ext),
    ensures
        peers_unique(peers_after_contact(peers, ext, target, c)),
        peers_exclude(peers_after_contact(peers, ext, target, c), ext),
{
    match c {
        PeerContact::Failed(_) => {
            lemma_remove_preserves_invariants(peers, ext, target.addr);
        },
        PeerContact::Succeeded { current_block, gossip } => {
            lemma_remove_preserves_invariants(peers, ext, target.addr);
            let removed = peers_after_remove(peers, target.addr);
            let rec = Peer { addr: target.addr, current_block };
            lemma_add_preserves_invariants(removed, ext, rec);
            let updated = peers_after_add(removed, ext, rec);
            match gossip {
                Ok(list) => {
                    lemma_add_all_preserves_invariants(updated, ext, list@);
                },
                Err(_) => {
                    lemma_remove_preserves_invariants(updated, ext, target.addr);
                },
            }
        },
    }
}

/// However a whole round goes, the registry never ends up with a
/// duplicated address, and never with an entry equal to the node's own
/// external address.
pub proof fn lemma_round_preserves_invariants(
    peers: Seq<Peer>,
    ext: Option<u64>,
    snapshot: Seq<Peer>,
    contacts: Seq<PeerContact>,
)
    requires
        peers_unique(peers),
        peers_exclude(peers, ext),
    ensures
        peers_unique(peers_after_round(peers, ext, snapshot, contacts)),
        peers_exclude(peers_after_round(peers, ext, snapshot, contacts), ext),
    decreases snapshot.len(),
{
    if snapshot.len() > 0 && contacts.len() > 0 {
        lemma_contact_preserves_invariants(peers, ext, snapshot[0], contacts[0]);
        lemma_round_preserves_invariants(
            peers_after_contact(peers, ext, snapshot[0], contacts[0]),
            ext,
            snapshot.drop_first(),
            contacts.drop_first(),
        );
    }
}

/// A round in which not one handshake succeeded elects nobody, whatever
/// provisional choice and best height it starts from; with the round's
/// contract this keeps the previous election standing.
pub proof fn lemma_no_success_keeps_election(snapshot: Seq<Peer>, contacts: Seq<PeerContact>)
    requires
        forall|i: int|
            0 <= i < contacts.len() ==> #[trigger] contacts[i] matches PeerContact::Failed(_),
    ensures
        round_winner(snapshot, contacts) is None,
{
    lemma_all_failed_winner_unchanged(None, 0, snapshot, contacts);
}

/// Failed contacts take no part in the election.
pub proof fn lemma_all_failed_winner_unchanged(
    provisional: Option<Peer>,
    best: u64,
    snapshot: Seq<Peer>,
    contacts: Seq<PeerContact>,
)
    requires
        forall|i: int|
            0 <= i < contacts.len() ==> #[trigger] contacts[i] matches PeerContact::Failed(_),
    ensures
        winner_from(provisional, best, snapshot, contacts) == provisional,
    decreases snapshot.len(),
{
    if snapshot.len() > 0 && contacts.len() > 0 {
        assert(contacts[0] matches PeerContact::Failed(_));
        assert forall|i: int|
            0 <= i < contacts.drop_first().len() implies #[trigger] contacts.drop_first()[i]
            matches PeerContact::Failed(_) by {
            assert(contacts.drop_first()[i] == contacts[i + 1]);
        }
        lemma_all_failed_winner_unchanged(
            provisional,
            best,
            snapshot.drop_first(),
            contacts.drop_first(),
        );
    }
}

/// A provisional winner, once chosen, is never withdrawn: later contacts
/// can only replace it by another winner.
pub proof fn lemma_winner_stays_chosen(
    chosen: Peer,
    best: u64,
    snapshot: Seq<Peer>,
    contacts: Seq<PeerContact>,
)
    ensures
        winner_from(Some(chosen), best, snapshot, contacts) is Some,
    decreases snapshot.len(),
{
    if snapshot.len() > 0 && contacts.len() > 0 {
        match contacts[0] {
            PeerContact::Failed(_) => {
                lemma_winner_stays_chosen(
                    chosen,
                    best,
                    snapshot.drop_first(),
                    contacts.drop_first(),
                );
            },
            PeerContact::Succeeded { current_block, .. } => {
                if current_block >= best {
                    lemma_winner_stays_chosen(
                        Peer { addr: snapshot[0].addr, current_block },
                        current_block,
                        snapshot.drop_first(),
                        contacts.drop_first(),
                    );
                } else {
                    lemma_winner_stays_chosen(
                        chosen,
                        best,
                        snapshot.drop_first(),
                        contacts.drop_first(),
                    );
                }
            },
        }
    }
}

/// A round that observes at least one successful handshake always elects
/// a peer: the converse of [`lemma_no_success_keeps_election`].
pub proof fn lemma_success_elects(
    provisional: Option<Peer>,
    best: u64,
    snapshot: Seq<Peer>,
    contacts: Seq<PeerContact>,
)
    requires
        provisional is None ==> best == 0,
        exists|i: int|
            0 <= i < snapshot.len() && i < contacts.len() && (#[trigger] contacts[i]
                matches PeerContact::Succeeded { .. }),
    ensures
        winner_from(provisional, best, snapshot, contacts) is Some,
    decreases snapshot.len(),
{
    if let Some(p) = provisional {
        lemma_winner_stays_chosen(p, best, snapshot, contacts);
    } else {
        let i = choose|i: int|
            0 <= i < snapshot.len() && i < contacts.len() && (#[trigger] contacts[i]
                matches PeerContact::Succeeded { .. });
        match contacts[0] {
            PeerContact::Succeeded { current_block, .. } => {
                lemma_winner_stays_chosen(
                    Peer { addr: snapshot[0].addr, current_block },
                    current_block,
                    snapshot.drop_first(),
                    contacts.drop_first(),
                );
            },
            PeerContact::Failed(_) => {
                assert(i > 0);
                assert(contacts.drop_first()[i - 1] == contacts[i]);
                lemma_success_elects(
                    provisional,
                    best,
                    snapshot.drop_first(),
                    contacts.drop_first(),
                );
            },
        }
    }
}

/// The election picks a maximum: whenever a round elects a peer, its
/// height reaches the best height seen before the round's contacts, and no
/// successful handshake of the round reported more. Which of several
/// maximal peers is picked is settled by [`winner_from`]: the one observed
/// last.
pub proof fn lemma_winner_bounds_successes(
    provisional: Option<Peer>,
    best: u64,
    snapshot: Seq<Peer>,
    contacts: Seq<PeerContact>,
)
    requires
        provisional is None ==> best == 0,
        provisional matches Some(p) ==> p.current_block == best,
        snapshot.len() == contacts.len(),
    ensures
        winner_from(provisional, best, snapshot, contacts) matches Some(w) ==> w.current_block
            >= best,
        forall|i: int|
            0 <= i < contacts.len() ==> ((#[trigger] contacts[i]) matches
                PeerContact::Succeeded { current_block, .. } ==> winner_from(
                provisional,
                best,
                snapshot,
                contacts,
            ) matches Some(w) && current_block <= w.current_block),
    decreases snapshot.len(),
{
    if snapshot.len() > 0 {
        let s = snapshot.drop_first();
        let c = contacts.drop_first();
        let r = winner_from(provisional, best, snapshot, contacts);
        match contacts[0] {
            PeerContact::Failed(_) => {
                lemma_winner_bounds_successes(provisional, best, s, c);
            },
            PeerContact::Succeeded { current_block, .. } => {
                if current_block >= best {
                    let chosen = Peer { addr: snapshot[0].addr, current_block };
                    lemma_winner_bounds_successes(Some(chosen), current_block, s, c);
                    lemma_winner_stays_chosen(chosen, current_block, s, c);
                } else {
                    lemma_winner_bounds_successes(provisional, best, s, c);
                    if let Some(p) = provisional {
                        lemma_winner_stays_chosen(p, best, s, c);
                    }
                }
            },
        }
        assert forall|i: int|
            0 <= i < contacts.len() implies ((#[trigger] contacts[i]) matches
            PeerContact::Succeeded { current_block, .. } ==> r matches Some(w) && current_block
            <= w.current_block) by {
            if i > 0 {
                assert(c[i - 1] == contacts[i]);
            }
        }
    }
}

/// Merging a gossiped peer list leaves every already-known entry exactly
/// where it was, record untouched: in particular it never alters the block
/// height stored for an already-known peer. New entries are only appended.
pub proof fn lemma_gossip_preserves_known_records(
    peers: Seq<Peer>,
    ext: Option<u64>,
    list: Seq<Peer>,
)
    ensures
        peers_after_add_all(peers, ext, list).len() >= peers.len(),
        forall|i: int|
            0 <= i < peers.len() ==> #[trigger] peers_after_add_all(peers, ext, list)[i]
                == peers[i],
    decreases list.len(),
{
    if list.len() > 0 {
        let step1 = peers_after_add(peers, ext, list[0]);
        lemma_gossip_preserves_known_records(step1, ext, list.drop_first());
        assert forall|i: int|
            0 <= i < peers.len() implies #[trigger] peers_after_add_all(peers, ext, list)[i]
            == peers[i] by {
            assert(peers_after_add_all(step1, ext, list.drop_first())[i] == step1[i]);
        }
    }
}

/// A failed handshake removes exactly the contacted peer: afterwards the
/// registry holds precisely the records of every other address, and (by
/// [`lemma_all_failed_winner_unchanged`]) the failure takes no part in the
/// election either.
pub proof fn lemma_failed_handshake_removes_exactly(
    peers: Seq<Peer>,
    ext: Option<u64>,
    target: Peer,
    kind: FailureKind,
)
    ensures
        forall|q: Peer| #[trigger]
            peers_after_contact(peers, ext, target, PeerContact::Failed(kind)).contains(q) <==> (
            peers.contains(q) && q.addr != target.addr),
{
    lemma_remove_properties(peers, target.addr);
    let r = peers_after_remove(peers, target.addr);
    assert forall|q: Peer| #[trigger] r.contains(q) implies peers.contains(q) && q.addr
        != target.addr by {
        let i = choose|i: int| 0 <= i < r.len() && r[i] == q;
        assert(peers.contains(r[i]));
        assert(r[i].addr != target.addr);
    }
}

/// What one fetched page contributes: its spend list, failures counting
/// for nothing.
pub open spec fn page_spends(p: PageOutcome) -> Seq<SpendEvent> {
    match p {
        PageOutcome::Page { spend_events, .. } => spend_events@,
        PageOutcome::Failed(_) => Seq::empty(),
    }
}

/// The spend lists of all pages of a transcript, concatenated.
pub open spec fn spends_concat(pages: Seq<PageOutcome>) -> Seq<SpendEvent>
    decreases pages.len(),
{
    if pages.len() == 0 {
        Seq::empty()
    } else {
        page_spends(pages[0]) + spends_concat(pages.drop_first())
    }
}

/// What one fetched page contributes: its sent list, failures counting
/// for nothing.
pub open spec fn page_sents(p: PageOutcome) -> Seq<SentEvent> {
    match p {
        PageOutcome::Page { sent_events, .. } => sent_events@,
        PageOutcome::Failed(_) => Seq::empty(),
    }
}

/// The sent lists of all pages of a transcript, concatenated.
pub open spec fn sents_concat(pages: Seq<PageOutcome>) -> Seq<SentEvent>
    decreases pages.len(),
{
    if pages.len() == 0 {
        Seq::empty()
    } else {
        page_sents(pages[0]) + sents_concat(pages.drop_first())
    }
}

/// The events of all query outcomes of a transcript, concatenated,
/// failures counting for nothing.
pub open spec fn events_concat<T>(outcomes: Seq<QueryOutcome<T>>) -> Seq<T>
    decreases outcomes.len(),
{
    if outcomes.len() == 0 {
        Seq::empty()
    } else {
        (match outcomes[0] {
            QueryOutcome::Events(evs) => evs@,
            QueryOutcome::Failed => Seq::empty(),
        }) + events_concat(outcomes.drop_first())
    }
}

/// An honest paginated transcript of a backing data source: every page is
/// delivered, in order, and after the last short page the peer answers
/// once more with the empty page pair that signals end of data.
pub open spec fn honest_pages(pages: Seq<PageOutcome>) -> bool {
    pages.len() > 0 && (forall|i: int| 0 <= i < pages.len() - 1 ==> !page_terminal(pages[i])) && (
    pages.last() matches PageOutcome::Page { spend_events, sent_events } && spend_events@.len()
        == 0 && sent_events@.len() == 0)
}

/// Over an honest transcript the paginated fetch accumulates exactly the
/// concatenation of every page.
pub proof fn lemma_peer_fetch_collects(pages: Seq<PageOutcome>)
    requires
        honest_pages(pages),
    ensures
        collected_spends(pages) == spends_concat(pages),
        collected_sents(pages) == sents_concat(pages),
    decreases pages.len(),
{
    if pages.len() == 1 {
        assert(page_terminal(pages[0]));
        assert(spends_concat(pages.drop_first()) =~= Seq::<SpendEvent>::empty());
        assert(page_spends(pages[0]) =~= Seq::<SpendEvent>::empty());
        assert(spends_concat(pages) =~= Seq::<SpendEvent>::empty());
        assert(sents_concat(pages.drop_first()) =~= Seq::<SentEvent>::empty());
        assert(page_sents(pages[0]) =~= Seq::<SentEvent>::empty());
        assert(sents_concat(pages) =~= Seq::<SentEvent>::empty());
    } else {
        let rest = pages.drop_first();
        assert(!page_terminal(pages[0]));
        assert(rest.last() == pages.last());
        assert forall|i: int| 0 <= i < rest.len() - 1 implies !page_terminal(rest[i]) by {
            assert(rest[i] == pages[i + 1]);
        }
        lemma_peer_fetch_collects(rest);
    }
}

/// An honest adaptive-fetch transcript of the range `[from, to)`: one
/// outcome per query the controller issues, and the transcript ends
/// exactly when the cursor reaches `to`.
pub open spec fn covers<T>(from: int, to: int, step: int, outcomes: Seq<QueryOutcome<T>>) -> bool
    decreases outcomes.len(),
{
    if from >= to {
        outcomes.len() == 0
    } else if outcomes.len() == 0 {
        false
    } else {
        match outcomes[0] {
            QueryOutcome::Events(_) => covers(
                from + step,
                to,
                step_after_success(step),
                outcomes.drop_first(),
            ),
            QueryOutcome::Failed => covers(from, to, step / 2, outcomes.drop_first()),
        }
    }
}

/// A covering run of the adaptive fetch accumulates exactly the
/// concatenation of every answered query.
pub proof fn lemma_direct_collects<T>(
    from: int,
    to: int,
    step: int,
    outcomes: Seq<QueryOutcome<T>>,
)
    requires
        covers(from, to, step, outcomes),
    ensures
        direct_events(from, to, step, outcomes) == events_concat(outcomes),
    decreases outcomes.len(),
{
    if from >= to {
        assert(outcomes.len() == 0);
    } else {
        match outcomes[0] {
            QueryOutcome::Events(evs) => {
                lemma_direct_collects(
                    from + step,
                    to,
                    step_after_success(step),
                    outcomes.drop_first(),
                );
            },
            QueryOutcome::Failed => {
                lemma_direct_collects(from, to, step / 2, outcomes.drop_first());
                assert(events_concat(outcomes) =~= Seq::<T>::empty() + events_concat(
                    outcomes.drop_first(),
                ));
                assert(Seq::<T>::empty() + events_concat(outcomes.drop_first()) =~= events_concat(
                    outcomes.drop_first(),
                ));
            },
        }
    }
}

/// Round trip: the events retrieved through the elected peer's paginated
/// API and those retrieved directly from the provider agree, given that
/// both transcripts honestly deliver the same backing data source. They
/// agree as sequences, so in particular as sets: no omissions and no
/// duplicates either way.
pub proof fn lemma_fetch_round_trip(
    pages: Seq<PageOutcome>,
    from: int,
    to: int,
    outcomes: Seq<QueryOutcome<SpendEvent>>,
    source: Seq<SpendEvent>,
)
    requires
        honest_pages(pages),
        spends_concat(pages) == source,
        covers(from, to, MAX_STEP as int, outcomes),
        events_concat(outcomes) == source,
    ensures
        collected_spends(pages) == source,
        direct_events(from, to, MAX_STEP as int, outcomes) == source,
        collected_spends(pages) == direct_events(from, to, MAX_STEP as int, outcomes),
{
    lemma_peer_fetch_collects(pages);
    lemma_direct_collects(from, to, MAX_STEP as int, outcomes);
}

/// Round trip for the other event kind: sent events fetched through the
/// paginated API and directly from the provider agree in the same way.
pub proof fn lemma_fetch_round_trip_sents(
    pages: Seq<PageOutcome>,
    from: int,
    to: int,
    outcomes: Seq<QueryOutcome<SentEvent>>,
    source: Seq<SentEvent>,
)
    requires
        honest_pages(pages),
        sents_concat(pages) == source,
        covers(from, to, MAX_STEP as int, outcomes),
        events_concat(outcomes) == source,
    ensures
        collected_sents(pages) == source,
        direct_events(from, to, MAX_STEP as int, outcomes) == source,
        collected_sents(pages) == direct_events(from, to, MAX_STEP as int, outcomes),
{
    lemma_peer_fetch_collects(pages);
    lemma_direct_collects(from, to, MAX_STEP as int, outcomes);
}

} // verus!
