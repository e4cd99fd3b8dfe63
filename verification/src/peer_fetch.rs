//! Paginated event fetch from the elected peer.
//!
//! The elected peer's events endpoint is positional: the i-th request asks
//! for the fixed-size window starting `i` pages after the caller's cursors,
//! whatever the earlier pages actually held. A page with both event lists
//! empty signals end of data; any failure ends the fetch with the partial
//! result accumulated so far. The pages themselves arrive as plain values;
//! the driver performs the requests.

use vstd::prelude::*;

use crate::registry::NodeManager;
use crate::types::{FailureKind, SentEvent, SpendEvent};

verus! {

/// The fixed page size of the peer's events endpoint.
pub const PAGE_LENGTH: u64 = 256;

/// The outcome of requesting one page from the elected peer.
pub enum PageOutcome {
    /// Transport, status or parse failure: the fetch stops here and keeps
    /// what it has.
    Failed(FailureKind),
    /// A decoded page. Both lists empty means end of data.
    Page { spend_events: Vec<SpendEvent>, sent_events: Vec<SentEvent> },
}

/// Does this page end the fetch? Failures do, and so does the empty page
/// pair that signals end of data.
pub open spec fn page_terminal(p: PageOutcome) -> bool {
    match p {
        PageOutcome::Failed(_) => true,
        PageOutcome::Page { spend_events, sent_events } => spend_events@.len() == 0
            && sent_events@.len() == 0,
    }
}

/// The spend events a fetch over these pages accumulates: the spend lists
/// of the pages before the first terminal one, concatenated in order.
pub open spec fn collected_spends(pages: Seq<PageOutcome>) -> Seq<SpendEvent>
    decreases pages.len(),
{
    if pages.len() == 0 || page_terminal(pages[0]) {
        Seq::empty()
    } else {
        (match pages[0] {
            PageOutcome::Page { spend_events, .. } => spend_events@,
            PageOutcome::Failed(_) => Seq::empty(),
        }) + collected_spends(pages.drop_first())
    }
}

/// The sent events a fetch over these pages accumulates.
pub open spec fn collected_sents(pages: Seq<PageOutcome>) -> Seq<SentEvent>
    decreases pages.len(),
{
    if pages.len() == 0 || page_terminal(pages[0]) {
        Seq::empty()
    } else {
        (match pages[0] {
            PageOutcome::Page { sent_events, .. } => sent_events@,
            PageOutcome::Failed(_) => Seq::empty(),
        }) + collected_sents(pages.drop_first())
    }
}

/// Does this page end the fetch? Mirrors [`page_terminal`] for driver code,
/// which stops requesting further pages exactly when this holds.
pub fn page_is_terminal(p: &PageOutcome) -> (r: bool)
    ensures
        r == page_terminal(*p),
{
    match p {
        PageOutcome::Failed(_) => true,
        PageOutcome::Page { spend_events, sent_events } => spend_events.len() == 0
            && sent_events.len() == 0,
    }
}

/// Where the i-th request's window starts: the cursor advances by the full
/// page size for every non-terminal page, regardless of how many items the
/// page actually held. The peer's pagination is positional; a short but
/// non-final page would silently skip events, so the endpoint must never
/// send one.
pub fn page_request_start(from: u64, i: u64) -> (r: u64)
    requires
        from + i * PAGE_LENGTH <= u64::MAX,
    ensures
        r == from + i * PAGE_LENGTH,
{
    from + i * PAGE_LENGTH
}

impl NodeManager {
    /// Fetch events from the elected peer, page by page, starting at the
    /// given cursors (counts of already-known events of each kind; they
    /// locate the request windows and do not change what a page transcript
    /// yields). Returns the accumulated spend and sent events and the
    /// elected peer's last known height, or an empty result when no peer
    /// is elected.
    #[allow(unused_variables)]
    pub fn get_events_from_elected_peer(
        &self,
        from_spend: u64,
        from_sent: u64,
        pages: &Vec<PageOutcome>,
    ) -> (r: (Vec<SpendEvent>, Vec<SentEvent>, u64))
        ensures
            (self.elected_peer matches Some(p) ==> r.0@ == collected_spends(pages@) && r.1@
                == collected_sents(pages@) && r.2 == p.current_block),
            self.elected_peer is None ==> r.0@.len() == 0 && r.1@.len() == 0 && r.2 == 0,
    {
        let elected = match self.elected_peer {
            Some(p) => p,
            None => {
                return (Vec::new(), Vec::new(), 0);
            },
        };
        let mut spends: Vec<SpendEvent> = Vec::new();
        let mut sents: Vec<SentEvent> = Vec::new();
        proof {
            assert(pages@.skip(0) =~= pages@);
        }
        let mut i: usize = 0;
        loop
            invariant
                i <= pages@.len(),
                collected_spends(pages@) == spends@ + collected_spends(pages@.skip(i as int)),
                collected_sents(pages@) == sents@ + collected_sents(pages@.skip(i as int)),
            ensures
                spends@ == collected_spends(pages@),
                sents@ == collected_sents(pages@),
            decreases pages@.len() - i,
        {
            if i >= pages.len() {
                proof {
                    assert(pages@.skip(i as int) =~= Seq::<PageOutcome>::empty());
                    assert(spends@ =~= spends@ + Seq::<SpendEvent>::empty());
                    assert(sents@ =~= sents@ + Seq::<SentEvent>::empty());
                }
                break ;
            }
            proof {
                assert(pages@.skip(i as int)[0] == pages@[i as int]);
                assert(pages@.skip(i as int).drop_first() =~= pages@.skip(i as int + 1));
            }
            match &pages[i] {
                PageOutcome::Failed(_) => {
                    proof {
                        assert(collected_spends(pages@.skip(i as int)) =~= Seq::<
                            SpendEvent,
                        >::empty());
                        assert(collected_sents(pages@.skip(i as int)) =~= Seq::<
                            SentEvent,
                        >::empty());
                        assert(spends@ =~= spends@ + Seq::<SpendEvent>::empty());
                        assert(sents@ =~= sents@ + Seq::<SentEvent>::empty());
                    }
                    break ;
                },
                PageOutcome::Page { spend_events, sent_events } => {
                    if spend_events.len() == 0 && sent_events.len() == 0 {
                        proof {
                            assert(collected_spends(pages@.skip(i as int)) =~= Seq::<
                                SpendEvent,
                            >::empty());
                            assert(collected_sents(pages@.skip(i as int)) =~= Seq::<
                                SentEvent,
                            >::empty());
                            assert(spends@ =~= spends@ + Seq::<SpendEvent>::empty());
                            assert(sents@ =~= sents@ + Seq::<SentEvent>::empty());
                        }
                        break ;
                    }
                    let ghost spends_before = spends@;
                    let mut j: usize = 0;
                    while j < spend_events.len()
                        invariant
                            j <= spend_events@.len(),
                            spends@ == spends_before + spend_events@.take(j as int),
                        decreases spend_events@.len() - j,
                    {
                        spends.push(spend_events[j]);
                        proof {
                            assert(spend_events@.take(j as int + 1) =~= spend_events@.take(
                                j as int,
                            ).push(spend_events@[j as int]));
                        }
                        j += 1;
                    }
                    let ghost sents_before = sents@;
                    let mut k: usize = 0;
                    while k < sent_events.len()
                        invariant
                            k <= sent_events@.len(),
                            sents@ == sents_before + sent_events@.take(k as int),
                        decreases sent_events@.len() - k,
                    {
                        sents.push(sent_events[k]);
                        proof {
                            assert(sent_events@.take(k as int + 1) =~= sent_events@.take(
                                k as int,
                            ).push(sent_events@[k as int]));
                        }
                        k += 1;
                    }
                    proof {
                        assert(spend_events@.take(spend_events@.len() as int) =~= spend_events@);
                        assert(sent_events@.take(sent_events@.len() as int) =~= sent_events@);
                        assert(spends@ + collected_spends(pages@.skip(i as int + 1))
                            =~= spends_before + collected_spends(pages@.skip(i as int)));
                        assert(sents@ + collected_sents(pages@.skip(i as int + 1))
                            =~= sents_before + collected_sents(pages@.skip(i as int)));
                    }
                },
            }
            i += 1;
        }
        (spends, sents, elected.current_block)
    }
}

} // verus!
