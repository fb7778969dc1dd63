//! The account registry and the two drivers around it: routing each record
//! to its client's processor, creating one on first reference, and — once
//! ingestion has ended — collecting every final snapshot exactly once.

use std::collections::HashMap;
use vstd::prelude::*;

use crate::model::{account_wf, initial_account, Account, AccountState, Collect, Transaction,
    TransactionError};
use crate::transaction::{apply_fits, spec_apply, AccountHandler};

verus! {

broadcast use vstd::std_specs::hash::group_hash_axioms;

/// Maps each client to its one live processor, in order of first
/// reference. Created lazily: a client exists from the first record that
/// names it. No processor is ever evicted during a run.
pub struct Registry {
    handlers: Vec<AccountHandler>,
    index: HashMap<u16, usize>,
}

impl Registry {
    /// The account states held, in order of first reference.
    pub closed spec fn states(&self) -> Seq<AccountState> {
        self.handlers@.map_values(|h: AccountHandler| h.state())
    }

    /// Whether a processor exists for `client`.
    pub closed spec fn has_client(&self, client: u16) -> bool {
        self.index@.dom().contains(client)
    }

    /// The position of `client`'s processor in order of first reference.
    pub closed spec fn client_at(&self, client: u16) -> int {
        self.index@[client] as int
    }

    /// Every processor is running and well formed, and the index is an
    /// exact two-way directory of the processors' clients.
    pub closed spec fn wf(&self) -> bool {
        &&& forall|i: int|
            0 <= i < self.handlers@.len() ==> (#[trigger] self.handlers@[i]).running()
                && self.handlers@[i].wf()
        &&& forall|c: u16|
            self.index@.dom().contains(c) ==> #[trigger] self.index@[c] < self.handlers@.len()
                && self.handlers@[self.index@[c] as int].state().client == c
        &&& forall|i: int|
            0 <= i < self.handlers@.len() ==> self.index@.dom().contains(
                (#[trigger] self.handlers@[i]).state().client,
            ) && self.index@[self.handlers@[i].state().client] == i
    }

    /// No two processors serve the same client.
    pub proof fn lemma_clients_distinct(&self)
        requires
            self.wf(),
        ensures
            forall|i: int, j: int|
                0 <= i < j < self.states().len() ==> self.states()[i].client
                    != self.states()[j].client,
    {
        assert forall|i: int, j: int| 0 <= i < j < self.states().len() implies self.states()[
            i
        ].client != self.states()[j].client by {
            assert(self.index@[self.handlers@[i].state().client] == i);
            assert(self.index@[self.handlers@[j].state().client] == j);
        }
    }

    /// An empty registry.
    pub fn new() -> (r: Registry)
        ensures
            r.wf(),
            r.states() == Seq::<AccountState>::empty(),
    {
        let r = Registry { handlers: Vec::new(), index: HashMap::new() };
        proof {
            assert(r.states() =~= Seq::<AccountState>::empty());
        }
        r
    }

    /// Routes one record to its client's processor, creating the processor
    /// on first reference. Yields the outcome the processor reported, or
    /// `None` when it refused to apply an out-of-range or inconsistent
    /// record, in which case the batch should stop.
    pub fn route(&mut self, t: &Transaction) -> (r: Option<Result<(), TransactionError>>)
        requires
            old(self).wf(),
        ensures
            final(self).wf(),
            final(self).has_client(t.client),
            forall|c: u16|
                old(self).has_client(c) ==> final(self).has_client(c) && final(self).client_at(c)
                    == old(self).client_at(c),
            ({
                let known = old(self).has_client(t.client);
                let i = if known {
                    old(self).client_at(t.client)
                } else {
                    old(self).states().len() as int
                };
                let base = if known {
                    old(self).states()
                } else {
                    old(self).states().push(initial_account(t.client))
                };
                let s0 = base[i];
                &&& final(self).client_at(t.client) == i
                &&& (if apply_fits(s0, *t) {
                    let (s2, res) = spec_apply(s0, *t);
                    final(self).states() == base.update(i, s2) && r == Some(res)
                } else {
                    final(self).states() == base && r is None
                })
            }),
    {
        let idx: usize = match self.index.get(&t.client) {
            Some(i) => *i,
            None => {
                let i = self.handlers.len();
                self.handlers.push(AccountHandler::new(t.client));
                self.index.insert(t.client, i);
                proof {
                    assert(self.states() =~= old(self).states().push(initial_account(t.client)));
                }
                i
            },
        };
        let ghost base = self.states();
        let ghost pre = self.handlers@;
        let h = &mut self.handlers[idx];
        let r = h.handle(t);
        proof {
            assert(self.handlers@ == pre.update(idx as int, *h));
            if apply_fits(base[idx as int], *t) {
                assert(self.states() =~= base.update(
                    idx as int,
                    spec_apply(base[idx as int], *t).0,
                ));
            } else {
                assert(self.states() =~= base);
            }
        }
        r
    }

    /// Sends the terminal request to every processor in order of first
    /// reference and returns the snapshots: one per account, in that
    /// order, each carrying the account's state at the moment it was
    /// collected, and no client twice. The registry is consumed.
    pub fn collect_all(self) -> (snaps: Vec<Account>)
        requires
            self.wf(),
        ensures
            snaps@.len() == self.states().len(),
            forall|i: int| 0 <= i < snaps@.len() ==> account_wf(#[trigger] snaps@[i]@),
            forall|i: int| 0 <= i < snaps@.len() ==> (#[trigger] snaps@[i])@ == self.states()[i],
            forall|i: int, j: int|
                0 <= i < j < snaps@.len() ==> snaps@[i]@.client != snaps@[j]@.client,
    {
        proof {
            self.lemma_clients_distinct();
        }
        let ghost states0 = self.states();
        let mut handlers = self.handlers;
        let mut snaps: Vec<Account> = Vec::new();
        let mut k: usize = 0;
        while k < handlers.len()
            invariant
                k <= handlers.len(),
                handlers@.len() == states0.len(),
                snaps@.len() == k,
                forall|i: int|
                    k <= i < handlers@.len() ==> (#[trigger] handlers@[i]).running()
                        && handlers@[i].wf() && handlers@[i].state() == states0[i],
                forall|i: int| 0 <= i < k ==> (#[trigger] snaps@[i])@ == states0[i],
                forall|i: int| 0 <= i < k ==> account_wf(#[trigger] snaps@[i]@),
            decreases handlers@.len() - k,
        {
            let h = &mut handlers[k];
            match h.collect(Collect) {
                Some(a) => {
                    snaps.push(a);
                },
                None => {
                    proof {
                        assert(false);
                    }
                },
            }
            k = k + 1;
        }
        snaps
    }
}

} // verus!
