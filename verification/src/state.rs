use vstd::prelude::*;

use crate::error::ContractError;

verus! {

broadcast use vstd::set::group_set_axioms;

/// One denominated amount carried by a transaction. The engine treats both
/// fields as opaque data: it never inspects a denomination or adds quantities.
#[derive(Debug, PartialEq, Eq)]
pub struct Coin {
    pub denom: String,
    pub amount: u128,
}

/// A proposed fund transfer.
///
/// `id` is assigned by the registry, sequentially from 0; `num_confirmations`
/// counts the distinct admins that approved the transfer, the proposer
/// included.
#[derive(Debug, PartialEq, Eq)]
pub struct Transaction {
    pub to: String,
    pub coins: Vec<Coin>,
    pub id: u32,
    pub num_confirmations: u32,
}

/// Observable equality of transactions: every field agrees, with the coin
/// list compared element by element.
pub open spec fn tx_eq(a: Transaction, b: Transaction) -> bool {
    &&& a.to == b.to
    &&& a.coins@ == b.coins@
    &&& a.id == b.id
    &&& a.num_confirmations == b.num_confirmations
}

fn clone_coin(c: &Coin) -> (r: Coin)
    ensures
        r == *c,
{
    Coin { denom: c.denom.clone(), amount: c.amount }
}

fn clone_coins(cs: &Vec<Coin>) -> (r: Vec<Coin>)
    ensures
        r@ == cs@,
{
    let mut out: Vec<Coin> = Vec::new();
    let mut i: usize = 0;
    while i < cs.len()
        invariant
            i <= cs@.len(),
            out@ == cs@.subrange(0, i as int),
        decreases cs@.len() - i,
    {
        out.push(clone_coin(&cs[i]));
        proof {
            assert(out@ =~= cs@.subrange(0, i + 1));
        }
        i += 1;
    }
    proof {
        assert(out@ =~= cs@);
    }
    out
}

impl Transaction {
    pub fn new(to: String, id: u32, coins: Vec<Coin>) -> (r: Self)
        ensures
            r == (Transaction { to, coins, id, num_confirmations: 0u32 }),
    {
        Self { to, coins, id, num_confirmations: 0 }
    }

    /// A copy of this transaction, suitable for handing out to observers.
    pub fn snapshot(&self) -> (r: Transaction)
        ensures
            tx_eq(r, *self),
    {
        Transaction {
            to: self.to.clone(),
            coins: clone_coins(&self.coins),
            id: self.id,
            num_confirmations: self.num_confirmations,
        }
    }
}

/// The transaction registry: an append-only sequence of transactions.
/// Transactions are never deleted or reordered, and only their confirmation
/// counter ever changes after they are stored.
#[derive(Debug)]
pub struct PendingTransactions(pub Vec<Transaction>);

impl View for PendingTransactions {
    type V = Seq<Transaction>;

    open spec fn view(&self) -> Seq<Transaction> {
        self.0@
    }
}

impl PendingTransactions {
    /// A well-formed registry assigns ids sequentially: the id of every
    /// stored transaction is its position.
    pub open spec fn wf(&self) -> bool {
        &&& self@.len() <= u32::MAX
        &&& forall|i: int| 0 <= i < self@.len() ==> (#[trigger] self@[i]).id == i as u32
    }

    pub fn new(txs: Vec<Transaction>) -> (r: Self)
        ensures
            r@ == txs@,
    {
        PendingTransactions(txs)
    }

    /// The id the next stored transaction must carry: the count of
    /// transactions stored so far.
    pub fn next_id(&self) -> (id: u32)
        requires
            self@.len() <= u32::MAX,
        ensures
            id == self@.len(),
    {
        self.0.len() as u32
    }

    pub fn push(&mut self, tx: Transaction)
        ensures
            final(self)@ == old(self)@.push(tx),
    {
        self.0.push(tx);
    }

    /// Point lookup by transaction id; returns the first stored transaction
    /// carrying `tx_id`, if any.
    pub fn find(&self, tx_id: u32) -> (r: Option<&Transaction>)
        ensures
            r is Some <==> exists|i: int|
                0 <= i < self@.len() && (#[trigger] self@[i]).id == tx_id,
            r matches Some(t) ==> exists|i: int|
                0 <= i < self@.len() && (#[trigger] self@[i]).id == tx_id && *t == self@[i]
                    && (forall|j: int| 0 <= j < i ==> self@[j].id != tx_id),
    {
        let mut i: usize = 0;
        while i < self.0.len()
            invariant
                i <= self@.len(),
                forall|j: int| 0 <= j < i ==> (#[trigger] self@[j]).id != tx_id,
            decreases self@.len() - i,
        {
            if self.0[i].id == tx_id {
                return Some(&self.0[i]);
            }
            i += 1;
        }
        None
    }

    /// Positional access, used by observers walking the full list.
    pub fn index(&self, at: usize) -> (r: Option<&Transaction>)
        ensures
            at < self@.len() ==> (r matches Some(t) && *t == self@[at as int]),
            at >= self@.len() ==> r is None,
    {
        if at < self.0.len() {
            Some(&self.0[at])
        } else {
            None
        }
    }

    /// Adds one confirmation to the first transaction carrying `tx_id`;
    /// reports `NonExistentTx` when no stored transaction carries it.
    pub fn increment_confirmations(&mut self, tx_id: u32) -> (r: Result<(), ContractError>)
        requires
            forall|i: int|
                0 <= i < old(self)@.len() && (#[trigger] old(self)@[i]).id == tx_id
                    ==> old(self)@[i].num_confirmations < u32::MAX,
        ensures
            r is Ok <==> exists|i: int|
                0 <= i < old(self)@.len() && (#[trigger] old(self)@[i]).id == tx_id,
            r is Ok ==> exists|i: int|
                0 <= i < old(self)@.len() && (#[trigger] old(self)@[i]).id == tx_id
                    && (forall|j: int| 0 <= j < i ==> old(self)@[j].id != tx_id)
                    && final(self)@ == old(self)@.update(
                    i,
                    (Transaction {
                        to: old(self)@[i].to,
                        coins: old(self)@[i].coins,
                        id: old(self)@[i].id,
                        num_confirmations: (old(self)@[i].num_confirmations + 1) as u32,
                    }),
                ),
            r is Err ==> *final(self) == *old(self) && r == Err::<(), ContractError>(
                ContractError::NonExistentTx(tx_id),
            ),
    {
        let mut i: usize = 0;
        while i < self.0.len()
            invariant
                i <= self@.len(),
                forall|j: int| 0 <= j < i ==> (#[trigger] self@[j]).id != tx_id,
                *self == *old(self),
                forall|k: int|
                    0 <= k < self@.len() && (#[trigger] self@[k]).id == tx_id
                        ==> self@[k].num_confirmations < u32::MAX,
            decreases self@.len() - i,
        {
            if self.0[i].id == tx_id {
                let tx = &mut self.0[i];
                tx.num_confirmations = tx.num_confirmations + 1;
                return Ok(());
            }
            i += 1;
        }
        Err(ContractError::NonExistentTx(tx_id))
    }
}

/// The admin set and the quorum threshold, fixed at initialization and never
/// mutated afterwards.
#[derive(Debug)]
pub struct Ledger {
    pub admins: Vec<String>,
    pub quorum: u32,
}

impl Ledger {
    /// The principal named by `who` is one of the configured admins.
    pub open spec fn spec_is_admin(&self, who: Seq<char>) -> bool {
        exists|i: int| 0 <= i < self.admins@.len() && (#[trigger] self.admins@[i])@ == who
    }

    /// A valid ledger: at least one admin, and a quorum that the admin set
    /// can meet.
    pub open spec fn wf(&self) -> bool {
        &&& 0 < self.admins@.len() <= u32::MAX
        &&& 1 <= self.quorum <= self.admins@.len()
    }

    /// Membership test used to authorize every mutating operation.
    pub fn is_admin(&self, who: &String) -> (r: bool)
        ensures
            r == self.spec_is_admin(who@),
    {
        let mut i: usize = 0;
        while i < self.admins.len()
            invariant
                i <= self.admins@.len(),
                forall|j: int| 0 <= j < i ==> (#[trigger] self.admins@[j])@ != who@,
            decreases self.admins@.len() - i,
        {
            if self.admins[i] == *who {
                return true;
            }
            i += 1;
        }
        false
    }
}

/// One approval record: the named admin approved the transaction with the
/// given id.
#[derive(Debug, PartialEq, Eq)]
pub struct Approval {
    pub admin: String,
    pub tx_id: u32,
}

/// Records which (admin, transaction id) pairs have approved, so that no
/// admin is ever counted twice for the same transaction.
#[derive(Debug)]
pub struct ApprovalTracker {
    pub records: Vec<Approval>,
}

impl ApprovalTracker {
    /// The admin named by `admin` holds an approval record for `tx_id`.
    /// Absence of a record means "has not approved".
    pub open spec fn spec_has_approved(&self, admin: Seq<char>, tx_id: u32) -> bool {
        exists|i: int|
            0 <= i < self.records@.len() && (#[trigger] self.records@[i]).admin@ == admin
                && self.records@[i].tx_id == tx_id
    }

    /// The set of distinct admins holding an approval record for `tx_id`.
    pub open spec fn approvers(&self, tx_id: u32) -> Set<Seq<char>> {
        Set::new(|a: Seq<char>| self.spec_has_approved(a, tx_id))
    }

    /// No admin holds two records for the same transaction.
    pub open spec fn wf(&self) -> bool {
        forall|i: int, j: int|
            0 <= i < j < self.records@.len()
                ==> !((#[trigger] self.records@[i]).admin@ == (#[trigger] self.records@[j]).admin@
                && self.records@[i].tx_id == self.records@[j].tx_id)
    }

    pub fn new() -> (r: Self)
        ensures
            r.records@.len() == 0,
    {
        ApprovalTracker { records: Vec::new() }
    }

    pub fn has_approved(&self, admin: &String, tx_id: u32) -> (r: bool)
        ensures
            r == self.spec_has_approved(admin@, tx_id),
    {
        let mut i: usize = 0;
        while i < self.records.len()
            invariant
                i <= self.records@.len(),
                forall|j: int|
                    0 <= j < i
                        ==> !((#[trigger] self.records@[j]).admin@ == admin@
                        && self.records@[j].tx_id == tx_id),
            decreases self.records@.len() - i,
        {
            if self.records[i].tx_id == tx_id && self.records[i].admin == *admin {
                return true;
            }
            i += 1;
        }
        false
    }

    /// Marks (admin, tx_id) as approved. The engine only ever records a pair
    /// once; requiring that here is what keeps the tracker duplicate-free.
    pub fn record_approval(&mut self, admin: String, tx_id: u32)
        requires
            !old(self).spec_has_approved(admin@, tx_id),
        ensures
            final(self).records@ == old(self).records@.push((Approval { admin, tx_id })),
    {
        self.records.push(Approval { admin, tx_id });
    }
}

impl ApprovalTracker {
    /// The approvers of `tx_id` among the first `k` records only.
    pub open spec fn approvers_upto(&self, tx_id: u32, k: int) -> Set<Seq<char>> {
        Set::new(
            |a: Seq<char>|
                exists|i: int|
                    0 <= i < k && i < self.records@.len() && (#[trigger] self.records@[i]).admin@
                        == a && self.records@[i].tx_id == tx_id,
        )
    }

    /// Walking one more record either adds its admin (when it names `tx_id`)
    /// or leaves the prefix approver set unchanged; the set stays finite.
    pub proof fn lemma_approvers_upto_step(&self, tx_id: u32, k: int)
        requires
            0 <= k < self.records@.len(),
            self.approvers_upto(tx_id, k).finite(),
        ensures
            self.records@[k].tx_id == tx_id ==> self.approvers_upto(tx_id, k + 1)
                == self.approvers_upto(tx_id, k).insert(self.records@[k].admin@),
            self.records@[k].tx_id != tx_id ==> self.approvers_upto(tx_id, k + 1)
                == self.approvers_upto(tx_id, k),
            self.approvers_upto(tx_id, k + 1).finite(),
    {
        if self.records@[k].tx_id == tx_id {
            assert(self.approvers_upto(tx_id, k + 1) =~= self.approvers_upto(tx_id, k).insert(
                self.records@[k].admin@,
            ));
        } else {
            assert(self.approvers_upto(tx_id, k + 1) =~= self.approvers_upto(tx_id, k));
        }
    }

    /// No records walked, no approvers seen.
    pub proof fn lemma_approvers_upto_empty(&self, tx_id: u32)
        ensures
            self.approvers_upto(tx_id, 0) == Set::<Seq<char>>::empty(),
            self.approvers_upto(tx_id, 0).len() == 0,
            self.approvers_upto(tx_id, 0).finite(),
    {
        assert(self.approvers_upto(tx_id, 0) =~= Set::<Seq<char>>::empty());
    }

    /// Walking every record yields exactly the approver set.
    pub proof fn lemma_approvers_upto_full(&self, tx_id: u32)
        ensures
            self.approvers_upto(tx_id, self.records@.len() as int) == self.approvers(tx_id),
    {
        assert(self.approvers_upto(tx_id, self.records@.len() as int) =~= self.approvers(
            tx_id,
        ));
    }
}

/// After pushing one record, the approver set of that record's transaction
/// gains exactly that record's admin, and no other transaction's approver
/// set changes.
pub proof fn lemma_approvers_after_record(
    t0: ApprovalTracker,
    t1: ApprovalTracker,
    rec: Approval,
)
    requires
        t1.records@ == t0.records@.push(rec),
    ensures
        forall|a: Seq<char>, id: u32|
            t1.spec_has_approved(a, id) <==> (t0.spec_has_approved(a, id) || (a == rec.admin@
                && id == rec.tx_id)),
        t1.approvers(rec.tx_id) == t0.approvers(rec.tx_id).insert(rec.admin@),
        forall|other: u32|
            other != rec.tx_id ==> #[trigger] t1.approvers(other) == t0.approvers(other),
{
    let n = t0.records@.len() as int;
    assert forall|a: Seq<char>, id: u32| t1.spec_has_approved(a, id) implies (
    t0.spec_has_approved(a, id) || (a == rec.admin@ && id == rec.tx_id)) by {
        let i = choose|i: int|
            0 <= i < t1.records@.len() && (#[trigger] t1.records@[i]).admin@ == a
                && t1.records@[i].tx_id == id;
        if i < n {
            assert(t0.records@[i] == t1.records@[i]);
        }
    };
    assert forall|a: Seq<char>, id: u32| (t0.spec_has_approved(a, id) || (a == rec.admin@ && id
        == rec.tx_id)) implies t1.spec_has_approved(a, id) by {
        if t0.spec_has_approved(a, id) {
            let i = choose|i: int|
                0 <= i < t0.records@.len() && (#[trigger] t0.records@[i]).admin@ == a
                    && t0.records@[i].tx_id == id;
            assert(t1.records@[i] == t0.records@[i]);
        } else {
            assert(t1.records@[n].admin@ == a && t1.records@[n].tx_id == id);
        }
    };
    assert(t1.approvers(rec.tx_id) =~= t0.approvers(rec.tx_id).insert(rec.admin@));
    assert forall|other: u32| other != rec.tx_id implies #[trigger] t1.approvers(other)
        == t0.approvers(other) by {
        assert(t1.approvers(other) =~= t0.approvers(other));
    };
}

/// When every record belongs to an admin of `l`, the approver set of any
/// transaction is finite and no larger than the admin set.
pub proof fn lemma_approver_count(t: ApprovalTracker, l: Ledger, tx_id: u32)
    requires
        forall|i: int|
            0 <= i < t.records@.len() ==> l.spec_is_admin((#[trigger] t.records@[i]).admin@),
    ensures
        t.approvers(tx_id).finite(),
        t.approvers(tx_id).len() <= l.admins@.len(),
{
    let views = l.admins@.map_values(|s: String| s@);
    assert forall|a: Seq<char>| t.approvers(tx_id).contains(a) implies views.to_set().contains(
        a,
    ) by {
        let i = choose|i: int|
            0 <= i < t.records@.len() && (#[trigger] t.records@[i]).admin@ == a
                && t.records@[i].tx_id == tx_id;
        let j = choose|j: int| 0 <= j < l.admins@.len() && (#[trigger] l.admins@[j])@ == a;
        assert(views[j] == a);
        assert(views.contains(a));
    };
    assert(t.approvers(tx_id).subset_of(views.to_set()));
    vstd::seq_lib::seq_to_set_is_finite(views);
    views.lemma_cardinality_of_set();
    vstd::set_lib::lemma_len_subset(t.approvers(tx_id), views.to_set());
}

/// A transaction no record mentions has an empty approver set.
pub proof fn lemma_approvers_absent(t: ApprovalTracker, tx_id: u32)
    requires
        forall|i: int| 0 <= i < t.records@.len() ==> (#[trigger] t.records@[i]).tx_id != tx_id,
    ensures
        t.approvers(tx_id) == Set::<Seq<char>>::empty(),
        t.approvers(tx_id).len() == 0,
{
    assert(t.approvers(tx_id) =~= Set::<Seq<char>>::empty());
}

/// The whole engine: the immutable ledger, the transaction registry and the
/// approval tracker, kept in lockstep.
#[derive(Debug)]
pub struct ApprovalEngine {
    pub ledger: Ledger,
    pub txs: PendingTransactions,
    pub approvals: ApprovalTracker,
}

impl ApprovalEngine {
    /// The engine invariant. Beyond the well-formedness of each part, every
    /// approval record names an admin and an existing transaction, and each
    /// transaction's confirmation counter equals the number of distinct
    /// admins holding an approval record for it — the pairing that makes
    /// double counting impossible.
    pub open spec fn wf(&self) -> bool {
        &&& self.ledger.wf()
        &&& self.txs.wf()
        &&& self.approvals.wf()
        &&& forall|i: int|
            0 <= i < self.approvals.records@.len() ==> self.ledger.spec_is_admin(
                (#[trigger] self.approvals.records@[i]).admin@,
            ) && self.approvals.records@[i].tx_id < self.txs@.len()
        &&& forall|i: int|
            0 <= i < self.txs@.len() ==> (#[trigger] self.txs@[i]).num_confirmations
                == self.approvals.approvers(self.txs@[i].id).len()
    }

    /// Decides the engine invariant at run time. A host that rebuilds the
    /// engine from untrusted storage can call this before operating on it:
    /// the answer is `true` exactly for well-formed engines.
    pub fn check_wf(&self) -> (r: bool)
        ensures
            r == self.wf(),
    {
        // The ledger's bounds.
        if self.ledger.admins.len() == 0 || self.ledger.admins.len() > u32::MAX as usize {
            return false;
        }
        if self.ledger.quorum == 0 || self.ledger.quorum as usize > self.ledger.admins.len() {
            return false;
        }
        // Sequential ids in the registry.
        if self.txs.0.len() > u32::MAX as usize {
            return false;
        }
        let mut i: usize = 0;
        while i < self.txs.0.len()
            invariant
                i <= self.txs@.len(),
                self.txs@.len() <= u32::MAX,
                forall|j: int| 0 <= j < i ==> (#[trigger] self.txs@[j]).id == j as u32,
            decreases self.txs@.len() - i,
        {
            if self.txs.0[i].id as usize != i {
                return false;
            }
            i += 1;
        }
        // No duplicate (admin, id) pairs in the tracker.
        let mut a: usize = 0;
        while a < self.approvals.records.len()
            invariant
                a <= self.approvals.records@.len(),
                forall|x: int, y: int|
                    0 <= x < y < self.approvals.records@.len() && x < a ==> !((
                    #[trigger] self.approvals.records@[x]).admin@ == (
                    #[trigger] self.approvals.records@[y]).admin@
                        && self.approvals.records@[x].tx_id == self.approvals.records@[y].tx_id),
            decreases self.approvals.records@.len() - a,
        {
            let mut b: usize = a + 1;
            while b < self.approvals.records.len()
                invariant
                    a < self.approvals.records@.len(),
                    a < b <= self.approvals.records@.len(),
                    forall|y: int|
                        a < y < b ==> !((#[trigger] self.approvals.records@[y]).admin@
                            == self.approvals.records@[a as int].admin@
                            && self.approvals.records@[y].tx_id
                            == self.approvals.records@[a as int].tx_id),
                decreases self.approvals.records@.len() - b,
            {
                if self.approvals.records[b].tx_id == self.approvals.records[a].tx_id
                    && self.approvals.records[b].admin == self.approvals.records[a].admin {
                    return false;
                }
                b += 1;
            }
            a += 1;
        }
        // Every record names an admin and an existing transaction.
        let mut k: usize = 0;
        while k < self.approvals.records.len()
            invariant
                k <= self.approvals.records@.len(),
                forall|j: int|
                    0 <= j < k ==> self.ledger.spec_is_admin(
                        (#[trigger] self.approvals.records@[j]).admin@,
                    ) && self.approvals.records@[j].tx_id < self.txs@.len(),
            decreases self.approvals.records@.len() - k,
        {
            if !self.ledger.is_admin(&self.approvals.records[k].admin) {
                return false;
            }
            if self.approvals.records[k].tx_id as usize >= self.txs.0.len() {
                return false;
            }
            k += 1;
        }
        // Every counter equals the number of records for its transaction,
        // which — the tracker being duplicate-free — is the size of its
        // approver set.
        let mut t: usize = 0;
        while t < self.txs.0.len()
            invariant
                t <= self.txs@.len(),
                self.txs@.len() <= u32::MAX,
                self.approvals.wf(),
                forall|j: int| 0 <= j < self.txs@.len() ==> (#[trigger] self.txs@[j]).id == j as u32,
                forall|j: int|
                    0 <= j < t ==> (#[trigger] self.txs@[j]).num_confirmations
                        == self.approvals.approvers(self.txs@[j].id).len(),
            decreases self.txs@.len() - t,
        {
            let id = self.txs.0[t].id;
            let mut count: usize = 0;
            let mut k: usize = 0;
            proof {
                self.approvals.lemma_approvers_upto_empty(id);
            }
            while k < self.approvals.records.len()
                invariant
                    k <= self.approvals.records@.len(),
                    self.approvals.wf(),
                    count <= k,
                    self.approvals.approvers_upto(id, k as int).finite(),
                    count == self.approvals.approvers_upto(id, k as int).len(),
                decreases self.approvals.records@.len() - k,
            {
                proof {
                    self.approvals.lemma_approvers_upto_step(id, k as int);
                    if self.approvals.records@[k as int].tx_id == id {
                        // A duplicate pair would exist if this admin already
                        // appeared among the first k records for this id.
                        assert(!self.approvals.approvers_upto(id, k as int).contains(
                            self.approvals.records@[k as int].admin@,
                        )) by {
                            if self.approvals.approvers_upto(id, k as int).contains(
                                self.approvals.records@[k as int].admin@,
                            ) {
                                let w = choose|i: int|
                                    0 <= i < k && i < self.approvals.records@.len() && (
                                    #[trigger] self.approvals.records@[i]).admin@
                                        == self.approvals.records@[k as int].admin@
                                        && self.approvals.records@[i].tx_id == id;
                                assert(!(self.approvals.records@[w].admin@
                                    == self.approvals.records@[k as int].admin@
                                    && self.approvals.records@[w].tx_id
                                    == self.approvals.records@[k as int].tx_id));
                            }
                        };
                    }
                }
                if self.approvals.records[k].tx_id == id {
                    count += 1;
                }
                k += 1;
            }
            proof {
                self.approvals.lemma_approvers_upto_full(id);
            }
            if count != self.txs.0[t].num_confirmations as usize {
                return false;
            }
            t += 1;
        }
        true
    }
}

} // verus!
