//! The invoice book shared by both ledgers: invoices numbered 1, 2, 3, ...
//! in creation order, each pending until its client pays it or its worker
//! cancels it, and the list of invoice ids of each worker.

use vstd::prelude::*;
use crate::error::LedgerError;
use crate::registry::{assign, distinct_keys, find_key, lemma_assign, lemma_index_of, lookup_or, put};

verus! {

#[derive(Debug, Clone, Copy, PartialEq, Eq, Structural)]
pub enum InvoiceStatus {
    Pending,
    Paid,
    Cancelled,
}

/// An invoice as the book keeps it. Addresses are held by their string form.
#[derive(Clone, Debug)]
pub struct InvoiceRecord {
    pub id: u64,
    pub worker: String,
    pub client: String,
    pub amount: i128,
    pub description: String,
    pub status: InvoiceStatus,
    pub created_at: u64,
    /// 0 while the invoice is not paid.
    pub paid_at: u64,
}

/// The model of the book: the invoices in creation order.
pub type InvoicesModel = Seq<InvoiceRecord>;

/// Invoice `i` (from 0) has id `i + 1`.
pub open spec fn well_numbered(s: InvoicesModel) -> bool {
    forall|i: int| 0 <= i < s.len() ==> #[trigger] s[i].id == i + 1
}

/// An invoice that is not paid has no payment time.
pub open spec fn unpaid_have_no_paid_at(s: InvoicesModel) -> bool {
    forall|i: int| 0 <= i < s.len() && #[trigger] s[i].status != InvoiceStatus::Paid ==> s[i].paid_at == 0
}

pub open spec fn invoices_wf(s: InvoicesModel) -> bool {
    &&& well_numbered(s)
    &&& unpaid_have_no_paid_at(s)
}

/// The invoice with id `id`, if there is one.
pub open spec fn invoice_at(s: InvoicesModel, id: u64) -> Option<InvoiceRecord> {
    if 1 <= id <= s.len() {
        Some(s[id - 1])
    } else {
        None
    }
}

/// The ids of the invoices of worker `w`, in creation order.
pub open spec fn ids_by_worker(s: InvoicesModel, w: Seq<char>) -> Seq<u64>
    decreases s.len(),
{
    if s.len() == 0 {
        Seq::empty()
    } else if s.last().worker@ == w {
        ids_by_worker(s.drop_last(), w).push(s.last().id)
    } else {
        ids_by_worker(s.drop_last(), w)
    }
}

/// The ids of the invoices addressed to client `c`, in creation order.
pub open spec fn ids_by_client(s: InvoicesModel, c: Seq<char>) -> Seq<u64>
    decreases s.len(),
{
    if s.len() == 0 {
        Seq::empty()
    } else if s.last().client@ == c {
        ids_by_client(s.drop_last(), c).push(s.last().id)
    } else {
        ids_by_client(s.drop_last(), c)
    }
}

/// The invoice that `create` appends.
pub open spec fn new_invoice(
    s: InvoicesModel,
    worker: String,
    client: String,
    amount: i128,
    description: String,
    now: u64,
) -> InvoiceRecord {
    InvoiceRecord {
        id: (s.len() + 1) as u64,
        worker,
        client,
        amount,
        description,
        status: InvoiceStatus::Pending,
        created_at: now,
        paid_at: 0,
    }
}

/// Whether `client` may pay invoice `id` now: the invoice must exist, be
/// pending, and be addressed to `client` (checked in that order).
pub open spec fn payment_check(s: InvoicesModel, client: Seq<char>, id: u64) -> Result<InvoiceRecord, LedgerError> {
    match invoice_at(s, id) {
        None => Err(LedgerError::InvoiceNotFound),
        Some(inv) => if inv.status != InvoiceStatus::Pending {
            Err(LedgerError::InvoiceNotPending)
        } else if inv.client@ != client {
            Err(LedgerError::NotInvoiceClient)
        } else {
            Ok(inv)
        },
    }
}

/// Invoice `id` marked paid at time `now`.
pub open spec fn mark_paid(s: InvoicesModel, id: u64, now: u64) -> InvoicesModel {
    s.update(id - 1, InvoiceRecord { status: InvoiceStatus::Paid, paid_at: now, ..s[id - 1] })
}

/// `worker` cancelling invoice `id`: the invoice must exist, be the
/// worker's, and be pending (checked in that order).
pub open spec fn cancellation(s: InvoicesModel, worker: Seq<char>, id: u64) -> Result<InvoicesModel, LedgerError> {
    match invoice_at(s, id) {
        None => Err(LedgerError::InvoiceNotFound),
        Some(inv) => if inv.worker@ != worker {
            Err(LedgerError::NotYourInvoice)
        } else if inv.status != InvoiceStatus::Pending {
            Err(LedgerError::NotCancellable)
        } else {
            Ok(s.update(id - 1, InvoiceRecord { status: InvoiceStatus::Cancelled, ..inv }))
        },
    }
}

/// Changing an invoice in place, keeping its id, worker and client, changes
/// no worker's or client's id list.
pub proof fn lemma_ids_unchanged_by_update(s: InvoicesModel, i: int, r: InvoiceRecord)
    requires
        0 <= i < s.len(),
        r.id == s[i].id,
        r.worker@ == s[i].worker@,
        r.client@ == s[i].client@,
    ensures
        forall|w: Seq<char>| #[trigger] ids_by_worker(s.update(i, r), w) == ids_by_worker(s, w),
        forall|c: Seq<char>| #[trigger] ids_by_client(s.update(i, r), c) == ids_by_client(s, c),
    decreases s.len(),
{
    let u = s.update(i, r);
    if i == s.len() - 1 {
        assert(u.drop_last() =~= s.drop_last());
    } else {
        assert(u.drop_last() =~= s.drop_last().update(i, r));
        lemma_ids_unchanged_by_update(s.drop_last(), i, r);
    }
    assert forall|w: Seq<char>| #[trigger] ids_by_worker(u, w) == ids_by_worker(s, w) by {
        assert(u.last().worker@ == s.last().worker@);
        assert(u.last().id == s.last().id);
        assert(ids_by_worker(u.drop_last(), w) == ids_by_worker(s.drop_last(), w));
    }
    assert forall|c: Seq<char>| #[trigger] ids_by_client(u, c) == ids_by_client(s, c) by {
        assert(u.last().client@ == s.last().client@);
        assert(u.last().id == s.last().id);
        assert(ids_by_client(u.drop_last(), c) == ids_by_client(s.drop_last(), c));
    }
}

/// What invoice `x` contributes to the amount paid to worker `w`: its
/// amount when it is `w`'s and paid, else 0.
pub open spec fn paid_to(x: InvoiceRecord, w: Seq<char>) -> int {
    if x.worker@ == w && x.status == InvoiceStatus::Paid {
        x.amount as int
    } else {
        0
    }
}

/// The sum of the amounts of the paid invoices of worker `w`.
pub open spec fn paid_total(s: InvoicesModel, w: Seq<char>) -> int
    decreases s.len(),
{
    if s.len() == 0 {
        0
    } else {
        paid_total(s.drop_last(), w) + paid_to(s.last(), w)
    }
}

/// Changing one invoice changes each worker's paid total by the difference
/// of that invoice's contributions.
pub proof fn lemma_paid_total_update(s: InvoicesModel, i: int, r: InvoiceRecord, w: Seq<char>)
    requires
        0 <= i < s.len(),
    ensures
        paid_total(s.update(i, r), w) == paid_total(s, w) - paid_to(s[i], w) + paid_to(r, w),
    decreases s.len(),
{
    let u = s.update(i, r);
    if i == s.len() - 1 {
        assert(u.drop_last() =~= s.drop_last());
    } else {
        assert(u.drop_last() =~= s.drop_last().update(i, r));
        lemma_paid_total_update(s.drop_last(), i, r, w);
    }
}

/// A worker's invoice ids are strictly increasing, and each one names an
/// invoice of that worker.
pub proof fn law_worker_ids_ascending(s: InvoicesModel, w: Seq<char>)
    requires
        well_numbered(s),
    ensures
        forall|i: int, j: int| #![trigger ids_by_worker(s, w)[i], ids_by_worker(s, w)[j]]
            0 <= i < j < ids_by_worker(s, w).len() ==> ids_by_worker(s, w)[i] < ids_by_worker(s, w)[j],
        forall|i: int| 0 <= i < ids_by_worker(s, w).len() ==> {
            &&& 1 <= #[trigger] ids_by_worker(s, w)[i] <= s.len()
            &&& s[ids_by_worker(s, w)[i] - 1].worker@ == w
        },
    decreases s.len(),
{
    if s.len() > 0 {
        let d = s.drop_last();
        assert(well_numbered(d)) by {
            assert forall|i: int| 0 <= i < d.len() implies #[trigger] d[i].id == i + 1 by {
                assert(d[i] == s[i]);
            }
        }
        law_worker_ids_ascending(d, w);
        let r = ids_by_worker(s, w);
        let p = ids_by_worker(d, w);
        assert forall|i: int| 0 <= i < r.len() implies {
            &&& 1 <= #[trigger] r[i] <= s.len()
            &&& s[r[i] - 1].worker@ == w
        } by {
            if i < p.len() {
                assert(r[i] == p[i]);
                assert(s[p[i] - 1] == d[p[i] - 1]);
            } else {
                assert(r[i] == s.last().id);
            }
        }
        assert forall|i: int, j: int| #![trigger r[i], r[j]] 0 <= i < j < r.len() implies r[i] < r[j] by {
            if j < p.len() {
                assert(r[i] == p[i] && r[j] == p[j]);
            } else {
                assert(r[i] == p[i]);
                assert(p[i] <= d.len());
                assert(r[j] == s.last().id);
            }
        }
    }
}

/// A copy of a list of ids.
pub fn copy_ids(v: &Vec<u64>) -> (r: Vec<u64>)
    ensures
        r@ == v@,
{
    let mut r: Vec<u64> = Vec::new();
    let mut i: usize = 0;
    while i < v.len()
        invariant
            i <= v.len(),
            r@ =~= v@.take(i as int),
        decreases v.len() - i,
    {
        r.push(v[i]);
        i += 1;
    }
    assert(v@.take(i as int) =~= v@);
    r
}

/// Appends `id` to the id list of `worker` (creating the list when the
/// worker has none).
fn append_worker_id(by_worker: &mut Vec<(String, Vec<u64>)>, worker: &String, id: u64)
    requires
        distinct_keys(old(by_worker).deep_view()),
    ensures
        final(by_worker).deep_view() == assign(
            old(by_worker).deep_view(),
            worker@,
            lookup_or(old(by_worker).deep_view(), worker@, Seq::<u64>::empty()).push(id),
        ),
        distinct_keys(final(by_worker).deep_view()),
{
    let ghost m = by_worker.deep_view();
    let ghost new_ids = lookup_or(m, worker@, Seq::<u64>::empty()).push(id);
    proof {
        lemma_assign(m, worker@, new_ids);
    }
    match find_key(by_worker, worker) {
        Some(i) => {
            let (k, mut ids) = by_worker.remove(i);
            assert(ids.deep_view() =~= m[i as int].1);
            ids.push(id);
            assert(ids.deep_view() =~= m[i as int].1.push(id));
            by_worker.insert(i, (k, ids));
            proof {
                lemma_index_of(m, worker@, i as int);
                assert(by_worker.deep_view() =~= assign(m, worker@, new_ids));
            }
        },
        None => {
            let mut ids: Vec<u64> = Vec::new();
            ids.push(id);
            assert(ids.deep_view() =~= new_ids);
            put(by_worker, worker.clone(), ids);
        },
    }
}

/// The invoices, and for each worker the ids of their invoices.
pub struct InvoiceBook {
    records: Vec<InvoiceRecord>,
    by_worker: Vec<(String, Vec<u64>)>,
}

impl InvoiceBook {
    /// The invoices in creation order.
    pub closed spec fn invoices(&self) -> InvoicesModel {
        self.records@
    }

    pub closed spec fn wf(&self) -> bool {
        &&& invoices_wf(self.records@)
        &&& distinct_keys(self.by_worker.deep_view())
        &&& forall|w: Seq<char>|
            #[trigger] lookup_or(self.by_worker.deep_view(), w, Seq::<u64>::empty()) == ids_by_worker(self.records@, w)
    }

    /// An empty book.
    pub fn new() -> (r: InvoiceBook)
        ensures
            r.wf(),
            r.invoices() == Seq::<InvoiceRecord>::empty(),
    {
        let r = InvoiceBook { records: Vec::new(), by_worker: Vec::new() };
        assert(r.by_worker.deep_view() =~= Seq::<(Seq<char>, Seq<u64>)>::empty());
        r
    }

    /// Appends a pending invoice with the next id. Refused when the id
    /// counter is exhausted.
    pub fn create(
        &mut self,
        worker: String,
        client: String,
        amount: i128,
        description: String,
        now: u64,
    ) -> (r: Result<u64, LedgerError>)
        requires
            old(self).wf(),
        ensures
            final(self).wf(),
            match r {
                Ok(id) => {
                    &&& old(self).invoices().len() < u64::MAX
                    &&& id == old(self).invoices().len() + 1
                    &&& final(self).invoices() == old(self).invoices().push(
                        new_invoice(old(self).invoices(), worker, client, amount, description, now),
                    )
                },
                Err(e) => {
                    &&& e == LedgerError::ArithmeticOverflow
                    &&& old(self).invoices().len() >= u64::MAX
                    &&& final(self).invoices() == old(self).invoices()
                },
            },
    {
        let count = self.records.len() as u64;
        if count == u64::MAX {
            return Err(LedgerError::ArithmeticOverflow);
        }
        let id = count + 1;
        let ghost s = self.records@;
        let ghost m = self.by_worker.deep_view();
        let key = worker.clone();
        let rec = InvoiceRecord {
            id,
            worker,
            client,
            amount,
            description,
            status: InvoiceStatus::Pending,
            created_at: now,
            paid_at: 0,
        };
        self.records.push(rec);
        let ghost s2 = self.records@;
        assert(s2.drop_last() =~= s);
        proof {
            assert(lookup_or(m, key@, Seq::<u64>::empty()) == ids_by_worker(s, key@));
        }
        append_worker_id(&mut self.by_worker, &key, id);
        proof {
            lemma_assign(m, key@, ids_by_worker(s, key@).push(id));
            assert forall|w: Seq<char>|
                #[trigger] lookup_or(self.by_worker.deep_view(), w, Seq::<u64>::empty()) == ids_by_worker(s2, w) by {
                if w != key@ {
                    assert(lookup_or(m, w, Seq::<u64>::empty()) == ids_by_worker(s, w));
                }
            }
        }
        Ok(id)
    }

    /// The invoice with id `id`, if there is one.
    pub fn record(&self, id: u64) -> (r: Option<&InvoiceRecord>)
        requires
            self.wf(),
        ensures
            match r {
                Some(rec) => invoice_at(self.invoices(), id) == Some(*rec),
                None => invoice_at(self.invoices(), id) is None,
            },
    {
        if id == 0 || id > self.records.len() as u64 {
            None
        } else {
            Some(&self.records[(id - 1) as usize])
        }
    }

    /// Whether `client` may pay invoice `id` now (see `payment_check`).
    pub fn check_payment(&self, client: &String, id: u64) -> (r: Result<(), LedgerError>)
        requires
            self.wf(),
        ensures
            match r {
                Ok(()) => payment_check(self.invoices(), client@, id) is Ok,
                Err(e) => payment_check(self.invoices(), client@, id) == Err::<InvoiceRecord, LedgerError>(e),
            },
    {
        match self.record(id) {
            None => Err(LedgerError::InvoiceNotFound),
            Some(inv) => {
                if inv.status != InvoiceStatus::Pending {
                    Err(LedgerError::InvoiceNotPending)
                } else if !inv.client.eq(client) {
                    Err(LedgerError::NotInvoiceClient)
                } else {
                    Ok(())
                }
            },
        }
    }

    /// Marks pending invoice `id` paid at time `now`.
    pub fn mark_paid(&mut self, id: u64, now: u64)
        requires
            old(self).wf(),
            1 <= id <= old(self).invoices().len(),
            old(self).invoices()[id - 1].status == InvoiceStatus::Pending,
        ensures
            final(self).wf(),
            final(self).invoices() == mark_paid(old(self).invoices(), id, now),
    {
        let ghost s = self.records@;
        let idx = (id - 1) as usize;
        let mut rec = self.records.remove(idx);
        rec.status = InvoiceStatus::Paid;
        rec.paid_at = now;
        self.records.insert(idx, rec);
        proof {
            assert(self.records@ =~= mark_paid(s, id, now));
            lemma_ids_unchanged_by_update(s, idx as int, self.records@[idx as int]);
            assert forall|w: Seq<char>|
                #[trigger] lookup_or(self.by_worker.deep_view(), w, Seq::<u64>::empty()) == ids_by_worker(self.records@, w) by {
                assert(lookup_or(self.by_worker.deep_view(), w, Seq::<u64>::empty()) == ids_by_worker(s, w));
            }
        }
    }

    /// `worker` cancels invoice `id` (see `cancellation`); on refusal the
    /// book is unchanged.
    pub fn cancel(&mut self, worker: &String, id: u64) -> (r: Result<(), LedgerError>)
        requires
            old(self).wf(),
        ensures
            final(self).wf(),
            match r {
                Ok(()) => cancellation(old(self).invoices(), worker@, id) == Ok::<InvoicesModel, LedgerError>(final(self).invoices()),
                Err(e) => {
                    &&& cancellation(old(self).invoices(), worker@, id) == Err::<InvoicesModel, LedgerError>(e)
                    &&& final(self).invoices() == old(self).invoices()
                },
            },
    {
        let ghost s = self.records@;
        match self.record(id) {
            None => {
                return Err(LedgerError::InvoiceNotFound);
            },
            Some(inv) => {
                if !inv.worker.eq(worker) {
                    return Err(LedgerError::NotYourInvoice);
                }
                if inv.status != InvoiceStatus::Pending {
                    return Err(LedgerError::NotCancellable);
                }
            },
        }
        let idx = (id - 1) as usize;
        let mut rec = self.records.remove(idx);
        rec.status = InvoiceStatus::Cancelled;
        self.records.insert(idx, rec);
        proof {
            assert(self.records@ =~= s.update(idx as int, InvoiceRecord { status: InvoiceStatus::Cancelled, ..s[idx as int] }));
            lemma_ids_unchanged_by_update(s, idx as int, self.records@[idx as int]);
            assert forall|w: Seq<char>|
                #[trigger] lookup_or(self.by_worker.deep_view(), w, Seq::<u64>::empty()) == ids_by_worker(self.records@, w) by {
                assert(lookup_or(self.by_worker.deep_view(), w, Seq::<u64>::empty()) == ids_by_worker(s, w));
            }
        }
        Ok(())
    }

    /// The ids of the invoices of `worker`, in creation order.
    pub fn worker_invoice_ids(&self, worker: &String) -> (r: Vec<u64>)
        requires
            self.wf(),
        ensures
            r@ == ids_by_worker(self.invoices(), worker@),
    {
        match find_key(&self.by_worker, worker) {
            Some(i) => {
                let r = copy_ids(&self.by_worker[i].1);
                proof {
                    lemma_index_of(self.by_worker.deep_view(), worker@, i as int);
                    assert(lookup_or(self.by_worker.deep_view(), worker@, Seq::<u64>::empty()) == ids_by_worker(self.records@, worker@));
                    assert(r@ =~= self.by_worker.deep_view()[i as int].1);
                }
                r
            },
            None => {
                assert(lookup_or(self.by_worker.deep_view(), worker@, Seq::<u64>::empty()) == ids_by_worker(self.records@, worker@));
                Vec::new()
            },
        }
    }

    /// The ids of the invoices addressed to `client`, in creation order.
    pub fn client_invoice_ids(&self, client: &String) -> (r: Vec<u64>)
        requires
            self.wf(),
        ensures
            r@ == ids_by_client(self.invoices(), client@),
    {
        let ghost s = self.records@;
        let mut r: Vec<u64> = Vec::new();
        let mut i: usize = 0;
        while i < self.records.len()
            invariant
                s == self.records@,
                i <= s.len(),
                r@ == ids_by_client(s.take(i as int), client@),
            decreases s.len() - i,
        {
            assert(s.take(i + 1).drop_last() =~= s.take(i as int));
            if self.records[i].client.eq(client) {
                r.push(self.records[i].id);
            }
            i += 1;
        }
        assert(s.take(i as int) =~= s);
        r
    }

    /// A book holding `records`, when they are numbered 1, 2, 3, ... in
    /// order and no unpaid invoice has a payment time; `None` otherwise.
    pub fn from_records(records: Vec<InvoiceRecord>) -> (r: Option<InvoiceBook>)
        ensures
            r is Some <==> invoices_wf(records@),
            match r {
                Some(book) => book.wf() && book.invoices() == records@,
                None => true,
            },
    {
        let ghost s = records@;
        let n = records.len();
        let mut i: usize = 0;
        while i < n
            invariant
                n == s.len(),
                s == records@,
                i <= n,
                forall|j: int| 0 <= j < i ==> #[trigger] s[j].id == j + 1,
                forall|j: int| 0 <= j < i && #[trigger] s[j].status != InvoiceStatus::Paid ==> s[j].paid_at == 0,
            decreases n - i,
        {
            if records[i].id != i as u64 + 1 {
                return None;
            }
            if records[i].status != InvoiceStatus::Paid && records[i].paid_at != 0 {
                return None;
            }
            i += 1;
        }
        let mut by_worker: Vec<(String, Vec<u64>)> = Vec::new();
        assert(by_worker.deep_view() =~= Seq::<(Seq<char>, Seq<u64>)>::empty());
        i = 0;
        while i < n
            invariant
                n == s.len(),
                s == records@,
                i <= n,
                distinct_keys(by_worker.deep_view()),
                forall|w: Seq<char>|
                    #[trigger] lookup_or(by_worker.deep_view(), w, Seq::<u64>::empty()) == ids_by_worker(s.take(i as int), w),
            decreases n - i,
        {
            let ghost m = by_worker.deep_view();
            let ghost key = records[i as int].worker@;
            assert(s.take(i + 1).drop_last() =~= s.take(i as int));
            append_worker_id(&mut by_worker, &records[i].worker, records[i].id);
            proof {
                lemma_assign(m, key, lookup_or(m, key, Seq::<u64>::empty()).push(s[i as int].id));
                assert forall|w: Seq<char>|
                    #[trigger] lookup_or(by_worker.deep_view(), w, Seq::<u64>::empty()) == ids_by_worker(s.take(i + 1), w) by {
                    assert(lookup_or(m, w, Seq::<u64>::empty()) == ids_by_worker(s.take(i as int), w));
                }
            }
            i += 1;
        }
        assert(s.take(n as int) =~= s);
        Some(InvoiceBook { records, by_worker })
    }

    /// The invoices, in id order.
    pub fn into_records(self) -> (r: Vec<InvoiceRecord>)
        ensures
            r@ == self.invoices(),
    {
        self.records
    }
}

} // verus!
