//! What the per-worker and per-client invoice id lists hold: exactly the
//! ids of the matching invoices, in increasing order.

use vstd::prelude::*;
use crate::invoice::{InvoicesModel, ids_by_client, ids_by_worker, well_numbered};

verus! {

/// A worker's id list holds exactly the ids of that worker's invoices, in
/// increasing order.
pub proof fn law_worker_ids_exact(s: InvoicesModel, w: Seq<char>)
    requires
        well_numbered(s),
    ensures
        forall|id: u64| #[trigger] ids_by_worker(s, w).contains(id) <==> (1 <= id <= s.len() && s[id - 1].worker@ == w),
        forall|i: int, j: int| #![trigger ids_by_worker(s, w)[i], ids_by_worker(s, w)[j]]
            0 <= i < j < ids_by_worker(s, w).len() ==> ids_by_worker(s, w)[i] < ids_by_worker(s, w)[j],
        forall|i: int| 0 <= i < ids_by_worker(s, w).len() ==> 1 <= #[trigger] ids_by_worker(s, w)[i] <= s.len(),
    decreases s.len(),
{
    if s.len() > 0 {
        let d = s.drop_last();
        assert(well_numbered(d)) by {
            assert forall|i: int| 0 <= i < d.len() implies #[trigger] d[i].id == i + 1 by {
                assert(d[i] == s[i]);
            }
        }
        law_worker_ids_exact(d, w);
        let p = ids_by_worker(d, w);
        let r = ids_by_worker(s, w);
        assert forall|id: u64| #[trigger] r.contains(id) <==> (1 <= id <= s.len() && s[id - 1].worker@ == w) by {
            let n = s.len() as int;
            if 1 <= id <= s.len() - 1 {
                assert(s[id - 1] == d[id - 1]);
            }
            if s.last().worker@ == w {
                if r.contains(id) {
                    let j = choose|j: int| 0 <= j < r.len() && r[j] == id;
                    if j < r.len() - 1 {
                        assert(p[j] == id);
                    }
                }
                if p.contains(id) {
                    let j = choose|j: int| 0 <= j < p.len() && p[j] == id;
                    assert(r[j] == id);
                }
                if id == n {
                    assert(r[r.len() - 1] == id);
                }
            }
        }
        assert forall|i: int| 0 <= i < r.len() implies 1 <= #[trigger] r[i] <= s.len() by {
            if i < p.len() {
                assert(r[i] == p[i]);
            }
        }
        assert forall|i: int, j: int| #![trigger r[i], r[j]] 0 <= i < j < r.len() implies r[i] < r[j] by {
            if j < p.len() {
                assert(r[i] == p[i] && r[j] == p[j]);
            } else {
                assert(r[i] == p[i]);
            }
        }
    }
}

/// A client's id list holds exactly the ids of the invoices addressed to
/// that client, in increasing order.
pub proof fn law_client_ids_exact(s: InvoicesModel, c: Seq<char>)
    requires
        well_numbered(s),
    ensures
        forall|id: u64| #[trigger] ids_by_client(s, c).contains(id) <==> (1 <= id <= s.len() && s[id - 1].client@ == c),
        forall|i: int, j: int| #![trigger ids_by_client(s, c)[i], ids_by_client(s, c)[j]]
            0 <= i < j < ids_by_client(s, c).len() ==> ids_by_client(s, c)[i] < ids_by_client(s, c)[j],
        forall|i: int| 0 <= i < ids_by_client(s, c).len() ==> 1 <= #[trigger] ids_by_client(s, c)[i] <= s.len(),
    decreases s.len(),
{
    if s.len() > 0 {
        let d = s.drop_last();
        assert(well_numbered(d)) by {
            assert forall|i: int| 0 <= i < d.len() implies #[trigger] d[i].id == i + 1 by {
                assert(d[i] == s[i]);
            }
        }
        law_client_ids_exact(d, c);
        let p = ids_by_client(d, c);
        let r = ids_by_client(s, c);
        assert forall|id: u64| #[trigger] r.contains(id) <==> (1 <= id <= s.len() && s[id - 1].client@ == c) by {
            let n = s.len() as int;
            if 1 <= id <= s.len() - 1 {
                assert(s[id - 1] == d[id - 1]);
            }
            if s.last().client@ == c {
                if r.contains(id) {
                    let j = choose|j: int| 0 <= j < r.len() && r[j] == id;
                    if j < r.len() - 1 {
                        assert(p[j] == id);
                    }
                }
                if p.contains(id) {
                    let j = choose|j: int| 0 <= j < p.len() && p[j] == id;
                    assert(r[j] == id);
                }
                if id == n {
                    assert(r[r.len() - 1] == id);
                }
            }
        }
        assert forall|i: int| 0 <= i < r.len() implies 1 <= #[trigger] r[i] <= s.len() by {
            if i < p.len() {
                assert(r[i] == p[i]);
            }
        }
        assert forall|i: int, j: int| #![trigger r[i], r[j]] 0 <= i < j < r.len() implies r[i] < r[j] by {
            if j < p.len() {
                assert(r[i] == p[i] && r[j] == p[j]);
            } else {
                assert(r[i] == p[i]);
            }
        }
    }
}

} // verus!
