//! Core data types: transactions, movies, and dataset metadata.

use std::collections::HashMap;

use vstd::prelude::*;

use crate::densify::count_occ;
use crate::densify::dcount;
use crate::densify::dmap;
use crate::densify::lemma_contains_concat;
use crate::densify::lemma_contains_push;
use crate::densify::lemma_count_occ_le_len;
use crate::densify::lemma_count_occ_zero;
use crate::densify::lemma_dmap_extend_one;
use crate::densify::lemma_dmap_push;
use crate::densify::lemma_identity_map_bijective;
use crate::densify::lemma_sum_u32_push;
use crate::densify::lemma_sum_u32_update;
use crate::densify::lemma_sum_u32_zeros;
use crate::densify::stragglers;
use crate::densify::sum_u32;

verus! {

broadcast use vstd::std_specs::hash::group_hash_axioms;


/// A rating given by a customer to a movie. `0` marks an unrated
/// (test-set) transaction; genuine ratings lie in `1..=5`.
pub type Rating = u8;

/// One customer action: the movie bought, who bought it, the rating
/// given (`0` when the transaction belongs to the test set), and the
/// date of the action.
#[derive(Debug)]
pub struct Transaction {
    pub movie_id: usize,
    pub customer_id: usize,
    pub rating: Rating,
    pub date: String,
}

/// Mathematical image of a [`Transaction`]: the same fields with the
/// date as a character sequence.
pub struct TransactionView {
    pub movie_id: usize,
    pub customer_id: usize,
    pub rating: Rating,
    pub date: Seq<char>,
}

impl View for Transaction {
    type V = TransactionView;

    open spec fn view(&self) -> TransactionView {
        TransactionView {
            movie_id: self.movie_id,
            customer_id: self.customer_id,
            rating: self.rating,
            date: self.date@,
        }
    }
}

impl Clone for Transaction {
    fn clone(&self) -> (r: Self)
        ensures
            r@ == self@,
    {
        Transaction {
            movie_id: self.movie_id,
            customer_id: self.customer_id,
            rating: self.rating,
            date: self.date.clone(),
        }
    }
}

/// Reference data about one movie: its identifier (0-based), the year
/// it was produced, and its title.
#[derive(Debug)]
pub struct Movie {
    pub movie_id: usize,
    pub year_produced: u16,
    pub title: String,
}

/// Mathematical image of a [`Movie`].
pub struct MovieView {
    pub movie_id: usize,
    pub year_produced: u16,
    pub title: Seq<char>,
}

impl View for Movie {
    type V = MovieView;

    open spec fn view(&self) -> MovieView {
        MovieView {
            movie_id: self.movie_id,
            year_produced: self.year_produced,
            title: self.title@,
        }
    }
}

/// Summary statistics of a loaded dataset.
///
/// `trans_freq` and `tests_freq` are parallel vectors indexed by
/// virtual customer index: how often each customer occurs in the
/// training transactions and in the test transactions respectively.
/// `anomalies` lists the raw customer identifiers that were first seen
/// in the test phase (a consistency anomaly: repaired by allocating a
/// fresh virtual index, and surfaced here so a caller can report it).
#[derive(Debug)]
pub struct MetaData {
    pub num_customers: usize,
    pub num_movies: usize,
    pub num_train: usize,
    pub num_cross_valid: usize,
    pub trans_freq: Vec<u32>,
    pub tests_freq: Vec<u32>,
    pub anomalies: Vec<usize>,
}

/// A loaded dataset: training transactions (with customer identifiers
/// already remapped to dense virtual indices), a cross-validation
/// split, the movie catalogue, the test transactions, and the identity
/// map itself, kept for reverse lookup from raw customer identifiers
/// to virtual indices.
pub struct Data {
    pub metadata: MetaData,
    pub train: Vec<Transaction>,
    pub cross_valid: Vec<Transaction>,
    pub movies: Vec<Movie>,
    pub test_data: Vec<Transaction>,
    pub virtual_id_map: HashMap<usize, usize>,
}


/// The ordered sequence of raw customer identifiers of a transaction
/// list.
pub open spec fn customer_ids(ts: Seq<Transaction>) -> Seq<usize> {
    ts.map_values(|t: Transaction| t.customer_id)
}

/// What it means for `out` to be `orig` with its customer identifier
/// remapped through the identity map `m`: every other field is kept.
pub open spec fn remapped_txn(out: Transaction, orig: Transaction, m: Map<usize, usize>) -> bool {
    &&& out.movie_id == orig.movie_id
    &&& out.rating == orig.rating
    &&& out.date@ == orig.date@
    &&& m.dom().contains(orig.customer_id)
    &&& out.customer_id == m[orig.customer_id]
}

/// What [`Data::new`] promises: the dataset `d` is the three inputs
/// with customer identifiers densified through the identity map of the
/// combined training-then-test identifier sequence, the training list
/// split 80/20 into train and cross-validation parts, per-customer
/// frequency vectors for both phases, and the raw identifiers first
/// seen in the test phase reported as anomalies.
pub open spec fn loaded_from(
    d: Data,
    train_in: Seq<Transaction>,
    movies_in: Seq<Movie>,
    test_in: Seq<Transaction>,
) -> bool {
    let tids = customer_ids(train_in);
    let eids = customer_ids(test_in);
    let all = tids + eids;
    let m = dmap(all);
    let ncv = train_in.len() as int / 5;
    let ntr = train_in.len() - ncv;
    &&& d.virtual_id_map@ == m
    &&& d.metadata.num_customers == dcount(all)
    &&& d.metadata.num_movies == movies_in.len()
    &&& d.metadata.num_train == ntr
    &&& d.metadata.num_cross_valid == ncv
    &&& d.metadata.trans_freq@.len() == dcount(all)
    &&& d.metadata.tests_freq@.len() == dcount(all)
    &&& forall|x: usize|
        #[trigger] all.contains(x) ==> d.metadata.trans_freq@[m[x] as int] == count_occ(tids, x)
            && d.metadata.tests_freq@[m[x] as int] == count_occ(eids, x)
    &&& sum_u32(d.metadata.trans_freq@) == train_in.len()
    &&& sum_u32(d.metadata.tests_freq@) == test_in.len()
    &&& d.metadata.anomalies@ == stragglers(tids, eids)
    &&& forall|x: usize|
        #[trigger] d.metadata.anomalies@.contains(x) <==> eids.contains(x) && !tids.contains(x)
    &&& forall|k1: int, k2: int|
        0 <= k1 < k2 < d.metadata.anomalies@.len() ==> d.metadata.anomalies@[k1]
            != d.metadata.anomalies@[k2]
    &&& d.train@.len() == ntr
    &&& forall|k: int| 0 <= k < ntr ==> remapped_txn(#[trigger] d.train@[k], train_in[k], m)
    &&& d.cross_valid@.len() == ncv
    &&& forall|k: int|
        0 <= k < ncv ==> remapped_txn(#[trigger] d.cross_valid@[k], train_in[ntr + k], m)
    &&& d.movies@ == movies_in
    &&& d.test_data@.len() == test_in.len()
    &&& forall|k: int|
        0 <= k < test_in.len() ==> remapped_txn(#[trigger] d.test_data@[k], test_in[k], m)
    &&& forall|k: int|
        0 <= k < ntr ==> (#[trigger] d.train@[k]).customer_id < d.metadata.num_customers
    &&& forall|k: int|
        0 <= k < ncv ==> (#[trigger] d.cross_valid@[k]).customer_id < d.metadata.num_customers
    &&& forall|k: int|
        0 <= k < test_in.len() ==> (#[trigger] d.test_data@[k]).customer_id
            < d.metadata.num_customers
}


impl Data {
    /// Load a dataset from already-parsed transactions, movies, and
    /// test transactions: densify the customer identifiers of both
    /// transaction phases into virtual indices assigned in first-seen
    /// order (training first, then test), count per-customer
    /// frequencies per phase, record as anomalies the identifiers first
    /// seen in the test phase, and split the training list 80/20 into
    /// train and cross-validation parts.
    pub fn new(
        transactions: Vec<Transaction>,
        movies: Vec<Movie>,
        test_data: Vec<Transaction>,
    ) -> (d: Data)
        requires
            transactions@.len() + test_data@.len() <= 0xFFFF_FFFF,
        ensures
            loaded_from(d, transactions@, movies@, test_data@),
    {
        let ghost tids = customer_ids(transactions@);
        let ghost eids = customer_ids(test_data@);
        let ghost all = tids + eids;

        let n_train = transactions.len();
        let mut virtual_id_map: HashMap<usize, usize> = HashMap::new();
        let mut virtual_id: usize = 0;
        let mut trans_freq: Vec<u32> = Vec::new();
        let mut train_re: Vec<Transaction> = Vec::new();
        proof {
            assert(tids.take(0) =~= Seq::<usize>::empty());
        }
        let mut k: usize = 0;
        while k < n_train
            invariant
                0 <= k <= n_train,
                n_train == transactions@.len(),
                n_train <= 0xFFFF_FFFF,
                tids == customer_ids(transactions@),
                virtual_id_map@ == dmap(tids.take(k as int)),
                virtual_id == dcount(tids.take(k as int)),
                trans_freq@.len() == virtual_id,
                forall|x: usize|
                    #[trigger] tids.take(k as int).contains(x) ==> trans_freq@[dmap(
                        tids.take(k as int),
                    )[x] as int] == count_occ(tids.take(k as int), x),
                sum_u32(trans_freq@) == k,
                train_re@.len() == k,
                forall|i: int|
                    0 <= i < k ==> remapped_txn(
                        #[trigger] train_re@[i],
                        transactions@[i],
                        dmap(tids.take(k as int)),
                    ),
            decreases n_train - k,
        {
            let ghost prefix = tids.take(k as int);
            let ghost prefix2 = tids.take(k as int + 1);
            let t = &transactions[k];
            let ghost id = t.customer_id;
            proof {
                assert(tids[k as int] == id);
                lemma_identity_map_bijective(prefix);
                lemma_dmap_push(prefix, id);
                lemma_count_occ_le_len(prefix, id);
                assert(prefix.push(id) =~= prefix2);
            }
            let present = virtual_id_map.contains_key(&t.customer_id);
            proof {
                assert(present == dmap(prefix).dom().contains(id));
                assert(present == prefix.contains(id));
            }
            let idx: usize = if present {
                let got = *virtual_id_map.get(&t.customer_id).unwrap();
                proof {
                    assert(got == dmap(prefix)[id]);
                    assert(got == dmap(prefix2)[id]);
                    assert(got < virtual_id);
                    assert(trans_freq@[got as int] == count_occ(prefix, id));
                }
                got
            } else {
                proof {
                    lemma_count_occ_zero(prefix, id);
                    lemma_sum_u32_push(trans_freq@, 0);
                }
                let fresh = virtual_id;
                virtual_id_map.insert(t.customer_id, fresh);
                trans_freq.push(0);
                virtual_id = fresh + 1;
                proof {
                    assert(fresh == dmap(prefix2)[id]);
                    assert(trans_freq@[fresh as int] == 0);
                }
                fresh
            };
            let ghost freq_mid = trans_freq@;
            proof {
                assert(virtual_id_map@ == dmap(prefix2));
                assert(virtual_id == dcount(prefix2));
                assert(idx == dmap(prefix2)[id]);
                assert(freq_mid[idx as int] == count_occ(prefix, id));
                assert(count_occ(prefix, id) <= k);
                assert(sum_u32(freq_mid) == k);
            }
            let cur = trans_freq[idx];
            proof {
                lemma_sum_u32_update(freq_mid, idx as int, (cur + 1) as u32);
            }
            trans_freq[idx] = cur + 1;
            train_re.push(
                Transaction {
                    movie_id: t.movie_id,
                    customer_id: idx,
                    rating: t.rating,
                    date: t.date.clone(),
                },
            );
            proof {
                lemma_identity_map_bijective(prefix2);
                assert forall|x: usize| #[trigger] prefix2.contains(x) implies trans_freq@[dmap(
                    prefix2,
                )[x] as int] == count_occ(prefix2, x) by {
                    if x == id {
                        assert(count_occ(prefix2, x) == count_occ(prefix, x) + 1);
                        assert(trans_freq@[idx as int] == cur + 1);
                    } else {
                        assert(prefix.contains(x));
                        assert(count_occ(prefix2, x) == count_occ(prefix, x));
                        assert(dmap(prefix2)[x] == dmap(prefix)[x]);
                        assert(dmap(prefix)[x] < dcount(prefix));
                        assert(freq_mid[dmap(prefix)[x] as int] == count_occ(prefix, x));
                        assert(dmap(prefix2)[x] != dmap(prefix2)[id]);
                        assert(trans_freq@[dmap(prefix2)[x] as int] == freq_mid[dmap(
                            prefix2,
                        )[x] as int]);
                    }
                }
                assert forall|i: int| 0 <= i < k + 1 implies remapped_txn(
                    #[trigger] train_re@[i],
                    transactions@[i],
                    dmap(prefix2),
                ) by {
                    if i < k {
                        assert(remapped_txn(train_re@[i], transactions@[i], dmap(prefix)));
                        assert(prefix.contains(transactions@[i].customer_id)) by {
                            assert(tids[i] == transactions@[i].customer_id);
                            assert(prefix[i] == tids[i]);
                        }
                        assert(dmap(prefix2)[transactions@[i].customer_id] == dmap(
                            prefix,
                        )[transactions@[i].customer_id]);
                    }
                }
            }
            k = k + 1;
        }
        proof {
            assert(tids.take(n_train as int) =~= tids);
        }

        let num_cross_valid = n_train / 5;
        let num_train = n_train - num_cross_valid;

        let mut tests_freq: Vec<u32> = vec![0u32; virtual_id];
        proof {
            lemma_sum_u32_zeros(tests_freq@);
            assert(tids + eids.take(0) =~= tids);
            lemma_identity_map_bijective(tids);
            assert(eids.take(0) =~= Seq::<usize>::empty());
            assert forall|x: usize| #[trigger] (tids + eids.take(0)).contains(x) implies
                trans_freq@[dmap(tids + eids.take(0))[x] as int] == count_occ(tids, x)
                    && tests_freq@[dmap(tids + eids.take(0))[x] as int] == count_occ(
                eids.take(0),
                x,
            ) by {
                assert(tids.contains(x));
                assert(tids.take(n_train as int).contains(x));
                assert(trans_freq@[dmap(tids.take(n_train as int))[x] as int] == count_occ(
                    tids.take(n_train as int),
                    x,
                ));
                assert(dmap(tids)[x] < dcount(tids));
                assert(tests_freq@[dmap(tids)[x] as int] == 0);
                lemma_count_occ_zero(eids.take(0), x);
            }
        }
        let n_test = test_data.len();
        let mut test_re: Vec<Transaction> = Vec::new();
        let mut anomalies: Vec<usize> = Vec::new();
        let mut k: usize = 0;
        while k < n_test
            invariant
                0 <= k <= n_test,
                n_test == test_data@.len(),
                n_train == transactions@.len(),
                n_train + n_test <= 0xFFFF_FFFF,
                tids == customer_ids(transactions@),
                eids == customer_ids(test_data@),
                virtual_id_map@ == dmap(tids + eids.take(k as int)),
                virtual_id == dcount(tids + eids.take(k as int)),
                trans_freq@.len() == virtual_id,
                tests_freq@.len() == virtual_id,
                forall|x: usize|
                    #[trigger] (tids + eids.take(k as int)).contains(x) ==> trans_freq@[dmap(
                        tids + eids.take(k as int),
                    )[x] as int] == count_occ(tids, x) && tests_freq@[dmap(
                        tids + eids.take(k as int),
                    )[x] as int] == count_occ(eids.take(k as int), x),
                sum_u32(trans_freq@) == n_train,
                sum_u32(tests_freq@) == k,
                test_re@.len() == k,
                forall|i: int|
                    0 <= i < k ==> remapped_txn(
                        #[trigger] test_re@[i],
                        test_data@[i],
                        dmap(tids + eids.take(k as int)),
                    ),
                anomalies@ == stragglers(tids, eids.take(k as int)),
                forall|x: usize|
                    #[trigger] anomalies@.contains(x) <==> eids.take(k as int).contains(x)
                        && !tids.contains(x),
                forall|k1: int, k2: int|
                    0 <= k1 < k2 < anomalies@.len() ==> anomalies@[k1] != anomalies@[k2],
            decreases n_test - k,
        {
            let ghost allk = tids + eids.take(k as int);
            let ghost allk2 = tids + eids.take(k as int + 1);
            let ghost ek = eids.take(k as int);
            let ghost ek2 = eids.take(k as int + 1);
            let t = &test_data[k];
            let ghost id = t.customer_id;
            proof {
                assert(eids[k as int] == id);
                assert(ek.push(id) =~= ek2);
                assert(allk.len() == n_train + k);
                lemma_identity_map_bijective(allk);
                lemma_dmap_push(allk, id);
                lemma_dmap_push(ek, id);
                lemma_contains_concat(tids, ek);
                lemma_contains_concat(tids, ek2);
                assert(allk.push(id) =~= allk2);
                lemma_count_occ_le_len(ek, id);
            }
            let ghost anoms0 = anomalies@;
            let present = virtual_id_map.contains_key(&t.customer_id);
            proof {
                assert(present == dmap(allk).dom().contains(id));
                assert(present == allk.contains(id));
            }
            let idx: usize = if present {
                let got = *virtual_id_map.get(&t.customer_id).unwrap();
                proof {
                    assert(got == dmap(allk)[id]);
                    assert(got == dmap(allk2)[id]);
                    assert(got < virtual_id);
                    assert(tests_freq@[got as int] == count_occ(ek, id));
                }
                got
            } else {
                proof {
                    assert(!tids.contains(id) && !ek.contains(id));
                    lemma_count_occ_zero(tids, id);
                    lemma_count_occ_zero(ek, id);
                    lemma_sum_u32_push(trans_freq@, 0);
                    lemma_sum_u32_push(tests_freq@, 0);
                    lemma_contains_push(anomalies@, id);
                    assert(!anomalies@.contains(id));
                }
                let fresh = virtual_id;
                virtual_id_map.insert(t.customer_id, fresh);
                trans_freq.push(0);
                tests_freq.push(0);
                anomalies.push(t.customer_id);
                virtual_id = fresh + 1;
                proof {
                    assert(fresh == dmap(allk2)[id]);
                    assert(tests_freq@[fresh as int] == 0);
                    assert(trans_freq@[fresh as int] == 0);
                }
                fresh
            };
            let ghost tfreq_mid = tests_freq@;
            proof {
                assert(virtual_id_map@ == dmap(allk2));
                assert(virtual_id == dcount(allk2));
                assert(idx == dmap(allk2)[id]);
                assert(tfreq_mid[idx as int] == count_occ(ek, id));
                assert(count_occ(ek, id) <= k);
                assert(sum_u32(tfreq_mid) == k);
            }
            let cur = tests_freq[idx];
            proof {
                lemma_sum_u32_update(tfreq_mid, idx as int, (cur + 1) as u32);
            }
            tests_freq[idx] = cur + 1;
            test_re.push(
                Transaction {
                    movie_id: t.movie_id,
                    customer_id: idx,
                    rating: t.rating,
                    date: t.date.clone(),
                },
            );
            proof {
                lemma_identity_map_bijective(allk2);
                assert forall|x: usize| #[trigger] allk2.contains(x) implies trans_freq@[dmap(
                    allk2,
                )[x] as int] == count_occ(tids, x) && tests_freq@[dmap(allk2)[x] as int]
                    == count_occ(ek2, x) by {
                    if x == id {
                        assert(count_occ(ek2, x) == count_occ(ek, x) + 1);
                        assert(tests_freq@[idx as int] == cur + 1);
                        if allk.contains(x) {
                            assert(dmap(allk)[x] < dcount(allk));
                            assert(trans_freq@[dmap(allk)[x] as int] == count_occ(tids, x));
                            assert(dmap(allk2)[x] == dmap(allk)[x]);
                        } else {
                            assert(trans_freq@[idx as int] == 0);
                            assert(count_occ(tids, x) == 0);
                        }
                    } else {
                        assert(allk.contains(x));
                        assert(count_occ(ek2, x) == count_occ(ek, x));
                        assert(dmap(allk2)[x] == dmap(allk)[x]);
                        assert(dmap(allk)[x] < dcount(allk));
                        assert(trans_freq@[dmap(allk)[x] as int] == count_occ(tids, x));
                        assert(tfreq_mid[dmap(allk)[x] as int] == count_occ(ek, x));
                        assert(dmap(allk2)[x] != dmap(allk2)[id]);
                        assert(tests_freq@[dmap(allk2)[x] as int] == tfreq_mid[dmap(
                            allk2,
                        )[x] as int]);
                    }
                }
                assert forall|i: int| 0 <= i < k + 1 implies remapped_txn(
                    #[trigger] test_re@[i],
                    test_data@[i],
                    dmap(allk2),
                ) by {
                    if i < k {
                        assert(remapped_txn(test_re@[i], test_data@[i], dmap(allk)));
                        assert(allk.contains(test_data@[i].customer_id)) by {
                            assert(eids[i] == test_data@[i].customer_id);
                            assert(ek[i] == eids[i]);
                            assert(ek.contains(test_data@[i].customer_id));
                        }
                        assert(dmap(allk2)[test_data@[i].customer_id] == dmap(
                            allk,
                        )[test_data@[i].customer_id]);
                    }
                }
                assert(ek2.drop_last() =~= ek);
                assert(anomalies@ == stragglers(tids, ek2));
                lemma_contains_push(anoms0, id);
                lemma_contains_concat(tids, ek);
                assert forall|x: usize| #[trigger] anomalies@.contains(x) <==> ek2.contains(x)
                    && !tids.contains(x) by {
                    assert(ek2.contains(x) <==> ek.contains(x) || x == id);
                    if present {
                        assert(anomalies@ == anoms0);
                    } else {
                        assert(anomalies@ == anoms0.push(id));
                        assert(anomalies@.contains(x) <==> anoms0.contains(x) || x == id);
                        assert(!tids.contains(id));
                    }
                    if anomalies@.contains(x) {
                        if anoms0.contains(x) {
                            assert(ek.contains(x) && !tids.contains(x));
                        } else {
                            assert(!present && x == id);
                            assert(ek2[k as int] == x);
                        }
                    }
                    if ek2.contains(x) && !tids.contains(x) {
                        if x == id {
                            if present {
                                assert(allk.contains(id));
                                assert(ek.contains(id));
                                assert(anoms0.contains(x));
                            }
                        } else {
                            assert(ek.contains(x));
                            assert(anoms0.contains(x));
                        }
                    }
                }
            }
            k = k + 1;
        }
        proof {
            assert(tids + eids.take(n_test as int) =~= all);
            lemma_identity_map_bijective(all);
            lemma_contains_concat(tids, eids);
            assert(eids.take(n_test as int) =~= eids);
        }

        let ghost train_full = train_re@;
        let cross_valid = train_re.split_off(num_train);
        proof {
            assert forall|i: int| 0 <= i < num_train implies remapped_txn(
                #[trigger] train_re@[i],
                transactions@[i],
                dmap(all),
            ) by {
                assert(train_re@[i] == train_full[i]);
                assert(remapped_txn(train_full[i], transactions@[i], dmap(tids)));
                assert(tids[i] == transactions@[i].customer_id);
                assert(tids.contains(transactions@[i].customer_id));
                lemma_dmap_extend_one(tids, eids, transactions@[i].customer_id);
            }
            assert forall|i: int| 0 <= i < num_cross_valid implies remapped_txn(
                #[trigger] cross_valid@[i],
                transactions@[num_train + i],
                dmap(all),
            ) by {
                assert(cross_valid@[i] == train_full[num_train + i]);
                assert(remapped_txn(train_full[num_train + i], transactions@[num_train + i], dmap(tids)));
                assert(tids[num_train + i] == transactions@[num_train + i].customer_id);
                assert(tids.contains(transactions@[num_train + i].customer_id));
                lemma_dmap_extend_one(tids, eids, transactions@[num_train + i].customer_id);
            }
            assert forall|i: int| 0 <= i < n_test implies remapped_txn(
                #[trigger] test_re@[i],
                test_data@[i],
                dmap(all),
            ) by {}
        }

        let d = Data {
            metadata: MetaData {
                num_customers: virtual_id,
                num_movies: movies.len(),
                num_train,
                num_cross_valid,
                trans_freq,
                tests_freq,
                anomalies,
            },
            train: train_re,
            cross_valid,
            movies,
            test_data: test_re,
            virtual_id_map,
        };
        proof {
            assert forall|x: usize| #[trigger] all.contains(x) implies d.metadata.trans_freq@[dmap(
                all,
            )[x] as int] == count_occ(tids, x) && d.metadata.tests_freq@[dmap(all)[x] as int]
                == count_occ(eids, x) by {
                assert((tids + eids.take(n_test as int)).contains(x));
                assert(d.metadata.trans_freq@[dmap(tids + eids.take(n_test as int))[x] as int]
                    == count_occ(tids, x));
                assert(d.metadata.tests_freq@[dmap(tids + eids.take(n_test as int))[x] as int]
                    == count_occ(eids.take(n_test as int), x));
            }
        }
        d
    }
}

} // verus!
