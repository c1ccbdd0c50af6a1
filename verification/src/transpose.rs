//! Transposition of per-day snapshots into per-product price histories.
//!
//! Every normalized item of every snapshot is appended to the history of
//! the product with exactly its name (case-sensitive string equality), so
//! the total number of history entries equals the total number of items.
//! History entries are logically a set: no ordering of products or of the
//! entries within one product is promised to consumers.

use vstd::prelude::*;

use crate::parse::{ParsedItem, StoreData};
use crate::types::{ComparePrice, Date, SoldInUnit};

verus! {

/// The fields of a normalized item that one history entry retains; the
/// name and URL are stored once per product instead.
#[derive(Debug)]
pub struct TrimmedParsedItem {
    pub price: u64,
    pub compare: Option<ComparePrice>,
    pub sold_in_unit: SoldInUnit,
    pub unit_weight: Option<u64>,
}

/// One product observation: which store saw it on which date, at which
/// price.
#[derive(Debug)]
pub struct DataForDay {
    pub date: Date,
    pub store_id: u32,
    pub data: TrimmedParsedItem,
}

/// The full price history of one distinct product name.
#[derive(Debug)]
pub struct Item {
    pub name: String,
    pub url: String,
    pub price_data: Vec<DataForDay>,
}

/// The history entry that snapshot `st` contributes for its item `it`.
pub open spec fn entry_of(st: StoreData, it: ParsedItem) -> DataForDay {
    DataForDay {
        date: st.date,
        store_id: st.store_id,
        data: TrimmedParsedItem {
            price: it.price,
            compare: it.compare,
            sold_in_unit: it.sold_in_unit,
            unit_weight: it.unit_weight,
        },
    }
}

/// History entries contributed for `name` by the first `upto` items of
/// snapshot `st`, in item order.
pub open spec fn store_entries(st: StoreData, upto: int, name: Seq<char>) -> Seq<DataForDay>
    decreases upto,
{
    if upto <= 0 {
        Seq::empty()
    } else {
        let pre = store_entries(st, upto - 1, name);
        if st.items@[upto - 1].name@ == name {
            pre.push(entry_of(st, st.items@[upto - 1]))
        } else {
            pre
        }
    }
}

/// History entries contributed for `name` by the first `upto` snapshots.
pub open spec fn entries_stores(ss: Seq<StoreData>, upto: int, name: Seq<char>) -> Seq<DataForDay>
    decreases upto,
{
    if upto <= 0 {
        Seq::empty()
    } else {
        entries_stores(ss, upto - 1, name) + store_entries(
            ss[upto - 1],
            ss[upto - 1].items@.len() as int,
            name,
        )
    }
}

/// All history entries for `name` across all snapshots.
pub open spec fn entries_for(ss: Seq<StoreData>, name: Seq<char>) -> Seq<DataForDay> {
    entries_stores(ss, ss.len() as int, name)
}

/// Total number of items in the first `upto` snapshots.
pub open spec fn total_items(ss: Seq<StoreData>, upto: int) -> int
    decreases upto,
{
    if upto <= 0 {
        0
    } else {
        total_items(ss, upto - 1) + ss[upto - 1].items@.len()
    }
}

/// Total number of history entries across all products.
pub open spec fn total_entries(items: Seq<Item>) -> int
    decreases items.len(),
{
    if items.len() == 0 {
        0
    } else {
        total_entries(items.drop_last()) + items.last().price_data@.len()
    }
}

/// Whether some item of some snapshot carries `name`.
pub open spec fn name_occurs(ss: Seq<StoreData>, name: Seq<char>) -> bool {
    exists|i: int, j: int|
        0 <= i < ss.len() && 0 <= j < ss[i].items@.len() && ss[i].items@[j].name@ == name
}

/// URL of the first item named `name` at or after position `from` of
/// snapshot `st`.
pub open spec fn store_first_url(st: StoreData, from: int, name: Seq<char>) -> Option<Seq<char>>
    decreases st.items@.len() - from when from >= 0
{
    if from >= st.items@.len() {
        None
    } else if st.items@[from].name@ == name {
        Some(st.items@[from].url@)
    } else {
        store_first_url(st, from + 1, name)
    }
}

/// URL of the first item named `name` in snapshot order, starting with
/// snapshot `from`.
pub open spec fn first_url(ss: Seq<StoreData>, from: int, name: Seq<char>) -> Option<Seq<char>>
    decreases ss.len() - from when from >= 0
{
    if from >= ss.len() {
        None
    } else {
        match store_first_url(ss[from], 0, name) {
            Some(u) => Some(u),
            None => first_url(ss, from + 1, name),
        }
    }
}

/// What transposition promises of its result: product names are distinct;
/// each product's history is exactly the entries for its name, which are
/// never empty; and each product's URL is the first seen for its name.
/// Order of products and which product holds which position are left open.
pub open spec fn transpose_post(ss: Seq<StoreData>, r: Seq<Item>) -> bool {
    &&& forall|a: int, b: int| 0 <= a < b < r.len() ==> r[a].name@ != r[b].name@
    &&& forall|k: int| 0 <= k < r.len() ==> r[k].price_data@ == entries_for(ss, r[k].name@)
    &&& forall|k: int| 0 <= k < r.len() ==> r[k].price_data@.len() > 0
    &&& forall|k: int| 0 <= k < r.len() ==> Some(r[k].url@) == first_url(ss, 0, r[k].name@)
    &&& forall|i: int, j: int|
        0 <= i < ss.len() && 0 <= j < ss[i].items@.len() ==> exists|k: int|
            0 <= k < r.len() && r[k].name@ == (#[trigger] ss[i].items@[j]).name@
}

proof fn lemma_total_entries_update(s: Seq<Item>, i: int, x: Item)
    requires
        0 <= i < s.len(),
    ensures
        total_entries(s.update(i, x)) == total_entries(s) - s[i].price_data@.len()
            + x.price_data@.len(),
    decreases s.len(),
{
    let t = s.update(i, x);
    if i == s.len() - 1 {
        assert(t.drop_last() =~= s.drop_last());
        assert(t.last() == x);
    } else {
        assert(t.drop_last() =~= s.drop_last().update(i, x));
        assert(t.last() == s.last());
        lemma_total_entries_update(s.drop_last(), i, x);
    }
}

proof fn lemma_total_entries_push(s: Seq<Item>, x: Item)
    ensures
        total_entries(s.push(x)) == total_entries(s) + x.price_data@.len(),
{
    assert(s.push(x).drop_last() =~= s);
    assert(s.push(x).last() == x);
}

proof fn lemma_store_entries_absent(st: StoreData, upto: int, name: Seq<char>)
    requires
        forall|j: int| 0 <= j < upto ==> st.items@[j].name@ != name,
    ensures
        store_entries(st, upto, name) =~= Seq::<DataForDay>::empty(),
    decreases upto,
{
    if upto > 0 {
        lemma_store_entries_absent(st, upto - 1, name);
    }
}

proof fn lemma_entries_stores_absent(ss: Seq<StoreData>, upto: int, name: Seq<char>)
    requires
        upto <= ss.len(),
        forall|i: int, j: int|
            0 <= i < upto && 0 <= j < ss[i].items@.len() ==> ss[i].items@[j].name@ != name,
    ensures
        entries_stores(ss, upto, name) =~= Seq::<DataForDay>::empty(),
    decreases upto,
{
    if upto > 0 {
        lemma_entries_stores_absent(ss, upto - 1, name);
        lemma_store_entries_absent(ss[upto - 1], ss[upto - 1].items@.len() as int, name);
    }
}

/// Entries that exist imply an item with that name exists.
pub proof fn lemma_entries_nonempty_occurs(ss: Seq<StoreData>, name: Seq<char>)
    requires
        entries_for(ss, name).len() > 0,
    ensures
        name_occurs(ss, name),
{
    if !name_occurs(ss, name) {
        assert(forall|i: int, j: int|
            0 <= i < ss.len() && 0 <= j < ss[i].items@.len() ==> ss[i].items@[j].name@ != name);
        lemma_entries_stores_absent(ss, ss.len() as int, name);
    }
}

proof fn lemma_store_first_url_absent(st: StoreData, upto: int, name: Seq<char>)
    requires
        0 <= upto <= st.items@.len(),
        forall|j: int| 0 <= j < upto ==> st.items@[j].name@ != name,
    ensures
        store_first_url(st, 0, name) == store_first_url(st, upto, name),
    decreases upto,
{
    if upto > 0 {
        lemma_store_first_url_absent(st, upto - 1, name);
        assert(st.items@[upto - 1].name@ != name);
        assert(store_first_url(st, upto - 1, name) == store_first_url(st, upto, name));
    }
}

proof fn lemma_first_url_skip(ss: Seq<StoreData>, upto: int, name: Seq<char>)
    requires
        0 <= upto <= ss.len(),
        forall|i: int, j: int|
            0 <= i < upto && 0 <= j < ss[i].items@.len() ==> ss[i].items@[j].name@ != name,
    ensures
        first_url(ss, 0, name) == first_url(ss, upto, name),
    decreases upto,
{
    if upto > 0 {
        lemma_first_url_skip(ss, upto - 1, name);
        lemma_store_first_url_absent(ss[upto - 1], ss[upto - 1].items@.len() as int, name);
        assert(store_first_url(ss[upto - 1], ss[upto - 1].items@.len() as int, name) is None);
        assert(first_url(ss, upto - 1, name) == first_url(ss, upto, name));
    }
}

/// Where no item of an earlier snapshot, and no earlier item of snapshot
/// `si`, carries `name`, and item `ij` of snapshot `si` does, the first
/// URL for `name` is that item's URL.
proof fn lemma_first_url_found(ss: Seq<StoreData>, si: int, ij: int, name: Seq<char>)
    requires
        0 <= si < ss.len(),
        0 <= ij < ss[si].items@.len(),
        ss[si].items@[ij].name@ == name,
        forall|i: int, j: int|
            0 <= i < si && 0 <= j < ss[i].items@.len() ==> ss[i].items@[j].name@ != name,
        forall|j: int| 0 <= j < ij ==> ss[si].items@[j].name@ != name,
    ensures
        first_url(ss, 0, name) == Some(ss[si].items@[ij].url@),
{
    lemma_first_url_skip(ss, si, name);
    lemma_store_first_url_absent(ss[si], ij, name);
    assert(store_first_url(ss[si], ij, name) == Some(ss[si].items@[ij].url@));
}

/// Group every item of every snapshot by exact product name. One output
/// product per distinct name; its history holds one entry per snapshot
/// item with that name, and the total entry count equals the total item
/// count.
pub fn transpose(stores: Vec<StoreData>) -> (r: Vec<Item>)
    ensures
        transpose_post(stores@, r@),
        total_entries(r@) == total_items(stores@, stores@.len() as int),
{
    let ghost ss0 = stores@;
    let mut stores = stores;
    let mut r: Vec<Item> = Vec::new();
    let ghost mut si: int = 0;
    while stores.len() > 0
        invariant
            0 <= si <= ss0.len(),
            stores@ =~= ss0.subrange(si, ss0.len() as int),
            forall|a: int, b: int| 0 <= a < b < r@.len() ==> r@[a].name@ != r@[b].name@,
            forall|k: int|
                0 <= k < r@.len() ==> r@[k].price_data@ == entries_stores(ss0, si, r@[k].name@),
            forall|k: int| 0 <= k < r@.len() ==> r@[k].price_data@.len() > 0,
            forall|k: int| 0 <= k < r@.len() ==> Some(r@[k].url@) == first_url(ss0, 0, r@[k].name@),
            forall|i: int, j: int|
                0 <= i < si && 0 <= j < ss0[i].items@.len() ==> exists|k: int|
                    0 <= k < r@.len() && r@[k].name@ == (#[trigger] ss0[i].items@[j]).name@,
            total_entries(r@) == total_items(ss0, si),
        decreases stores@.len(),
    {
        let st = stores.remove(0);
        let ghost st0 = ss0[si];
        proof {
            assert(st == st0);
        }
        let date = st.date;
        let sid = st.store_id;
        let mut items = st.items;
        let ghost mut ij: int = 0;
        while items.len() > 0
            invariant
                0 <= si < ss0.len(),
                st0 == ss0[si],
                st0.date == date,
                st0.store_id == sid,
                0 <= ij <= st0.items@.len(),
                items@ =~= st0.items@.subrange(ij, st0.items@.len() as int),
                forall|a: int, b: int| 0 <= a < b < r@.len() ==> r@[a].name@ != r@[b].name@,
                forall|k: int|
                    0 <= k < r@.len() ==> r@[k].price_data@ == entries_stores(ss0, si, r@[k].name@)
                        + store_entries(st0, ij, r@[k].name@),
                forall|k: int| 0 <= k < r@.len() ==> r@[k].price_data@.len() > 0,
                forall|k: int|
                    0 <= k < r@.len() ==> Some(r@[k].url@) == first_url(ss0, 0, r@[k].name@),
                forall|i: int, j: int|
                    (0 <= i < si && 0 <= j < ss0[i].items@.len()) || (i == si && 0 <= j < ij)
                        ==> exists|k: int|
                        0 <= k < r@.len() && r@[k].name@ == (#[trigger] ss0[i].items@[j]).name@,
                total_entries(r@) == total_items(ss0, si) + ij,
            decreases items@.len(),
        {
            let it = items.remove(0);
            let ghost it0 = st0.items@[ij];
            proof {
                assert(it == it0);
            }
            let mut k: usize = 0;
            let mut found = false;
            while !found && k < r.len()
                invariant
                    k <= r@.len(),
                    !found ==> forall|m: int| 0 <= m < k ==> r@[m].name@ != it.name@,
                    found ==> k < r@.len() && r@[k as int].name@ == it.name@,
                decreases r@.len() - k + (if found { 0int } else { 1int }),
            {
                if r[k].name == it.name {
                    found = true;
                } else {
                    k += 1;
                }
            }
            let ghost r_old = r@;
            let entry = DataForDay {
                date,
                store_id: sid,
                data: TrimmedParsedItem {
                    price: it.price,
                    compare: it.compare,
                    sold_in_unit: it.sold_in_unit,
                    unit_weight: it.unit_weight,
                },
            };
            proof {
                assert(entry == entry_of(st0, it0));
            }
            if found {
                let mut ex = r.swap_remove(k);
                let ghost ex0 = ex;
                ex.price_data.push(entry);
                r.push(ex);
                proof {
                    let l = r_old.len() as int;
                    let ki = k as int;
                    let mid = r_old.update(ki, r_old.last()).drop_last();
                    let exn = r@.last();
                    assert(r@ =~= mid.push(exn));
                    assert(exn.name@ == it0.name@);
                    assert(exn.price_data@ =~= ex0.price_data@.push(entry_of(st0, it0)));
                    // names of the permuted elements stay pairwise distinct
                    assert forall|a: int, b: int| 0 <= a < b < r@.len() implies r@[a].name@
                        != r@[b].name@ by {
                        if b < l - 1 {
                            assert(r@[a] == (if a == ki { r_old[l - 1] } else { r_old[a] }));
                            assert(r@[b] == (if b == ki { r_old[l - 1] } else { r_old[b] }));
                        } else {
                            assert(r@[a] == (if a == ki { r_old[l - 1] } else { r_old[a] }));
                            assert(r@[b].name@ == r_old[ki].name@);
                        }
                    }
                    // each element's history matches the grown prefix
                    assert forall|m: int| 0 <= m < r@.len() implies r@[m].price_data@
                        == entries_stores(ss0, si, r@[m].name@) + store_entries(
                        st0,
                        ij + 1,
                        r@[m].name@,
                    ) by {
                        if m < l - 1 {
                            assert(r@[m] == (if m == ki { r_old[l - 1] } else { r_old[m] }));
                            assert(r@[m].name@ != it0.name@);
                            assert(store_entries(st0, ij + 1, r@[m].name@) == store_entries(
                                st0,
                                ij,
                                r@[m].name@,
                            ));
                        } else {
                            assert(store_entries(st0, ij + 1, it0.name@) =~= store_entries(
                                st0,
                                ij,
                                it0.name@,
                            ).push(entry_of(st0, it0)));
                            assert(r@[m].price_data@ =~= (entries_stores(ss0, si, it0.name@)
                                + store_entries(st0, ij, it0.name@)).push(entry_of(st0, it0)));
                            assert(r@[m].price_data@ =~= entries_stores(ss0, si, it0.name@)
                                + store_entries(st0, ij + 1, it0.name@));
                        }
                    }
                    // every name seen so far still has a representative
                    assert forall|i: int, j: int|
                        (0 <= i < si && 0 <= j < ss0[i].items@.len()) || (i == si && 0 <= j < ij
                            + 1) implies exists|k2: int|
                        0 <= k2 < r@.len() && r@[k2].name@ == (#[trigger] ss0[i].items@[j]).name@ by {
                        let nm = ss0[i].items@[j].name@;
                        if i == si && j == ij {
                            assert(r@[r@.len() - 1].name@ == nm);
                        } else {
                            let m = choose|m: int|
                                0 <= m < r_old.len() && r_old[m].name@ == nm;
                            if m == ki {
                                assert(r@[r@.len() - 1].name@ == nm);
                            } else if m == l - 1 {
                                assert(r@[ki].name@ == nm);
                            } else {
                                assert(r@[m].name@ == nm);
                            }
                        }
                    }
                    // the total grows by exactly the one new entry
                    lemma_total_entries_update(r_old, ki, r_old.last());
                    lemma_total_entries_push(mid, exn);
                    assert(mid =~= r_old.update(ki, r_old.last()).drop_last());
                    assert(total_entries(r@) == total_items(ss0, si) + ij + 1);
                }
            } else {
                proof {
                    assert(forall|m: int| 0 <= m < r_old.len() ==> r_old[m].name@ != it0.name@);
                }
                let mut pd: Vec<DataForDay> = Vec::new();
                pd.push(entry);
                r.push(Item { name: it.name, url: it.url, price_data: pd });
                proof {
                    let l = r_old.len() as int;
                    assert(r@ =~= r_old.push(r@[l]));
                    assert(r@[l].name@ == it0.name@);
                    assert(r@[l].url@ == it0.url@);
                    assert(r@[l].price_data@ =~= Seq::<DataForDay>::empty().push(
                        entry_of(st0, it0),
                    ));
                    // no earlier occurrence of this name anywhere processed
                    assert(forall|i: int, j: int|
                        0 <= i < si && 0 <= j < ss0[i].items@.len() ==> ss0[i].items@[j].name@
                            != it0.name@);
                    assert(forall|j: int| 0 <= j < ij ==> st0.items@[j].name@ != it0.name@);
                    lemma_entries_stores_absent(ss0, si, it0.name@);
                    lemma_store_entries_absent(st0, ij, it0.name@);
                    lemma_first_url_found(ss0, si, ij, it0.name@);
                    assert(store_entries(st0, ij + 1, it0.name@) =~= store_entries(
                        st0,
                        ij,
                        it0.name@,
                    ).push(entry_of(st0, it0)));
                    assert(r@[l].price_data@ =~= entries_stores(ss0, si, it0.name@)
                        + store_entries(st0, ij + 1, it0.name@));
                    assert forall|m: int| 0 <= m < r@.len() implies r@[m].price_data@
                        == entries_stores(ss0, si, r@[m].name@) + store_entries(
                        st0,
                        ij + 1,
                        r@[m].name@,
                    ) by {
                        if m < l {
                            assert(r@[m] == r_old[m]);
                            assert(r@[m].name@ != it0.name@);
                            assert(store_entries(st0, ij + 1, r@[m].name@) == store_entries(
                                st0,
                                ij,
                                r@[m].name@,
                            ));
                        }
                    }
                    assert forall|i: int, j: int|
                        (0 <= i < si && 0 <= j < ss0[i].items@.len()) || (i == si && 0 <= j < ij
                            + 1) implies exists|k2: int|
                        0 <= k2 < r@.len() && r@[k2].name@ == (#[trigger] ss0[i].items@[j]).name@ by {
                        let nm = ss0[i].items@[j].name@;
                        if i == si && j == ij {
                            assert(r@[l].name@ == nm);
                        } else {
                            let m = choose|m: int|
                                0 <= m < r_old.len() && r_old[m].name@ == nm;
                            assert(r@[m].name@ == nm);
                        }
                    }
                    lemma_total_entries_push(r_old, r@[l]);
                }
            }
            proof {
                ij = ij + 1;
                assert(items@ =~= st0.items@.subrange(ij, st0.items@.len() as int));
            }
        }
        proof {
            assert(ij == st0.items@.len());
            assert forall|k: int| 0 <= k < r@.len() implies r@[k].price_data@ == entries_stores(
                ss0,
                si + 1,
                r@[k].name@,
            ) by {
                assert(entries_stores(ss0, si + 1, r@[k].name@) == entries_stores(
                    ss0,
                    si,
                    r@[k].name@,
                ) + store_entries(st0, st0.items@.len() as int, r@[k].name@));
            }
            assert(total_items(ss0, si + 1) == total_items(ss0, si) + st0.items@.len());
            si = si + 1;
            assert(stores@ =~= ss0.subrange(si, ss0.len() as int));
        }
    }
    proof {
        assert(si == ss0.len());
    }
    r
}

/// Two transposition outcomes over the same snapshots agree up to order:
/// each product of the one stands, with the same name, URL and history,
/// in the other. Re-running ingestion on unchanged snapshots therefore
/// yields the same histories up to entry order.
pub proof fn lemma_transpose_agree(ss: Seq<StoreData>, r1: Seq<Item>, r2: Seq<Item>, k: int)
    requires
        transpose_post(ss, r1),
        transpose_post(ss, r2),
        0 <= k < r1.len(),
    ensures
        exists|m: int|
            0 <= m < r2.len() && (#[trigger] r2[m]).name@ == r1[k].name@ && r2[m].url@
                == r1[k].url@ && r2[m].price_data@ == r1[k].price_data@,
{
    let nm = r1[k].name@;
    lemma_entries_nonempty_occurs(ss, nm);
    let (i, j) = choose|i: int, j: int|
        0 <= i < ss.len() && 0 <= j < ss[i].items@.len() && ss[i].items@[j].name@ == nm;
    let m = choose|m: int| 0 <= m < r2.len() && r2[m].name@ == ss[i].items@[j].name@;
    assert(r2[m].price_data@ == entries_for(ss, nm));
    assert(Some(r2[m].url@) == first_url(ss, 0, nm));
    assert(0 <= m < r2.len() && r2[m].name@ == r1[k].name@ && r2[m].url@ == r1[k].url@
        && r2[m].price_data@ == r1[k].price_data@);
}

} // verus!