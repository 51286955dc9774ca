//! One matched record, kept for buffered emission, and the sorting that
//! buffered mode performs before emitting.
//!
//! Record ids are unique and monotone in source order but records may be
//! matched out of order; buffered-sorted emission collects every match
//! and emits in ascending record-id order, independent of arrival order.

use vstd::multiset::Multiset;
use vstd::prelude::*;
use vstd::seq_lib::group_to_multiset_ensures;

use crate::text::decimal_of;
use crate::text::u64_to_decimal;

verus! {

broadcast use vstd::std_specs::vec::group_vec_axioms;

/// One matched record: its serialized form, id and timestamp.
pub struct RecordInfo {
    pub xml_data: String,
    pub event_record_id: u64,
    pub timestamp: String,
}

impl RecordInfo {
    pub fn new(xml_data: String, event_record_id: u64, timestamp: String) -> (r: Self)
        ensures
            r.xml_data == xml_data,
            r.event_record_id == event_record_id,
            r.timestamp == timestamp,
    {
        Self { xml_data, event_record_id, timestamp }
    }
}

/// Ascending record-id order.
pub open spec fn sorted_by_id(s: Seq<RecordInfo>) -> bool {
    forall|i: int, j: int|
        0 <= i < j < s.len() ==> s[i].event_record_id <= s[j].event_record_id
}

/// The record ids, in sequence order.
pub open spec fn ids_of(s: Seq<RecordInfo>) -> Seq<u64> {
    s.map_values(|r: RecordInfo| r.event_record_id)
}

/// Sorts matched records ascending by record id; the result holds exactly
/// the given records.
pub fn sort_records(records: Vec<RecordInfo>) -> (r: Vec<RecordInfo>)
    ensures
        sorted_by_id(r@),
        r@.to_multiset() == records@.to_multiset(),
        r@.len() == records@.len(),
{
    broadcast use group_to_multiset_ensures;

    let ghost all = records@;
    let mut rest = records;
    let mut out: Vec<RecordInfo> = Vec::new();
    proof {
        assert(out@.to_multiset().add(rest@.to_multiset()) =~= all.to_multiset());
    }
    while rest.len() > 0
        invariant
            sorted_by_id(out@),
            out@.to_multiset().add(rest@.to_multiset()) == all.to_multiset(),
            out@.len() + rest@.len() == all.len(),
        decreases rest@.len(),
    {
        let ghost rest0 = rest@;
        let ghost out0 = out@;
        let x = rest.pop().unwrap();
        proof {
            assert(rest@.push(x) =~= rest0);
            rest@.to_multiset_ensures();
            assert(rest0.to_multiset() =~= rest@.to_multiset().insert(x));
        }
        let m = out.len();
        let mut idx: usize = 0;
        while idx < m && out[idx].event_record_id <= x.event_record_id
            invariant
                m == out@.len(),
                out@ == out0,
                idx <= m,
                forall|p: int| 0 <= p < idx ==> out@[p].event_record_id <= x.event_record_id,
            decreases m - idx,
        {
            idx = idx + 1;
        }
        proof {
            assert(idx == m || out@[idx as int].event_record_id > x.event_record_id);
        }
        out.insert(idx, x);
        proof {
            out0.insert_ensures(idx as int, x);
            assert(sorted_by_id(out@)) by {
                assert forall|i: int, j: int| 0 <= i < j < out@.len() implies out@[i].event_record_id
                    <= out@[j].event_record_id by {
                    if j < idx {
                    } else if i < idx && j == idx {
                    } else if i < idx && j > idx {
                        assert(out@[j] == out0[j - 1]);
                    } else if i == idx {
                        assert(out@[j] == out0[j - 1]);
                        assert(out0[idx as int].event_record_id <= out0[j - 1].event_record_id);
                    } else {
                        assert(out@[i] == out0[i - 1]);
                        assert(out@[j] == out0[j - 1]);
                    }
                }
            }
            assert(out@.to_multiset() =~= out0.to_multiset().insert(x)) by {
                broadcast use vstd::multiset::group_multiset_axioms;

                let s0 = out0.subrange(0, idx as int);
                let s1 = out0.subrange(idx as int, out0.len() as int);
                assert(out@ == s0.push(x) + s1);
                vstd::seq_lib::lemma_multiset_commutative(s0.push(x), s1);
                vstd::seq_lib::lemma_multiset_commutative(s0, s1);
                s0.to_multiset_ensures();
                assert(s0 + s1 =~= out0);
                assert(out@.to_multiset() =~= s0.to_multiset().insert(x).add(s1.to_multiset()));
                assert(s0.to_multiset().insert(x).add(s1.to_multiset()) =~= s0.to_multiset().add(
                    s1.to_multiset(),
                ).insert(x));
            }
            assert(out@.to_multiset().add(rest@.to_multiset()) =~= all.to_multiset()) by {
                broadcast use vstd::multiset::group_multiset_axioms;

                assert(out0.to_multiset().add(rest0.to_multiset()) == all.to_multiset());
                assert(rest0.to_multiset() == rest@.to_multiset().insert(x));
            }
        }
    }
    proof {
        assert(rest@ =~= Seq::<RecordInfo>::empty());
        assert(rest@.to_multiset() =~= Multiset::<RecordInfo>::empty());
        assert(out@.to_multiset().add(Multiset::<RecordInfo>::empty()) =~= out@.to_multiset());
    }
    out
}

/// Buffered-sorted emission is total and deterministic: when no two
/// records share an id, the sorted output is strictly ascending by id,
/// whatever order the records arrived in.
pub proof fn lemma_sorted_output_strict(input: Seq<RecordInfo>, output: Seq<RecordInfo>)
    requires
        sorted_by_id(output),
        output.to_multiset() == input.to_multiset(),
        ids_of(input).no_duplicates(),
    ensures
        forall|i: int, j: int|
            0 <= i < j < output.len() ==> output[i].event_record_id < output[j].event_record_id,
{
    broadcast use group_to_multiset_ensures;

    assert(input.no_duplicates()) by {
        assert forall|p: int, q: int|
            0 <= p < input.len() && 0 <= q < input.len() && p != q implies input[p] != input[q] by {
            assert(ids_of(input)[p] == input[p].event_record_id);
            assert(ids_of(input)[q] == input[q].event_record_id);
        }
    }
    input.lemma_multiset_has_no_duplicates();
    output.lemma_multiset_has_no_duplicates_conv();
    assert forall|i: int, j: int| 0 <= i < j < output.len() implies output[i].event_record_id
        < output[j].event_record_id by {
        if output[i].event_record_id == output[j].event_record_id {
            assert(output[i] != output[j]);
            assert(output.contains(output[i]));
            assert(output.contains(output[j]));
            assert(output.to_multiset().count(output[i]) > 0);
            assert(output.to_multiset().count(output[j]) > 0);
            assert(input.to_multiset().count(output[i]) > 0);
            assert(input.to_multiset().count(output[j]) > 0);
            assert(input.contains(output[i]));
            assert(input.contains(output[j]));
            let p = choose|p: int| 0 <= p < input.len() && input[p] == output[i];
            let q = choose|q: int| 0 <= q < input.len() && input[q] == output[j];
            assert(ids_of(input)[p] == ids_of(input)[q]);
            assert(false);
        }
    }
}

/// Buffered-sorted emission is deterministic: once no two records share
/// an id, exactly one arrangement of a given set of matched records is
/// sorted by record id, so the output does not depend on the order the
/// decoder delivered the records in.
pub proof fn lemma_sorted_output_unique(x: Seq<RecordInfo>, y: Seq<RecordInfo>)
    requires
        sorted_by_id(x),
        sorted_by_id(y),
        x.to_multiset() == y.to_multiset(),
        ids_of(x).no_duplicates(),
    ensures
        x =~= y,
    decreases x.len(),
{
    broadcast use group_to_multiset_ensures;
    broadcast use vstd::multiset::group_multiset_axioms;

    x.to_multiset_ensures();
    y.to_multiset_ensures();
    if x.len() == 0 {
        assert(y.to_multiset().len() == 0);
        assert(y.len() == 0);
    } else {
        assert(y.to_multiset().len() == x.to_multiset().len());
        assert(y.len() == x.len());
        assert(x.contains(x[0]));
        assert(x.to_multiset().count(x[0]) > 0);
        assert(y.to_multiset().count(y[0]) > 0);
        assert(x.to_multiset().count(y[0]) > 0);
        assert(x.contains(y[0]));
        let j = choose|j: int| 0 <= j < x.len() && x[j] == y[0];
        assert(y.to_multiset().count(x[0]) > 0);
        assert(y.contains(x[0]));
        let i = choose|i: int| 0 <= i < y.len() && y[i] == x[0];
        // the two heads carry the same id
        assert(y[0].event_record_id <= y[i].event_record_id);
        assert(x[0].event_record_id <= x[j].event_record_id);
        assert(x[0].event_record_id == y[0].event_record_id);
        // x's ids are unique, so y's head can only sit at x's head
        if j > 0 {
            assert(ids_of(x)[0] == x[0].event_record_id);
            assert(ids_of(x)[j] == x[j].event_record_id);
            assert(false);
        }
        assert(x[0] == y[0]);
        let xr = x.drop_first();
        let yr = y.drop_first();
        assert(xr.to_multiset() =~= x.to_multiset().remove(x[0])) by {
            assert(x.remove(0) =~= xr);
        }
        assert(yr.to_multiset() =~= y.to_multiset().remove(y[0])) by {
            assert(y.remove(0) =~= yr);
        }
        assert(ids_of(xr).no_duplicates()) by {
            assert forall|p: int, q: int|
                0 <= p < ids_of(xr).len() && 0 <= q < ids_of(xr).len() && p != q implies ids_of(
                xr,
            )[p] != ids_of(xr)[q] by {
                assert(ids_of(xr)[p] == ids_of(x)[p + 1]);
                assert(ids_of(xr)[q] == ids_of(x)[q + 1]);
            }
        }
        lemma_sorted_output_unique(xr, yr);
        assert(x =~= y) by {
            assert(forall|k: int| 1 <= k < x.len() ==> x[k] == xr[k - 1] && y[k] == yr[k - 1]);
        }
    }
}

/// The quick-audit form of one record: id, timestamp and the well-known
/// provider and event-id fields, joined with a `;` delimiter.
pub open spec fn tabular_of(
    id: int,
    timestamp: Seq<char>,
    provider: Seq<char>,
    event_id: Seq<char>,
) -> Seq<char> {
    decimal_of(id) + ";"@ + timestamp + ";"@ + provider + ";"@ + event_id
}

/// Renders one record's quick-audit line.
pub fn tabular_line(record_id: u64, timestamp: &str, provider: &str, event_id: &str) -> (r: String)
    ensures
        r@ == tabular_of(record_id as int, timestamp@, provider@, event_id@),
{
    let mut r = u64_to_decimal(record_id);
    r.append(";");
    r.append(timestamp);
    r.append(";");
    r.append(provider);
    r.append(";");
    r.append(event_id);
    proof {
        assert(r@ =~= tabular_of(record_id as int, timestamp@, provider@, event_id@));
    }
    r
}

} // verus!
