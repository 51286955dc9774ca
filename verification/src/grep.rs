//! The free-text path: structural support for regular-expression
//! matching over a record's data section.
//!
//! This path bypasses the tree builder and predicate machinery.  Two
//! expressions are supplied outside this crate: one is run against the
//! record id's decimal text, one against data-section content.  This
//! module collects every scalar the content expression must see, in
//! depth-first order, and combines the match outcomes conjunctively;
//! running the expressions themselves is the caller's work.

use vstd::prelude::*;

verus! {

broadcast use vstd::std_specs::vec::group_vec_axioms;

/// One value of a record's data section: a scalar, an ordered list, or
/// an ordered mapping of named values.
pub enum DataValue {
    Scalar(String),
    List(Vec<DataValue>),
    Object(Vec<(String, DataValue)>),
}

/// Every scalar below the value, in depth-first order.
pub open spec fn scalars_of_value(v: DataValue) -> Seq<Seq<char>>
    decreases v,
{
    match v {
        DataValue::Scalar(s) => seq![s@],
        DataValue::List(items) => scalars_of_list(items@, items@.len() as int),
        DataValue::Object(fields) => scalars_of_object(fields@, fields@.len() as int),
    }
}

/// Every scalar below the first `k` values of a list.
pub open spec fn scalars_of_list(s: Seq<DataValue>, k: int) -> Seq<Seq<char>>
    decreases s, k,
{
    if k <= 0 || k > s.len() {
        Seq::empty()
    } else {
        scalars_of_list(s, k - 1) + scalars_of_value(s[k - 1])
    }
}

/// Every scalar below the first `k` named values of a mapping.
pub open spec fn scalars_of_object(s: Seq<(String, DataValue)>, k: int) -> Seq<Seq<char>>
    decreases s, k,
{
    if k <= 0 || k > s.len() {
        Seq::empty()
    } else {
        scalars_of_object(s, k - 1) + scalars_of_value(s[k - 1].1)
    }
}

/// Appends every scalar below `v`, in depth-first order, to `out`.
fn push_scalars(v: &DataValue, out: &mut Vec<String>)
    ensures
        final(out).deep_view() == old(out).deep_view() + scalars_of_value(*v),
    decreases *v,
{
    match v {
        DataValue::Scalar(s) => {
            out.push(s.clone());
            proof {
                assert(out.deep_view() =~= old(out).deep_view() + scalars_of_value(*v));
            }
        },
        DataValue::List(items) => {
            let ghost base = out.deep_view();
            let n = items.len();
            let mut i: usize = 0;
            while i < n
                invariant
                    *v == DataValue::List(*items),
                    n == items@.len(),
                    i <= n,
                    out.deep_view() == base + scalars_of_list(items@, i as int),
                decreases n - i,
            {
                proof {
                    assert(*items == v->List_0);
                    assert(decreases_to!(*v => v->List_0));
                    assert(decreases_to!(*items => items@[i as int]));
                    assert(decreases_to!(*v => items@[i as int]));
                }
                push_scalars(&items[i], out);
                proof {
                    assert(out.deep_view() =~= base + scalars_of_list(items@, i + 1 as int));
                }
                i = i + 1;
            }
        },
        DataValue::Object(fields) => {
            let ghost base = out.deep_view();
            let n = fields.len();
            let mut i: usize = 0;
            while i < n
                invariant
                    *v == DataValue::Object(*fields),
                    n == fields@.len(),
                    i <= n,
                    out.deep_view() == base + scalars_of_object(fields@, i as int),
                decreases n - i,
            {
                proof {
                    assert(*fields == v->Object_0);
                    assert(decreases_to!(*v => v->Object_0));
                    assert(decreases_to!(*fields => fields@[i as int]));
                    assert(decreases_to!(*v => fields@[i as int].1));
                }
                push_scalars(&fields[i].1, out);
                proof {
                    assert(out.deep_view() =~= base + scalars_of_object(fields@, i + 1 as int));
                }
                i = i + 1;
            }
        },
    }
}

/// Collects every scalar of the value, in depth-first order, for the
/// content expression to inspect.
pub fn scalars_of(v: &DataValue) -> (r: Vec<String>)
    ensures
        r.deep_view() == scalars_of_value(*v),
{
    let mut out: Vec<String> = Vec::new();
    push_scalars(v, &mut out);
    proof {
        assert(Seq::<Seq<char>>::empty() + scalars_of_value(*v) =~= scalars_of_value(*v));
    }
    out
}

/// The grep path's decision: the record passes exactly when the id
/// expression matched and the content expression matched at least one
/// scalar.
pub fn grep_decision(id_matched: bool, scalar_hits: &Vec<bool>) -> (r: bool)
    ensures
        r == (id_matched && exists|i: int| 0 <= i < scalar_hits@.len() && scalar_hits@[i]),
{
    if !id_matched {
        return false;
    }
    let n = scalar_hits.len();
    let mut i: usize = 0;
    while i < n
        invariant
            id_matched,
            n == scalar_hits@.len(),
            i <= n,
            forall|j: int| 0 <= j < i ==> !scalar_hits@[j],
        decreases n - i,
    {
        if scalar_hits[i] {
            proof {
                assert(scalar_hits@[i as int]);
            }
            return true;
        }
        i = i + 1;
    }
    false
}

} // verus!
