//! Dictionary construction.
//!
//! A decoded dictionary holds its entries in strictly ascending key order
//! under the total order of [`crate::order`], keys unique up to
//! equivalence.  Entries are inserted in wire order; a key equivalent to an
//! existing one keeps the existing key and overwrites its value, so the
//! later pair on the wire wins.

use vstd::prelude::*;

use crate::errors::DecodeError;
use crate::order::key_cmp;
use crate::value::deep_view_entries;
use crate::value::spec_convert;
use crate::value::EVEValue;
use crate::value::HashableEVEValue;
use crate::value::KeyModel;
use crate::value::ValueModel;

verus! {

/// Insertion of one key/value pair into an entry sequence: the pair is
/// placed before the first entry whose key is above `k`; an entry whose key
/// is equivalent to `k` keeps its key and has its value overwritten.
pub open spec fn spec_dict_insert(
    es: Seq<(KeyModel, ValueModel)>,
    k: KeyModel,
    v: ValueModel,
) -> Seq<(KeyModel, ValueModel)>
    decreases es.len(),
{
    if es.len() == 0 {
        seq![(k, v)]
    } else {
        let c = key_cmp(k, es[0].0);
        if c < 0 {
            seq![(k, v)] + es
        } else if c == 0 {
            seq![(es[0].0, v)] + es.drop_first()
        } else {
            seq![es[0]] + spec_dict_insert(es.drop_first(), k, v)
        }
    }
}

/// Folding decoded (value, key) wire pairs into an entry sequence, in wire
/// order; fails on the first key that is not key-eligible.
pub open spec fn spec_dict_fold(
    pairs: Seq<(ValueModel, ValueModel)>,
    acc: Seq<(KeyModel, ValueModel)>,
) -> Result<Seq<(KeyModel, ValueModel)>, DecodeError>
    decreases pairs.len(),
{
    if pairs.len() == 0 {
        Ok(acc)
    } else {
        match spec_convert(pairs[0].1) {
            Some(k) => spec_dict_fold(pairs.drop_first(), spec_dict_insert(acc, k, pairs[0].0)),
            None => Err(DecodeError::UnhashableKey),
        }
    }
}

/// The models of a vector of decoded (value, key) wire pairs.
pub open spec fn deep_view_pairs(ps: Seq<(EVEValue, EVEValue)>) -> Seq<(ValueModel, ValueModel)> {
    Seq::new(ps.len(), |i: int| (ps[i].0.deep_view(), ps[i].1.deep_view()))
}

/// Inserts one key/value pair into an entry vector as
/// [`spec_dict_insert`] describes.
pub fn dict_insert(
    entries: &mut Vec<(HashableEVEValue, EVEValue)>,
    key: HashableEVEValue,
    value: EVEValue,
)
    ensures
        deep_view_entries(final(entries)@) == spec_dict_insert(
            deep_view_entries(old(entries)@),
            key.deep_view(),
            value.deep_view(),
        ),
{
    let ghost orig = entries@;
    let ghost km = key.deep_view();
    let ghost vm = value.deep_view();
    let mut j: usize = 0;
    proof {
        assert(orig.skip(0) =~= orig);
        assert(deep_view_entries(orig.take(0)) =~= Seq::<(KeyModel, ValueModel)>::empty());
        assert(deep_view_entries(orig.skip(0)) =~= deep_view_entries(orig));
    }
    loop
        invariant
            j <= orig.len(),
            entries@ == orig,
            old(entries)@ == orig,
            km == key.deep_view(),
            vm == value.deep_view(),
            spec_dict_insert(deep_view_entries(orig), km, vm) == deep_view_entries(
                orig.take(j as int),
            ) + spec_dict_insert(deep_view_entries(orig.skip(j as int)), km, vm),
        decreases orig.len() - j,
    {
        if j == entries.len() {
            entries.push((key, value));
            proof {
                assert(deep_view_entries(orig.skip(j as int)) =~= Seq::<
                    (KeyModel, ValueModel),
                >::empty());
                assert(spec_dict_insert(Seq::<(KeyModel, ValueModel)>::empty(), km, vm) =~= seq![
                    (km, vm),
                ]);
                assert(orig.take(j as int) =~= orig);
                assert(entries@ =~= orig.push((key, value)));
                assert forall|i: int| 0 <= i < entries@.len() implies deep_view_entries(entries@)[i]
                    == (deep_view_entries(orig.take(j as int)) + seq![(km, vm)])[i] by {
                    if i < j {
                        assert(entries@[i] == orig[i]);
                    } else {
                        assert(entries@[i] == (key, value));
                    }
                }
                assert(deep_view_entries(entries@) =~= deep_view_entries(orig.take(j as int))
                    + spec_dict_insert(Seq::<(KeyModel, ValueModel)>::empty(), km, vm));
            }
            return ;
        }
        let ghost rest = orig.skip(j as int);
        proof {
            assert(rest.len() > 0);
            assert(rest[0] == orig[j as int]);
            assert(deep_view_entries(rest)[0] == (orig[j as int].0.deep_view(),
            orig[j as int].1.deep_view()));
        }
        let c = key.cmp(&entries[j].0);
        match c {
            core::cmp::Ordering::Less => {
                // The new key lies below this entry: it is inserted here.
                entries.insert(j, (key, value));
                proof {
                    assert(deep_view_entries(rest).drop_first() =~= deep_view_entries(
                        rest.drop_first(),
                    ));
                    assert(deep_view_entries(entries@) =~= deep_view_entries(orig.take(j as int))
                        + (seq![(km, vm)] + deep_view_entries(rest)));
                }
                return ;
            },
            core::cmp::Ordering::Equal => {
                // An equivalent key exists: its value is overwritten, the
                // key on file stays.
                let pair = entries.remove(j);
                let kept = pair.0;
                entries.insert(j, (kept, value));
                proof {
                    assert(deep_view_entries(rest).drop_first() =~= deep_view_entries(
                        rest.drop_first(),
                    ));
                    assert(deep_view_entries(entries@) =~= deep_view_entries(orig.take(j as int))
                        + (seq![(orig[j as int].0.deep_view(), vm)] + deep_view_entries(
                        rest.drop_first(),
                    )));
                }
                return ;
            },
            core::cmp::Ordering::Greater => {
                proof {
                    assert(deep_view_entries(rest).drop_first() =~= deep_view_entries(
                        rest.drop_first(),
                    ));
                    assert(rest.drop_first() =~= orig.skip(j as int + 1));
                    assert(orig.take(j as int).push(orig[j as int]) =~= orig.take(j as int + 1));
                    assert(deep_view_entries(orig.take(j as int)) + seq![
                        deep_view_entries(rest)[0],
                    ] =~= deep_view_entries(orig.take(j as int + 1)));
                    assert(deep_view_entries(orig.take(j as int)) + (seq![
                        deep_view_entries(rest)[0],
                    ] + spec_dict_insert(deep_view_entries(orig.skip(j as int + 1)), km, vm))
                        =~= deep_view_entries(orig.take(j as int + 1)) + spec_dict_insert(
                        deep_view_entries(orig.skip(j as int + 1)),
                        km,
                        vm,
                    ));
                }
                j = j + 1;
            },
        }
    }
}

/// Builds a dictionary's entry vector from decoded (value, key) wire
/// pairs, as [`spec_dict_fold`] describes.
pub fn build_dict(pairs: Vec<(EVEValue, EVEValue)>) -> (r: Result<
    Vec<(HashableEVEValue, EVEValue)>,
    DecodeError,
>)
    ensures
        match r {
            Ok(es) => spec_dict_fold(deep_view_pairs(pairs@), Seq::empty()) == Ok::<
                _,
                DecodeError,
            >(deep_view_entries(es@)),
            Err(e) => spec_dict_fold(deep_view_pairs(pairs@), Seq::empty()) == Err::<
                Seq<(KeyModel, ValueModel)>,
                _,
            >(e),
        },
{
    let ghost orig = pairs@;
    let mut rest = pairs;
    let mut entries: Vec<(HashableEVEValue, EVEValue)> = Vec::new();
    proof {
        assert(deep_view_entries(entries@) =~= Seq::<(KeyModel, ValueModel)>::empty());
    }
    loop
        invariant
            spec_dict_fold(deep_view_pairs(orig), Seq::empty()) == spec_dict_fold(
                deep_view_pairs(rest@),
                deep_view_entries(entries@),
            ),
            orig == pairs@,
        decreases rest@.len(),
    {
        if rest.len() == 0 {
            return Ok(entries);
        }
        let ghost before = rest@;
        let (value, raw_key) = rest.remove(0);
        proof {
            assert(deep_view_pairs(before)[0] == (value.deep_view(), raw_key.deep_view()));
            assert(deep_view_pairs(before).drop_first() =~= deep_view_pairs(rest@));
        }
        match crate::value::convert(raw_key) {
            Ok(key) => {
                dict_insert(&mut entries, key, value);
            },
            Err(_) => {
                return Err(DecodeError::UnhashableKey);
            },
        }
    }
}


/// Strict ascending key order over an entry sequence: each key lies below
/// every later one, so keys are pairwise distinct under the order.
pub open spec fn entries_sorted(es: Seq<(KeyModel, ValueModel)>) -> bool {
    forall|i: int, j: int|
        0 <= i < j < es.len() ==> key_cmp(#[trigger] es[i].0, #[trigger] es[j].0) < 0
}

/// Whether no key of an entry sequence holds a NaN bit pattern.
pub open spec fn entries_nan_free(es: Seq<(KeyModel, ValueModel)>) -> bool {
    forall|i: int| 0 <= i < es.len() ==> !crate::order::key_is_nan(#[trigger] es[i].0)
}

/// The dictionary invariant is preserved by insertion: into a strictly
/// sorted entry sequence free of NaN keys, inserting a non-NaN key yields
/// a strictly sorted, NaN-free sequence again — keys stay unique and
/// ordered, as the data model demands.
pub proof fn lemma_dict_insert_preserves_order(
    es: Seq<(KeyModel, ValueModel)>,
    k: KeyModel,
    v: ValueModel,
)
    requires
        entries_sorted(es),
        entries_nan_free(es),
        !crate::order::key_is_nan(k),
    ensures
        entries_sorted(spec_dict_insert(es, k, v)),
        entries_nan_free(spec_dict_insert(es, k, v)),
    decreases es.len(),
{
    if es.len() == 0 {
    } else {
        let c = key_cmp(k, es[0].0);
        let r = spec_dict_insert(es, k, v);
        if c < 0 {
            assert forall|i: int, j: int| 0 <= i < j < r.len() implies key_cmp(
                #[trigger] r[i].0,
                #[trigger] r[j].0,
            ) < 0 by {
                if i == 0 && j > 1 {
                    crate::order::lemma_key_cmp_transitive(k, es[0].0, es[j - 1].0);
                }
            }
        } else if c == 0 {
            assert forall|i: int, j: int| 0 <= i < j < r.len() implies key_cmp(
                #[trigger] r[i].0,
                #[trigger] r[j].0,
            ) < 0 by {
                assert(r[i].0 == es[i].0);
                assert(r[j].0 == es[j].0);
            }
            assert forall|i: int| 0 <= i < r.len() implies !crate::order::key_is_nan(
                #[trigger] r[i].0,
            ) by {
                assert(r[i].0 == es[i].0);
            }
        } else {
            let rest = spec_dict_insert(es.drop_first(), k, v);
            lemma_dict_insert_preserves_order(es.drop_first(), k, v);
            lemma_dict_insert_key_set(es.drop_first(), k, v);
            assert forall|i: int, j: int| 0 <= i < j < r.len() implies key_cmp(
                #[trigger] r[i].0,
                #[trigger] r[j].0,
            ) < 0 by {
                if i == 0 {
                    // The head lies below the new key and below every old
                    // key of the tail, so below every key of the result.
                    assert(r[j].0 == rest[j - 1].0);
                    if rest[j - 1].0 == k {
                        crate::order::lemma_key_cmp_antisymmetric(k, es[0].0);
                    } else {
                        let m = choose|m: int|
                            0 <= m < es.drop_first().len() && es.drop_first()[m].0 == rest[j
                                - 1].0;
                        assert(key_cmp(es[0].0, es[m + 1].0) < 0);
                    }
                } else {
                    assert(r[i].0 == rest[i - 1].0);
                    assert(r[j].0 == rest[j - 1].0);
                }
            }
        }
    }
}

/// Every key of an insertion's result is the inserted key or one already
/// present.
proof fn lemma_dict_insert_key_set(es: Seq<(KeyModel, ValueModel)>, k: KeyModel, v: ValueModel)
    ensures
        forall|i: int|
            0 <= i < spec_dict_insert(es, k, v).len() ==> (#[trigger] spec_dict_insert(
                es,
                k,
                v,
            )[i].0 == k || exists|j: int| 0 <= j < es.len() && es[j].0 == spec_dict_insert(
                es,
                k,
                v,
            )[i].0),
    decreases es.len(),
{
    if es.len() == 0 {
    } else {
        let c = key_cmp(k, es[0].0);
        let r = spec_dict_insert(es, k, v);
        if c > 0 {
            lemma_dict_insert_key_set(es.drop_first(), k, v);
            assert forall|i: int| 0 <= i < r.len() implies (#[trigger] r[i].0 == k || exists|
                j: int,
            | 0 <= j < es.len() && es[j].0 == r[i].0) by {
                if i > 0 {
                    let rest = spec_dict_insert(es.drop_first(), k, v);
                    assert(r[i].0 == rest[i - 1].0);
                    if rest[i - 1].0 != k {
                        let j = choose|j: int|
                            0 <= j < es.drop_first().len() && es.drop_first()[j].0 == rest[i
                                - 1].0;
                        assert(es[j + 1].0 == r[i].0);
                    }
                } else {
                    assert(es[0].0 == r[0].0);
                }
            }
        } else if c == 0 {
            assert forall|i: int| 0 <= i < r.len() implies (#[trigger] r[i].0 == k || exists|
                j: int,
            | 0 <= j < es.len() && es[j].0 == r[i].0) by {
                if i == 0 {
                    assert(es[0].0 == r[0].0);
                } else {
                    assert(es[i].0 == r[i].0);
                }
            }
        } else {
            assert forall|i: int| 0 <= i < r.len() implies (#[trigger] r[i].0 == k || exists|
                j: int,
            | 0 <= j < es.len() && es[j].0 == r[i].0) by {
                if i > 0 {
                    assert(es[i - 1].0 == r[i].0);
                }
            }
        }
    }
}


/// The dictionary invariant holds of every dictionary folded from wire
/// pairs whose keys are free of NaN bit patterns: its entries are strictly
/// sorted, so keys are unique and ordered.  A NaN key compares "less" even
/// against itself and admits no order at all.
pub proof fn lemma_dict_fold_sorted(
    pairs: Seq<(ValueModel, ValueModel)>,
    acc: Seq<(KeyModel, ValueModel)>,
)
    requires
        entries_sorted(acc),
        entries_nan_free(acc),
        forall|i: int|
            0 <= i < pairs.len() ==> (match spec_convert(#[trigger] pairs[i].1) {
                Some(k) => !crate::order::key_is_nan(k),
                None => true,
            }),
    ensures
        spec_dict_fold(pairs, acc) matches Ok(es) ==> entries_sorted(es) && entries_nan_free(es),
    decreases pairs.len(),
{
    if pairs.len() != 0 {
        match spec_convert(pairs[0].1) {
            Some(k) => {
                lemma_dict_insert_preserves_order(acc, k, pairs[0].0);
                assert forall|i: int| 0 <= i < pairs.drop_first().len() implies (match spec_convert(
                    #[trigger] pairs.drop_first()[i].1,
                ) {
                    Some(k2) => !crate::order::key_is_nan(k2),
                    None => true,
                }) by {
                    assert(pairs.drop_first()[i] == pairs[i + 1]);
                }
                lemma_dict_fold_sorted(pairs.drop_first(), spec_dict_insert(acc, k, pairs[0].0));
            },
            None => {},
        }
    }
}

} // verus!

