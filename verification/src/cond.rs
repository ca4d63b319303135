//! Conditional-write (compare-and-set) evaluation.
//!
//! A write may carry a list of conditions over the previous value of its
//! key. The first failing condition aborts the whole request with
//! `CasFailed`; a tombstone counts as "not exists".

use vstd::prelude::*;

use crate::bytes::bytes_eq;
use crate::value::{Value, ValueView};

verus! {

/// Mathematical image of a [`WriteCondition`].
pub enum WriteConditionView {
    ExpectExists,
    ExpectNotExists,
    ExpectValue(Seq<u8>),
    ExpectVersionLt(u64),
    ExpectVersionLe(u64),
    ExpectVersionEq(u64),
    ExpectStartsWith(Seq<u8>),
}

/// One condition over the previous value of a key.
#[derive(Debug, Clone, PartialEq, Eq)]
pub enum WriteCondition {
    /// The key must hold a live (non-tombstone) value.
    ExpectExists,
    /// The key must hold no live value.
    ExpectNotExists,
    /// The key must hold exactly these bytes.
    ExpectValue(Vec<u8>),
    /// The latest version of the key must be below the bound.
    ExpectVersionLt(u64),
    /// The latest version of the key must not exceed the bound.
    ExpectVersionLe(u64),
    /// The latest version of the key must equal the bound.
    ExpectVersionEq(u64),
    /// The held value must start with these bytes.
    ExpectStartsWith(Vec<u8>),
}

impl View for WriteCondition {
    type V = WriteConditionView;

    open spec fn view(&self) -> WriteConditionView {
        match self {
            WriteCondition::ExpectExists => WriteConditionView::ExpectExists,
            WriteCondition::ExpectNotExists => WriteConditionView::ExpectNotExists,
            WriteCondition::ExpectValue(v) => WriteConditionView::ExpectValue(v@),
            WriteCondition::ExpectVersionLt(x) => WriteConditionView::ExpectVersionLt(*x),
            WriteCondition::ExpectVersionLe(x) => WriteConditionView::ExpectVersionLe(*x),
            WriteCondition::ExpectVersionEq(x) => WriteConditionView::ExpectVersionEq(*x),
            WriteCondition::ExpectStartsWith(v) => WriteConditionView::ExpectStartsWith(v@),
        }
    }
}

/// View of the optional previous value handed to condition evaluation.
pub open spec fn spec_opt_value_view(o: Option<Value>) -> Option<ValueView> {
    match o {
        Some(v) => Some(v@),
        None => None,
    }
}

/// Whether `prev` holds a live (non-tombstone) value.
pub open spec fn spec_exists_value(prev: Option<ValueView>) -> bool {
    match prev {
        Some(v) => v.content is Some,
        None => false,
    }
}

/// Whether one condition holds of the previous value.
///
/// `ExpectExists` fails exactly when `prev` is absent or a tombstone;
/// `ExpectNotExists` fails exactly when a live value is present. Version
/// bounds compare against the latest record's version and fail when the
/// key was never written.
pub open spec fn spec_cond_holds(prev: Option<ValueView>, c: WriteConditionView) -> bool {
    match c {
        WriteConditionView::ExpectExists => spec_exists_value(prev),
        WriteConditionView::ExpectNotExists => !spec_exists_value(prev),
        WriteConditionView::ExpectValue(b) => prev matches Some(v) && v.content == Some(b),
        WriteConditionView::ExpectVersionLt(x) => prev matches Some(v) && v.version < x,
        WriteConditionView::ExpectVersionLe(x) => prev matches Some(v) && v.version <= x,
        WriteConditionView::ExpectVersionEq(x) => prev matches Some(v) && v.version == x,
        WriteConditionView::ExpectStartsWith(p) => prev matches Some(v) && (v.content matches Some(
            b,
        ) && p.len() <= b.len() && b.subrange(0, p.len() as int) == p),
    }
}

/// Index of the first failing condition, if any.
pub open spec fn spec_first_failed(prev: Option<ValueView>, conds: Seq<WriteConditionView>) -> Option<
    int,
>
    decreases conds.len(),
{
    if conds.len() == 0 {
        None
    } else if !spec_cond_holds(prev, conds[0]) {
        Some(0)
    } else {
        match spec_first_failed(prev, conds.drop_first()) {
            Some(i) => Some(i + 1),
            None => None,
        }
    }
}

/// Where every condition before `i` holds and `i` (if in range) fails, the
/// first failing index is `i`; past the end, none fails.
pub proof fn lemma_first_failed_at(prev: Option<ValueView>, conds: Seq<WriteConditionView>, i: int)
    requires
        0 <= i <= conds.len(),
        forall|j: int| 0 <= j < i ==> spec_cond_holds(prev, conds[j]),
        i < conds.len() ==> !spec_cond_holds(prev, conds[i]),
    ensures
        i < conds.len() ==> spec_first_failed(prev, conds) == Some(i),
        i == conds.len() ==> spec_first_failed(prev, conds) is None,
    decreases i,
{
    if conds.len() == 0 {
    } else if i == 0 {
    } else {
        assert(spec_cond_holds(prev, conds[0]));
        let d = conds.drop_first();
        assert(forall|j: int| 0 <= j < i - 1 ==> spec_cond_holds(prev, d[j]));
        lemma_first_failed_at(prev, d, i - 1);
    }
}

/// Whether `b` starts with `p`, settled element by element.
fn starts_with(b: &Vec<u8>, p: &Vec<u8>) -> (r: bool)
    ensures
        r == (p@.len() <= b@.len() && b@.subrange(0, p@.len() as int) == p@),
{
    let pn = p.len();
    if pn > b.len() {
        return false;
    }
    let mut i: usize = 0;
    while i < pn
        invariant
            i <= pn,
            pn == p@.len(),
            pn <= b@.len(),
            forall|j: int| 0 <= j < i ==> b@[j] == p@[j],
        decreases pn - i,
    {
        if b[i] != p[i] {
            assert(b@.subrange(0, pn as int)[i as int] != p@[i as int]);
            return false;
        }
        i = i + 1;
    }
    assert(b@.subrange(0, pn as int) =~= p@);
    true
}

/// Whether one condition holds of the previous value.
fn check_cond(prev_value: Option<&Value>, cond: &WriteCondition) -> (r: bool)
    ensures
        r == spec_cond_holds(
            match prev_value {
                Some(v) => Some(v@),
                None => None,
            },
            cond@,
        ),
{
    match cond {
        WriteCondition::ExpectExists => match prev_value {
            Some(v) => v.content.is_some(),
            None => false,
        },
        WriteCondition::ExpectNotExists => match prev_value {
            Some(v) => !v.content.is_some(),
            None => true,
        },
        WriteCondition::ExpectValue(b) => match prev_value {
            Some(v) => match &v.content {
                Some(c) => bytes_eq(c, b),
                None => false,
            },
            None => false,
        },
        WriteCondition::ExpectVersionLt(x) => match prev_value {
            Some(v) => v.version < *x,
            None => false,
        },
        WriteCondition::ExpectVersionLe(x) => match prev_value {
            Some(v) => v.version <= *x,
            None => false,
        },
        WriteCondition::ExpectVersionEq(x) => match prev_value {
            Some(v) => v.version == *x,
            None => false,
        },
        WriteCondition::ExpectStartsWith(p) => match prev_value {
            Some(v) => match &v.content {
                Some(c) => starts_with(c, p),
                None => false,
            },
            None => false,
        },
    }
}

/// Evaluates all conditions against the previous value; returns the index
/// of the first failing condition, or `None` when every condition holds.
pub fn eval_conditions(prev_value: Option<&Value>, conds: &Vec<WriteCondition>) -> (r: Option<
    usize,
>)
    ensures
        ({
            let pv = match prev_value {
                Some(v) => Some(v@),
                None => None::<ValueView>,
            };
            let cs = conds@.map_values(|c: WriteCondition| c@);
            match r {
                Some(i) => spec_first_failed(pv, cs) == Some(i as int),
                None => spec_first_failed(pv, cs) is None,
            }
        }),
{
    let ghost pv = match prev_value {
        Some(v) => Some(v@),
        None => None::<ValueView>,
    };
    let ghost cs = conds@.map_values(|c: WriteCondition| c@);
    let n = conds.len();
    let mut i: usize = 0;
    while i < n
        invariant
            i <= n,
            n == conds@.len(),
            cs == conds@.map_values(|c: WriteCondition| c@),
            pv == (match prev_value {
                Some(v) => Some(v@),
                None => None::<ValueView>,
            }),
            forall|j: int| 0 <= j < i ==> spec_cond_holds(pv, cs[j]),
        decreases n - i,
    {
        if !check_cond(prev_value, &conds[i]) {
            proof {
                lemma_first_failed_at(pv, cs, i as int);
            }
            return Some(i);
        }
        i = i + 1;
    }
    proof {
        lemma_first_failed_at(pv, cs, n as int);
    }
    None
}

} // verus!
