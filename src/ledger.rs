use vstd::prelude::*;

use crate::model::{Component, Ledger, Package};

verus! {

/// The index of the first package stored under `a`, if any.
pub open spec fn package_index(l: Ledger, a: u64) -> Option<int> {
    if exists|i: int| 0 <= i < l.packages@.len() && #[trigger] l.packages@[i].address == a {
        Some(
            choose|i: int|
                0 <= i < l.packages@.len() && #[trigger] l.packages@[i].address == a && forall|j: int|
                    0 <= j < i ==> l.packages@[j].address != a,
        )
    } else {
        None
    }
}

/// The index of the first component stored under `a`, if any.
pub open spec fn component_index(l: Ledger, a: u64) -> Option<int> {
    if exists|i: int| 0 <= i < l.components@.len() && #[trigger] l.components@[i].address == a {
        Some(
            choose|i: int|
                0 <= i < l.components@.len() && #[trigger] l.components@[i].address == a
                    && forall|j: int| 0 <= j < i ==> l.components@[j].address != a,
        )
    } else {
        None
    }
}

/// Looks up the package stored under `a`.
pub fn get_package(l: &Ledger, a: u64) -> (r: Option<&Package>)
    ensures
        match package_index(*l, a) {
            Some(i) => r == Some(&l.packages@[i]),
            None => r.is_none(),
        },
{
    let mut i: usize = 0;
    while i < l.packages.len()
        invariant
            i <= l.packages@.len(),
            forall|j: int| 0 <= j < i ==> l.packages@[j].address != a,
        decreases l.packages@.len() - i,
    {
        if l.packages[i].address == a {
            proof {
                let k = choose|k: int|
                    0 <= k < l.packages@.len() && #[trigger] l.packages@[k].address == a
                        && forall|j: int| 0 <= j < k ==> l.packages@[j].address != a;
                assert(k == i) by {
                    if k < i {
                    } else if k > i {
                        assert(l.packages@[i as int].address == a);
                    }
                }
            }
            return Some(&l.packages[i]);
        }
        i = i + 1;
    }
    None
}

/// Looks up the component stored under `a`.
pub fn get_component(l: &Ledger, a: u64) -> (r: Option<&Component>)
    ensures
        match component_index(*l, a) {
            Some(i) => r == Some(&l.components@[i]),
            None => r.is_none(),
        },
{
    let mut i: usize = 0;
    while i < l.components.len()
        invariant
            i <= l.components@.len(),
            forall|j: int| 0 <= j < i ==> l.components@[j].address != a,
        decreases l.components@.len() - i,
    {
        if l.components[i].address == a {
            proof {
                let k = choose|k: int|
                    0 <= k < l.components@.len() && #[trigger] l.components@[k].address == a
                        && forall|j: int| 0 <= j < k ==> l.components@[j].address != a;
                assert(k == i) by {
                    if k < i {
                    } else if k > i {
                        assert(l.components@[i as int].address == a);
                    }
                }
            }
            return Some(&l.components[i]);
        }
        i = i + 1;
    }
    None
}

/// The size of the code stored under `a`; 0 where no package is stored there.
pub open spec fn code_size(l: Ledger, a: u64) -> nat {
    match package_index(l, a) {
        Some(i) => l.packages@[i].code@.len(),
        None => 0,
    }
}

/// The code size of the package under `a`. An absent package and an empty
/// one are both reported as not found.
pub fn dump_package(l: &Ledger, a: u64) -> (r: Option<usize>)
    ensures
        code_size(*l, a) > 0 ==> (r matches Some(b) && b == code_size(*l, a)),
        code_size(*l, a) == 0 ==> r.is_none(),
{
    match get_package(l, a) {
        Some(p) => {
            if p.code.len() > 0 {
                Some(p.code.len())
            } else {
                None
            }
        },
        None => None,
    }
}

} // verus!
