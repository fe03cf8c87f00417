//! Pairs every element of a vector with its position.

use vstd::prelude::*;

verus! {

/// The elements of `items`, each paired with its index, in order.
pub fn enumerate<T>(items: Vec<T>) -> (r: Vec<(usize, T)>)
    ensures
        r@.len() == items@.len(),
        forall|i: int|
            0 <= i < items@.len() ==> (#[trigger] r@[i]).0 == i && r@[i].1 == items@[i],
{
    let ghost orig = items@;
    let mut items = items;
    let mut stack: Vec<T> = Vec::new();
    while items.len() > 0
        invariant
            stack@.len() + items@.len() == orig.len(),
            items@ == orig.subrange(0, items@.len() as int),
            forall|k: int|
                0 <= k < stack@.len() ==> #[trigger] stack@[k] == orig[orig.len() - 1 - k],
        decreases items@.len(),
    {
        let ghost pre = items@;
        let x = match items.pop() {
            Some(x) => x,
            None => {
                proof {
                    assert(false);
                }
                unreached()
            },
        };
        stack.push(x);
        proof {
            assert(items@ =~= orig.subrange(0, items@.len() as int));
        }
    }
    let mut r: Vec<(usize, T)> = Vec::new();
    while stack.len() > 0
        invariant
            r@.len() + stack@.len() == orig.len(),
            forall|k: int|
                0 <= k < r@.len() ==> (#[trigger] r@[k]).0 == k && r@[k].1 == orig[k],
            forall|k: int|
                0 <= k < stack@.len() ==> #[trigger] stack@[k] == orig[orig.len() - 1 - k],
        decreases stack@.len(),
    {
        let x = match stack.pop() {
            Some(x) => x,
            None => {
                proof {
                    assert(false);
                }
                unreached()
            },
        };
        let idx = r.len();
        r.push((idx, x));
    }
    r
}

} // verus!
