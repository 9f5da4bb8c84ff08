//! The bounded queues behind the wave animation: click pulses and the mouse
//! trail keep only their most recent entries.

use vstd::prelude::*;

verus! {

/// The most click pulses kept at once.
pub const MAX_PULSES: usize = 10;

/// The most trail points kept at once.
pub const TRAIL_MAX: usize = 16;

/// The queue after appending `item` and, when that makes it longer than `cap`,
/// dropping its oldest entry.
pub open spec fn pushed_capped<T>(queue: Seq<T>, item: T, cap: usize) -> Seq<T> {
    if queue.len() + 1 > cap {
        queue.push(item).drop_first()
    } else {
        queue.push(item)
    }
}

/// Appends `item`; when that makes the queue longer than `cap`, drops its oldest
/// entry. A queue of at most `cap` entries (`cap > 0`) stays so, and ends with
/// `item`.
pub fn push_capped<T>(queue: &mut Vec<T>, item: T, cap: usize)
    ensures
        final(queue)@ == pushed_capped(old(queue)@, item, cap),
        old(queue)@.len() <= cap && cap > 0 ==> final(queue)@.len() <= cap && final(queue)@.last() == item,
{
    queue.push(item);
    if queue.len() > cap {
        queue.remove(0);
    }
    assert(queue@ =~= pushed_capped(old(queue)@, item, cap));
}

/// A queue of at most `cap` entries keeps, after a push, the newest entries of
/// the queue followed by the item: all of them while they fit, else the last
/// `cap`, in their order.
pub proof fn capped_keeps_newest<T>(queue: Seq<T>, item: T, cap: usize)
    requires
        queue.len() <= cap,
        cap > 0,
    ensures
        pushed_capped(queue, item, cap).len() == if queue.len() + 1 > cap {
            cap as int
        } else {
            queue.len() + 1 as int
        },
        pushed_capped(queue, item, cap) == queue.push(item).subrange(
            queue.len() + 1 - pushed_capped(queue, item, cap).len(),
            queue.len() + 1 as int,
        ),
{
    let all = queue.push(item);
    assert(all.subrange(0, all.len() as int) =~= all);
    assert(all.drop_first() =~= all.subrange(1, all.len() as int));
}

} // verus!
