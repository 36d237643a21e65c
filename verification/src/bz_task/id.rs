use vstd::prelude::*;

use crate::codec::push_char;

verus! {

/// The identity of one task: unique for the life of the process,
/// monotonically increasing, never reused. Registry iteration order is the
/// order of these values, which is the order the tasks were created in.
#[derive(Debug, Clone, Copy, PartialEq, Eq, Structural, Hash)]
pub struct BzTaskId(pub u64);

/// The counter behind [`BzTaskId::unique`]. There is exactly one per
/// application state; handing it out only by exclusive borrow is what makes
/// the ids unique even when several components create tasks.
pub struct TaskIdGen {
    /// The id the next call of [`BzTaskId::unique`] returns.
    pub next: u64,
}

impl TaskIdGen {
    /// A fresh counter; the first id handed out is 1.
    pub fn new() -> (r: TaskIdGen)
        ensures
            r.next == 1,
    {
        TaskIdGen { next: 1 }
    }
}

impl BzTaskId {
    /// Creates a new unique task id: the counter's current value, after which
    /// the counter moves past it forever.
    pub fn unique(ids: &mut TaskIdGen) -> (r: BzTaskId)
        requires
            old(ids).next < u64::MAX,
        ensures
            r.0 == old(ids).next,
            final(ids).next == old(ids).next + 1,
    {
        let id = BzTaskId(ids.next);
        ids.next = ids.next + 1;
        id
    }
}

/// The decimal digit of one value below ten.
pub open spec fn digit_char(d: nat) -> char {
    if d == 0 {
        '0'
    } else if d == 1 {
        '1'
    } else if d == 2 {
        '2'
    } else if d == 3 {
        '3'
    } else if d == 4 {
        '4'
    } else if d == 5 {
        '5'
    } else if d == 6 {
        '6'
    } else if d == 7 {
        '7'
    } else if d == 8 {
        '8'
    } else {
        '9'
    }
}

/// The decimal text of a number, most significant digit first.
pub open spec fn decimal_digits(n: nat) -> Seq<char>
    decreases n,
{
    if n < 10 {
        seq![digit_char(n)]
    } else {
        decimal_digits(n / 10).push(digit_char(n % 10))
    }
}

/// Renders a number as its decimal text.
pub fn u64_to_string(n: u64) -> (r: String)
    ensures
        r@ == decimal_digits(n as nat),
    decreases n,
{
    let d = n % 10;
    let c: char = if d == 0 {
        '0'
    } else if d == 1 {
        '1'
    } else if d == 2 {
        '2'
    } else if d == 3 {
        '3'
    } else if d == 4 {
        '4'
    } else if d == 5 {
        '5'
    } else if d == 6 {
        '6'
    } else if d == 7 {
        '7'
    } else if d == 8 {
        '8'
    } else {
        '9'
    };
    if n < 10 {
        let mut s = String::new();
        push_char(&mut s, c);
        proof {
            assert(Seq::<char>::empty().push(c) =~= seq![digit_char(n as nat)]);
        }
        s
    } else {
        let mut s = u64_to_string(n / 10);
        push_char(&mut s, c);
        s
    }
}

impl BzTaskId {
    /// The id as text, for reports and logs.
    pub fn describe(&self) -> (r: String)
        ensures
            r@ == decimal_digits(self.0 as nat),
    {
        u64_to_string(self.0)
    }
}

/// Law: across any sequence of calls of [`BzTaskId::unique`] the returned ids
/// are strictly increasing, and no two calls ever return the same id. Each
/// call returns the counter's value and steps the counter by one, so the
/// `k`-th id of a run that started at `start` is `start + k`; this lemma
/// states what follows for the whole run. Concurrent callers go through the
/// same exclusive borrow of the one counter, so their calls form such a
/// sequence as well.
pub proof fn lemma_unique_ids_strictly_increasing(start: u64, ids: Seq<u64>)
    requires
        forall|k: int| 0 <= k < ids.len() ==> ids[k] as int == start as int + k,
    ensures
        forall|i: int, j: int| 0 <= i < j < ids.len() ==> ids[i] < ids[j],
        forall|i: int, j: int| 0 <= i < j < ids.len() ==> ids[i] != ids[j],
{
}

} // verus!
