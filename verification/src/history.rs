//! Fixed-length usage histories: the oldest sample drops out as a new one comes in.
use vstd::prelude::*;

verus! {

/// The history after `v` is recorded: every sample moves one place towards the
/// front, the oldest leaves, and `v` takes the last place.
pub open spec fn recorded<T>(h: Seq<T>, v: T) -> Seq<T> {
    h.drop_first().push(v)
}

/// Records `v` in the history `h`, keeping its length (`rotate_left(1)`, then the
/// last slot set to `v`).
pub fn push_history<T: Copy>(h: &mut Vec<T>, v: T)
    requires
        old(h).len() > 0,
    ensures
        final(h)@ == recorded(old(h)@, v),
{
    let n = h.len();
    let ghost h0 = h@;
    let mut i: usize = 0;
    while i + 1 < n
        invariant
            n == h.len() == h0.len(),
            n > 0,
            i < n,
            forall|k: int| 0 <= k < i ==> h@[k] == h0[k + 1],
            forall|k: int| i <= k < n ==> h@[k] == h0[k],
        decreases n - i,
    {
        let x = h[i + 1];
        h.set(i, x);
        i = i + 1;
    }
    h.set(n - 1, v);
    assert(h@ =~= recorded(h0, v));
}

/// The history after each of `vs` is recorded in turn.
pub open spec fn recorded_all<T>(h: Seq<T>, vs: Seq<T>) -> Seq<T>
    decreases vs.len(),
{
    if vs.len() == 0 {
        h
    } else {
        recorded(recorded_all(h, vs.drop_last()), vs.last())
    }
}

/// Law: a history keeps its length and holds the latest samples in the order
/// they came: after recording `vs` (no more of them than the history is long),
/// it is the old history without its `vs.len()` oldest samples, followed by `vs`.
pub proof fn lemma_history_window<T>(h: Seq<T>, vs: Seq<T>)
    requires
        vs.len() <= h.len(),
    ensures
        recorded_all(h, vs) == h.skip(vs.len() as int) + vs,
        recorded_all(h, vs).len() == h.len(),
    decreases vs.len(),
{
    if vs.len() > 0 {
        let k = vs.len() as int;
        lemma_history_window(h, vs.drop_last());
        let prev = h.skip(k - 1) + vs.drop_last();
        assert(prev.drop_first() =~= h.skip(k) + vs.drop_last());
        assert((h.skip(k) + vs.drop_last()).push(vs.last()) =~= h.skip(k) + vs);
    } else {
        assert(h.skip(0) + vs =~= h);
    }
}

} // verus!
