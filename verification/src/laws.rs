use vstd::prelude::*;

use crate::list::LinkedList;

verus! {

/// One operation on a list, used to state laws about whole operation
/// histories: appending a value at the tail, or popping from the head.
pub enum ListOp<T> {
    Append(T),
    Pop,
}

/// The abstract value of a list after running `ops` on a list whose abstract
/// value is `s`, stepping exactly as the contracts of `LinkedList::append`
/// and `LinkedList::pop` describe: an append pushes at the back, a pop drops
/// the front of a non-empty list and leaves an empty list unchanged.
pub open spec fn run<T>(s: Seq<T>, ops: Seq<ListOp<T>>) -> Seq<T>
    decreases ops.len(),
{
    if ops.len() == 0 {
        s
    } else {
        let s1 = match ops.first() {
            ListOp::Append(v) => s.push(v),
            ListOp::Pop => if s.len() == 0 {
                s
            } else {
                s.drop_first()
            },
        };
        run(s1, ops.drop_first())
    }
}

/// The values that `ops` appends, in order.
pub open spec fn appended<T>(ops: Seq<ListOp<T>>) -> Seq<T>
    decreases ops.len(),
{
    if ops.len() == 0 {
        Seq::empty()
    } else {
        match ops.first() {
            ListOp::Append(v) => seq![v] + appended(ops.drop_first()),
            ListOp::Pop => appended(ops.drop_first()),
        }
    }
}

/// How many pops in `ops` find a non-empty list, running from abstract
/// value `s`.
pub open spec fn pops_taken<T>(s: Seq<T>, ops: Seq<ListOp<T>>) -> nat
    decreases ops.len(),
{
    if ops.len() == 0 {
        0
    } else {
        match ops.first() {
            ListOp::Append(v) => pops_taken(s.push(v), ops.drop_first()),
            ListOp::Pop => if s.len() == 0 {
                pops_taken(s, ops.drop_first())
            } else {
                1 + pops_taken(s.drop_first(), ops.drop_first())
            },
        }
    }
}

/// A history of `vals.len()` appends, appending the values of `vals` in
/// order and popping nothing.
pub open spec fn appends_of<T>(vals: Seq<T>) -> Seq<ListOp<T>>
    decreases vals.len(),
{
    if vals.len() == 0 {
        Seq::empty()
    } else {
        seq![ListOp::Append(vals.first())] + appends_of(vals.drop_first())
    }
}

/// A history of `n` pops.
pub open spec fn pops_of<T>(n: nat) -> Seq<ListOp<T>>
    decreases n,
{
    if n == 0 {
        Seq::empty()
    } else {
        seq![ListOp::<T>::Pop] + pops_of::<T>((n - 1) as nat)
    }
}

/// Running any history leaves exactly the values pushed so far that have
/// not been popped, oldest first: starting from `s` (the values still
/// pending), the result is the pending values plus everything appended,
/// minus a front segment of one value per effective pop.
pub proof fn lemma_run_pending<T>(s: Seq<T>, ops: Seq<ListOp<T>>)
    ensures
        run(s, ops) == (s + appended(ops)).skip(pops_taken(s, ops) as int),
        pops_taken(s, ops) <= s.len() + appended(ops).len(),
    decreases ops.len(),
{
    if ops.len() == 0 {
        assert((s + appended(ops)).skip(pops_taken(s, ops) as int) =~= s);
    } else {
        match ops.first() {
            ListOp::Append(v) => {
                lemma_run_pending(s.push(v), ops.drop_first());
                assert(s + appended(ops) =~= s.push(v) + appended(ops.drop_first()));
            },
            ListOp::Pop => {
                if s.len() == 0 {
                    lemma_run_pending(s, ops.drop_first());
                    assert(s + appended(ops) =~= s + appended(ops.drop_first()));
                } else {
                    lemma_run_pending(s.drop_first(), ops.drop_first());
                    let k = pops_taken(s.drop_first(), ops.drop_first()) as int;
                    assert((s + appended(ops)).skip(k + 1) =~= (s.drop_first() + appended(
                        ops.drop_first(),
                    )).skip(k));
                }
            },
        }
    }
}

/// A history of appends alone pushes exactly its values, in order, and
/// pops nothing.
pub proof fn lemma_appends_of<T>(s: Seq<T>, vals: Seq<T>)
    ensures
        appended(appends_of(vals)) == vals,
        pops_taken(s, appends_of(vals)) == 0,
        run(s, appends_of(vals)) == s + vals,
    decreases vals.len(),
{
    if vals.len() == 0 {
        assert(appended(appends_of(vals)) =~= vals);
        assert(run(s, appends_of(vals)) =~= s + vals);
    } else {
        let ops = appends_of(vals);
        assert(ops.first() == ListOp::Append(vals.first()));
        assert(ops.drop_first() =~= appends_of(vals.drop_first()));
        lemma_appends_of(s.push(vals.first()), vals.drop_first());
        assert(appended(ops) =~= vals);
        assert(s.push(vals.first()) + vals.drop_first() =~= s + vals);
    }
}

/// A history of `n` pops on a list of at least `n` values drops its first
/// `n` values.
pub proof fn lemma_run_pops<T>(s: Seq<T>, n: nat)
    requires
        n <= s.len(),
    ensures
        run(s, pops_of::<T>(n)) == s.skip(n as int),
    decreases n,
{
    if n == 0 {
        assert(s.skip(0) =~= s);
    } else {
        let ops = pops_of::<T>(n);
        assert(ops.first() == ListOp::<T>::Pop);
        assert(ops.drop_first() =~= pops_of::<T>((n - 1) as nat));
        lemma_run_pops(s.drop_first(), (n - 1) as nat);
        assert(s.drop_first().skip(n - 1) =~= s.skip(n as int));
    }
}

/// Appending N values to a fresh list yields exactly those values — so the
/// length is N — and after `i` further pops the front of the list, which is
/// the value the next pop returns, is the `i`-th appended value: first in,
/// first out.
pub proof fn lemma_fifo<T>(vals: Seq<T>, i: int)
    requires
        0 <= i < vals.len(),
    ensures
        run(Seq::<T>::empty(), appends_of(vals)) == vals,
        run(vals, pops_of::<T>(i as nat)) == vals.skip(i),
        run(vals, pops_of::<T>(i as nat)).first() == vals[i],
{
    lemma_appends_of(Seq::<T>::empty(), vals);
    assert(Seq::<T>::empty() + vals =~= vals);
    lemma_run_pops(vals, i as nat);
    assert(vals.skip(i).first() == vals[i]);
}

/// Arbitrary interleavings of appends and pops keep the invariant that the
/// list holds exactly the not-yet-popped appended values in append order;
/// in particular, whenever the list is non-empty its front equals the
/// earliest appended value not yet popped.
pub proof fn lemma_interleaving<T>(ops: Seq<ListOp<T>>)
    ensures
        run(Seq::<T>::empty(), ops) == appended(ops).skip(
            pops_taken(Seq::<T>::empty(), ops) as int,
        ),
        pops_taken(Seq::<T>::empty(), ops) <= appended(ops).len(),
        run(Seq::<T>::empty(), ops).len() > 0 ==> run(Seq::<T>::empty(), ops).first() == appended(
            ops,
        )[pops_taken(Seq::<T>::empty(), ops) as int],
{
    lemma_run_pending(Seq::<T>::empty(), ops);
    assert(Seq::<T>::empty() + appended(ops) =~= appended(ops));
}

/// A well-formed list with no elements has absent head, absent tail and
/// length 0: the state reached after popping everything is structurally the
/// state of a fresh list.
pub proof fn lemma_empty_structure<T>(list: LinkedList<T>)
    requires
        list.wf(),
        list@.len() == 0,
    ensures
        list.head is None,
        list.tail is None,
        list.length == 0,
{
}

/// Popping every element leaves the empty abstract value, so any further
/// operations — an append in particular — behave exactly as on a freshly
/// constructed list.
pub proof fn lemma_drained_like_fresh<T>(vals: Seq<T>, ops: Seq<ListOp<T>>)
    ensures
        run(vals, pops_of::<T>(vals.len())) == Seq::<T>::empty(),
        run(run(vals, pops_of::<T>(vals.len())), ops) == run(Seq::<T>::empty(), ops),
{
    lemma_run_pops(vals, vals.len());
    assert(vals.skip(vals.len() as int) =~= Seq::<T>::empty());
}

} // verus!
