//! Order laws of the list, stated over its abstract contents.
//!
//! The mutators' contracts describe each operation through the spec
//! functions of `crate::list` (`spec_push_front`, `spec_pop_back`, ...).
//! The proof functions here relate those functions to one another: the two
//! ends behave as stacks taken alone, and as a queue taken together.

use vstd::prelude::*;

verus! {

use crate::list::spec_front;
use crate::list::spec_back;
use crate::list::spec_push_front;
use crate::list::spec_push_back;
use crate::list::spec_pop_front;
use crate::list::spec_pop_back;

/// Pushing the elements of `es` at the front, first to last, onto a list
/// whose contents are `s`.
pub open spec fn spec_push_all_front<T>(s: Seq<T>, es: Seq<T>) -> Seq<T>
    decreases es.len(),
{
    if es.len() == 0 {
        s
    } else {
        spec_push_all_front(spec_push_front(s, es[0]), es.drop_first())
    }
}

/// Pushing the elements of `es` at the back, first to last, onto a list
/// whose contents are `s`.
pub open spec fn spec_push_all_back<T>(s: Seq<T>, es: Seq<T>) -> Seq<T>
    decreases es.len(),
{
    if es.len() == 0 {
        s
    } else {
        spec_push_all_back(spec_push_back(s, es[0]), es.drop_first())
    }
}

/// The values observed by popping from the front until the list answers
/// "absent": the first element, then whatever draining the rest observes.
pub open spec fn spec_front_drain<T>(s: Seq<T>) -> Seq<T>
    decreases s.len(),
{
    if s.len() == 0 {
        Seq::empty()
    } else {
        seq![s[0]] + spec_front_drain(spec_pop_front(s))
    }
}

/// The values observed by popping from the back until the list answers
/// "absent".
pub open spec fn spec_back_drain<T>(s: Seq<T>) -> Seq<T>
    decreases s.len(),
{
    if s.len() == 0 {
        Seq::empty()
    } else {
        seq![s.last()] + spec_back_drain(spec_pop_back(s))
    }
}

/// The contents after `n` front pops.
pub open spec fn spec_pop_front_n<T>(s: Seq<T>, n: nat) -> Seq<T>
    decreases n,
{
    if n == 0 {
        s
    } else {
        spec_pop_front_n(spec_pop_front(s), (n - 1) as nat)
    }
}

/// Pushing a batch at the front lays it down reversed before what was there.
pub proof fn lemma_push_all_front<T>(s: Seq<T>, es: Seq<T>)
    ensures
        spec_push_all_front(s, es) == es.reverse() + s,
    decreases es.len(),
{
    if es.len() == 0 {
        assert(spec_push_all_front(s, es) =~= es.reverse() + s);
    } else {
        lemma_push_all_front(spec_push_front(s, es[0]), es.drop_first());
        assert(spec_push_all_front(s, es) =~= es.reverse() + s);
    }
}

/// Pushing a batch at the back appends it, in order, after what was there.
pub proof fn lemma_push_all_back<T>(s: Seq<T>, es: Seq<T>)
    ensures
        spec_push_all_back(s, es) == s + es,
    decreases es.len(),
{
    if es.len() == 0 {
        assert(spec_push_all_back(s, es) =~= s + es);
    } else {
        lemma_push_all_back(spec_push_back(s, es[0]), es.drop_first());
        assert(spec_push_all_back(s, es) =~= s + es);
    }
}

/// Draining a list from the front observes its contents front to back.
pub proof fn lemma_front_drain<T>(s: Seq<T>)
    ensures
        spec_front_drain(s) == s,
    decreases s.len(),
{
    if s.len() == 0 {
        assert(spec_front_drain(s) =~= s);
    } else {
        lemma_front_drain(s.drop_first());
        assert(spec_front_drain(s) =~= s);
    }
}

/// Draining a list from the back observes its contents back to front.
pub proof fn lemma_back_drain<T>(s: Seq<T>)
    ensures
        spec_back_drain(s) == s.reverse(),
    decreases s.len(),
{
    if s.len() == 0 {
        assert(spec_back_drain(s) =~= s.reverse());
    } else {
        lemma_back_drain(s.drop_last());
        assert(spec_back_drain(s) =~= s.reverse());
    }
}

/// The front of the list is a stack: after front pushes alone, front pops
/// observe the pushed values most recent first — the reverse of push order.
pub proof fn lemma_front_is_lifo<T>(es: Seq<T>)
    ensures
        spec_front_drain(spec_push_all_front(Seq::empty(), es)) == es.reverse(),
{
    lemma_push_all_front(Seq::<T>::empty(), es);
    lemma_front_drain(spec_push_all_front(Seq::<T>::empty(), es));
    assert(es.reverse() + Seq::<T>::empty() =~= es.reverse());
}

/// The back of the list is a stack: after back pushes alone, back pops
/// observe the pushed values most recent first — the reverse of push order.
pub proof fn lemma_back_is_lifo<T>(es: Seq<T>)
    ensures
        spec_back_drain(spec_push_all_back(Seq::empty(), es)) == es.reverse(),
{
    lemma_push_all_back(Seq::<T>::empty(), es);
    lemma_back_drain(spec_push_all_back(Seq::<T>::empty(), es));
    assert(Seq::<T>::empty() + es =~= es);
}

/// Pushing at the back while popping from the front is a queue: a back push
/// never changes which value the next front pop observes, and the two
/// operations commute on a non-empty list.
pub proof fn lemma_back_push_front_pop_commute<T>(s: Seq<T>, e: T)
    requires
        s.len() > 0,
    ensures
        spec_front(spec_push_back(s, e)) == spec_front(s),
        spec_pop_front(spec_push_back(s, e)) == spec_push_back(spec_pop_front(s), e),
{
    assert(spec_pop_front(spec_push_back(s, e)) =~= spec_push_back(spec_pop_front(s), e));
}

/// Pushing at the front while popping from the back is the mirror queue.
pub proof fn lemma_front_push_back_pop_commute<T>(s: Seq<T>, e: T)
    requires
        s.len() > 0,
    ensures
        spec_back(spec_push_front(s, e)) == spec_back(s),
        spec_pop_back(spec_push_front(s, e)) == spec_push_front(spec_pop_back(s), e),
{
    assert(spec_pop_back(spec_push_front(s, e)) =~= spec_push_front(spec_pop_back(s), e));
}

/// Queue order, in the large: elements pushed at the back leave from the
/// front in arrival order, after everything already present.
pub proof fn lemma_back_to_front_is_fifo<T>(s: Seq<T>, es: Seq<T>)
    ensures
        spec_front_drain(spec_push_all_back(s, es)) == s + es,
{
    lemma_push_all_back(s, es);
    lemma_front_drain(spec_push_all_back(s, es));
}

/// Queue order, mirrored: elements pushed at the front leave from the back
/// in arrival order, after everything already present.
pub proof fn lemma_front_to_back_is_fifo<T>(s: Seq<T>, es: Seq<T>)
    ensures
        spec_back_drain(spec_push_all_front(s, es)) == s.reverse() + es,
{
    lemma_push_all_front(s, es);
    lemma_back_drain(spec_push_all_front(s, es));
    assert((es.reverse() + s).reverse() =~= s.reverse() + es);
}

/// Popping as many times as the list is long drains it completely, so a
/// drained list holds exactly what a freshly constructed one holds, and any
/// later pushes land on the same contents.
pub proof fn lemma_drained_list_is_fresh<T>(s: Seq<T>, es: Seq<T>)
    ensures
        spec_pop_front_n(s, s.len()) == Seq::<T>::empty(),
        spec_push_all_front(spec_pop_front_n(s, s.len()), es) == spec_push_all_front(
            Seq::<T>::empty(),
            es,
        ),
    decreases s.len(),
{
    if s.len() == 0 {
        assert(spec_pop_front_n(s, s.len()) =~= Seq::<T>::empty());
    } else {
        lemma_drained_list_is_fresh(s.drop_first(), es);
    }
}

} // verus!
