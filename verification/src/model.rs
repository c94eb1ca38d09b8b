//! The mathematical model of the pool's shared record, and the laws the
//! pool obeys: conservation of tasks (each accepted task is handed out at
//! most once and exactly once on a drain), last-in-first-out handout order,
//! and the silence of submissions after a stop.

use vstd::prelude::*;
use vstd::multiset::Multiset;

verus! {

/// The pool's shared record as the proofs see it: the tasks not yet handed
/// to a worker, newest last, and the stop flag.
#[verifier::ext_equal]
pub ghost struct PoolModel<T> {
    pub pending: Seq<T>,
    pub stopping: bool,
}

/// One transition of the shared record. Every transition of the running
/// pool happens under its lock, so a history of the record is a sequence
/// of these events applied in order.
pub ghost enum PoolEvent<T> {
    /// A caller hands in a task; it is kept only while the pool is not
    /// stopping.
    Post(T),
    /// A worker asks for work and removes the newest pending task, if any.
    Take,
    /// Shutdown is requested.
    Stop,
}

/// How one event changes the shared record.
pub open spec fn apply_event<T>(s: PoolModel<T>, e: PoolEvent<T>) -> PoolModel<T> {
    match e {
        PoolEvent::Post(t) => if s.stopping {
            s
        } else {
            PoolModel { pending: s.pending.push(t), stopping: s.stopping }
        },
        PoolEvent::Take => if s.pending.len() > 0 {
            PoolModel { pending: s.pending.drop_last(), stopping: s.stopping }
        } else {
            s
        },
        PoolEvent::Stop => PoolModel { pending: s.pending, stopping: true },
    }
}

/// The record after a whole history of events.
pub open spec fn apply_events<T>(s: PoolModel<T>, es: Seq<PoolEvent<T>>) -> PoolModel<T>
    decreases es.len(),
{
    if es.len() == 0 {
        s
    } else {
        apply_event(apply_events(s, es.drop_last()), es.last())
    }
}

/// The tasks a history accepts into the queue: those posted while the pool
/// was not yet stopping, in posting order.
pub open spec fn accepted<T>(s: PoolModel<T>, es: Seq<PoolEvent<T>>) -> Seq<T>
    decreases es.len(),
{
    if es.len() == 0 {
        Seq::empty()
    } else {
        let pre = apply_events(s, es.drop_last());
        let acc = accepted(s, es.drop_last());
        match es.last() {
            PoolEvent::Post(t) => if pre.stopping {
                acc
            } else {
                acc.push(t)
            },
            PoolEvent::Take => acc,
            PoolEvent::Stop => acc,
        }
    }
}

/// The tasks a history hands to workers, in handout order.
pub open spec fn handed_out<T>(s: PoolModel<T>, es: Seq<PoolEvent<T>>) -> Seq<T>
    decreases es.len(),
{
    if es.len() == 0 {
        Seq::empty()
    } else {
        let pre = apply_events(s, es.drop_last());
        let out = handed_out(s, es.drop_last());
        match es.last() {
            PoolEvent::Post(t) => out,
            PoolEvent::Take => if pre.pending.len() > 0 {
                out.push(pre.pending.last())
            } else {
                out
            },
            PoolEvent::Stop => out,
        }
    }
}

proof fn lemma_insert_into_right<T>(m1: Multiset<T>, m2: Multiset<T>, t: T)
    ensures
        m1.add(m2.insert(t)) =~= m1.add(m2).insert(t),
        m1.insert(t).add(m2) =~= m1.add(m2).insert(t),
{
    broadcast use vstd::multiset::group_multiset_axioms;

}

/// Conservation of tasks: over any history, the tasks present at the start
/// together with those accepted are exactly the tasks handed out together
/// with those still pending. A task is therefore handed out at most once
/// per acceptance: a worker owns what it took, and nothing is duplicated
/// or invented.
pub proof fn lemma_task_conservation<T>(s: PoolModel<T>, es: Seq<PoolEvent<T>>)
    ensures
        s.pending.to_multiset().add(accepted(s, es).to_multiset()) =~= apply_events(
            s,
            es,
        ).pending.to_multiset().add(handed_out(s, es).to_multiset()),
    decreases es.len(),
{
    broadcast use vstd::seq_lib::group_to_multiset_ensures;
    broadcast use vstd::multiset::group_multiset_axioms;

    if es.len() == 0 {
    } else {
        lemma_task_conservation(s, es.drop_last());
        let pre = apply_events(s, es.drop_last());
        let acc = accepted(s, es.drop_last());
        let out = handed_out(s, es.drop_last());
        match es.last() {
            PoolEvent::Post(t) => {
                if !pre.stopping {
                    assert(accepted(s, es).to_multiset() =~= acc.to_multiset().insert(t));
                    assert(apply_events(s, es).pending.to_multiset() =~= pre.pending.to_multiset()
                        .insert(t));
                    lemma_insert_into_right(s.pending.to_multiset(), acc.to_multiset(), t);
                    lemma_insert_into_right(pre.pending.to_multiset(), out.to_multiset(), t);
                } else {
                    assert(accepted(s, es) == acc);
                    assert(apply_events(s, es) == pre);
                    assert(handed_out(s, es) == out);
                }
            },
            PoolEvent::Take => {
                if pre.pending.len() > 0 {
                    let l = pre.pending.last();
                    assert(pre.pending =~= pre.pending.drop_last().push(l));
                    assert(pre.pending.to_multiset() =~= pre.pending.drop_last().to_multiset()
                        .insert(l));
                    assert(handed_out(s, es).to_multiset() =~= out.to_multiset().insert(l));
                    assert(apply_events(s, es).pending == pre.pending.drop_last());
                    lemma_insert_into_right(
                        pre.pending.drop_last().to_multiset(),
                        out.to_multiset(),
                        l,
                    );
                    lemma_insert_into_right(apply_events(s, es).pending.to_multiset(), out.to_multiset(), l);
                } else {
                    assert(apply_events(s, es) == pre);
                }
            },
            PoolEvent::Stop => {
                assert(apply_events(s, es).pending == pre.pending);
            },
        }
    }
}

/// Drain-to-completion: a history that ends with nothing pending has
/// handed out exactly the tasks that were pending at the start plus every
/// task it accepted. With conservation this is the exactly-once guarantee
/// for a pool that is stopped and joined: nothing accepted is lost.
pub proof fn lemma_drain_hands_out_all<T>(s: PoolModel<T>, es: Seq<PoolEvent<T>>)
    requires
        apply_events(s, es).pending.len() == 0,
    ensures
        handed_out(s, es).to_multiset() =~= s.pending.to_multiset().add(
            accepted(s, es).to_multiset(),
        ),
{
    broadcast use vstd::seq_lib::group_to_multiset_ensures;

    lemma_task_conservation(s, es);
    assert(apply_events(s, es).pending.to_multiset().len() == 0);
    assert(apply_events(s, es).pending.to_multiset() =~= Multiset::empty());
}

/// The stop flag is monotonic: no event resets it.
pub proof fn lemma_stopping_monotonic<T>(s: PoolModel<T>, es: Seq<PoolEvent<T>>)
    requires
        s.stopping,
    ensures
        apply_events(s, es).stopping,
    decreases es.len(),
{
    if es.len() == 0 {
    } else {
        lemma_stopping_monotonic(s, es.drop_last());
    }
}

/// Silence after stop: once the pool is stopping, no history accepts a
/// task and the pending queue only shrinks towards its drain.
pub proof fn lemma_no_acceptance_after_stop<T>(s: PoolModel<T>, es: Seq<PoolEvent<T>>)
    requires
        s.stopping,
    ensures
        accepted(s, es) =~= Seq::<T>::empty(),
    decreases es.len(),
{
    if es.len() == 0 {
    } else {
        lemma_no_acceptance_after_stop(s, es.drop_last());
        lemma_stopping_monotonic(s, es.drop_last());
    }
}

/// A post to a stopping pool changes nothing at all.
pub proof fn lemma_post_after_stop_dropped<T>(s: PoolModel<T>, t: T)
    requires
        s.stopping,
    ensures
        apply_event(s, PoolEvent::Post(t)) == s,
{
}

/// Last-in-first-out handout: tasks a, b, c posted in that order to a
/// running pool, with no other traffic in between, are handed to workers
/// in the order c, b, a, and the queue returns to what it was.
pub proof fn lemma_lifo_order<T>(s: PoolModel<T>, a: T, b: T, c: T)
    requires
        !s.stopping,
    ensures
        ({
            let es = seq![
                PoolEvent::Post(a),
                PoolEvent::Post(b),
                PoolEvent::Post(c),
                PoolEvent::<T>::Take,
                PoolEvent::<T>::Take,
                PoolEvent::<T>::Take,
            ];
            handed_out(s, es) =~= seq![c, b, a] && apply_events(s, es) =~= s
        }),
{
    let es = seq![
        PoolEvent::Post(a),
        PoolEvent::Post(b),
        PoolEvent::Post(c),
        PoolEvent::<T>::Take,
        PoolEvent::<T>::Take,
        PoolEvent::<T>::Take,
    ];
    let e0 = es.subrange(0, 0);
    let e1 = es.subrange(0, 1);
    let e2 = es.subrange(0, 2);
    let e3 = es.subrange(0, 3);
    let e4 = es.subrange(0, 4);
    let e5 = es.subrange(0, 5);
    assert(e1.drop_last() =~= e0 && e1.last() == PoolEvent::Post(a));
    assert(e2.drop_last() =~= e1 && e2.last() == PoolEvent::Post(b));
    assert(e3.drop_last() =~= e2 && e3.last() == PoolEvent::Post(c));
    assert(e4.drop_last() =~= e3 && e4.last() == PoolEvent::<T>::Take);
    assert(e5.drop_last() =~= e4 && e5.last() == PoolEvent::<T>::Take);
    assert(es.drop_last() =~= e5 && es.last() == PoolEvent::<T>::Take);
    assert(apply_events(s, e0) == s);
    assert(apply_events(s, e1).pending =~= s.pending.push(a));
    assert(apply_events(s, e2).pending =~= s.pending.push(a).push(b));
    assert(apply_events(s, e3).pending =~= s.pending.push(a).push(b).push(c));
    assert(apply_events(s, e4).pending =~= s.pending.push(a).push(b));
    assert(apply_events(s, e5).pending =~= s.pending.push(a));
    assert(apply_events(s, es).pending =~= s.pending);
    assert(handed_out(s, e0) =~= Seq::<T>::empty());
    assert(handed_out(s, e1) =~= Seq::<T>::empty());
    assert(handed_out(s, e2) =~= Seq::<T>::empty());
    assert(handed_out(s, e3) =~= Seq::<T>::empty());
    assert(handed_out(s, e4) =~= seq![c]);
    assert(handed_out(s, e5) =~= seq![c, b]);
    assert(handed_out(s, es) =~= seq![c, b, a]);
    assert(apply_events(s, es) =~= s);
}

/// A history of nothing but posts to a pool that is not stopping accepts
/// every one of them: under load, no task is refused before a stop.
pub open spec fn posts_only<T>(es: Seq<PoolEvent<T>>) -> bool {
    forall|i: int| 0 <= i < es.len() ==> #[trigger] es[i] is Post
}

/// The tasks a sequence of post events carries, in order.
pub open spec fn posted_tasks<T>(es: Seq<PoolEvent<T>>) -> Seq<T>
    decreases es.len(),
{
    if es.len() == 0 {
        Seq::empty()
    } else {
        match es.last() {
            PoolEvent::Post(t) => posted_tasks(es.drop_last()).push(t),
            PoolEvent::Take => posted_tasks(es.drop_last()),
            PoolEvent::Stop => posted_tasks(es.drop_last()),
        }
    }
}

/// Liveness of acceptance: while the pool is running, every posted task is
/// accepted, and they all sit in the queue afterwards, in posting order.
pub proof fn lemma_posts_all_accepted<T>(s: PoolModel<T>, es: Seq<PoolEvent<T>>)
    requires
        !s.stopping,
        posts_only(es),
    ensures
        !apply_events(s, es).stopping,
        accepted(s, es) =~= posted_tasks(es),
        apply_events(s, es).pending =~= s.pending + posted_tasks(es),
    decreases es.len(),
{
    if es.len() == 0 {
        assert(apply_events(s, es).pending =~= s.pending + posted_tasks(es));
    } else {
        assert(posts_only(es.drop_last())) by {
            assert(forall|i: int|
                0 <= i < es.len() - 1 ==> es.drop_last()[i] == #[trigger] es[i]);
        }
        lemma_posts_all_accepted(s, es.drop_last());
        assert(es.last() == es[es.len() - 1]);
        assert(es[es.len() - 1] is Post);
    }
}

} // verus!
