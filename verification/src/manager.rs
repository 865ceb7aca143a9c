//! The four registry operations' decision logic: how a subscribe records
//! its result, how an unsubscribe decides on a delete call, and how batch
//! operations merge into the registry with first-error reporting and no
//! rollback.

use crate::registry::Registry;
use vstd::map::*;
use vstd::prelude::*;

verus! {

/// Why an operation failed.
#[derive(Debug)]
pub enum Error {
    /// No valid access token was available; the operation was aborted
    /// before any network call.
    Auth,
    /// A remote call failed (transport error, non-success status, or an
    /// unreadable response); the payload is the underlying cause.
    Request(String),
}

/// What one remote create-subscription call of a batch came back with:
/// the assigned subscription id on success, or the cause of its failure.
pub struct BatchOutcome {
    pub event: String,
    pub outcome: Result<String, String>,
}

/// The registry contents after the successful members of a batch have
/// recorded their subscriptions, in batch order.
pub open spec fn merge_outcomes(
    m: Map<Seq<char>, Seq<char>>,
    items: Seq<BatchOutcome>,
) -> Map<Seq<char>, Seq<char>>
    decreases items.len(),
{
    if items.len() == 0 {
        m
    } else {
        let rest = merge_outcomes(m, items.drop_last());
        match items.last().outcome {
            Ok(id) => rest.insert(items.last().event@, id@),
            Err(_) => rest,
        }
    }
}

/// Whether some successful member of the batch names the event type `k`.
pub open spec fn subscribed_in(items: Seq<BatchOutcome>, k: Seq<char>) -> bool {
    exists|i: int| 0 <= i < items.len() && items[i].event@ == k && items[i].outcome is Ok
}

/// All members of a batch name pairwise distinct event types.
pub open spec fn distinct_events(items: Seq<BatchOutcome>) -> bool {
    forall|i: int, j: int| 0 <= i < j < items.len() ==> items[i].event@ != items[j].event@
}

/// Merge a batch of subscribe outcomes into the registry: the fan-in of a
/// batch subscribe. Every successful member's subscription is recorded, in
/// batch order, whether or not other members failed; the first failure's
/// cause is reported, and nothing is rolled back.
pub fn apply_subscribe_outcomes(reg: &mut Registry, items: Vec<BatchOutcome>) -> (r: Result<
    (),
    Error,
>)
    ensures
        final(reg)@ == merge_outcomes(old(reg)@, items@),
        r is Ok <==> (forall|i: int| 0 <= i < items@.len() ==> items@[i].outcome is Ok),
        r matches Err(e) ==> (exists|i: int|
            {
                &&& 0 <= i < items@.len()
                &&& (forall|j: int| 0 <= j < i ==> items@[j].outcome is Ok)
                &&& items@[i].outcome is Err
                &&& e == Error::Request(items@[i].outcome->Err_0)
            }),
{
    let n = items.len();
    let mut failure: Option<Error> = None;
    let mut i: usize = 0;
    while i < n
        invariant
            n == items@.len(),
            i <= n,
            reg@ == merge_outcomes(old(reg)@, items@.subrange(0, i as int)),
            match failure {
                Some(e) => exists|j: int|
                    {
                        &&& 0 <= j < i
                        &&& (forall|l: int| 0 <= l < j ==> items@[l].outcome is Ok)
                        &&& items@[j].outcome is Err
                        &&& e == Error::Request(items@[j].outcome->Err_0)
                    },
                None => forall|j: int| 0 <= j < i ==> items@[j].outcome is Ok,
            },
        decreases n - i,
    {
        let item = &items[i];
        let ghost prefix = items@.subrange(0, i as int);
        let ghost prefix2 = items@.subrange(0, i + 1 as int);
        match &item.outcome {
            Ok(id) => {
                reg.insert(item.event.clone(), id.clone());
            },
            Err(cause) => {
                if failure.is_none() {
                    failure = Some(Error::Request(cause.clone()));
                }
            },
        }
        proof {
            assert(prefix2.drop_last() =~= prefix);
            assert(prefix2.last() == items@[i as int]);
            assert(reg@ =~= merge_outcomes(old(reg)@, prefix2));
        }
        i += 1;
    }
    proof {
        assert(items@.subrange(0, n as int) =~= items@);
    }
    match failure {
        Some(e) => Err(e),
        None => Ok(()),
    }
}

/// The registry contents after every event type in `events` has been
/// removed, in order.
pub open spec fn remove_all_events(
    m: Map<Seq<char>, Seq<char>>,
    events: Seq<Seq<char>>,
) -> Map<Seq<char>, Seq<char>>
    decreases events.len(),
{
    if events.len() == 0 {
        m
    } else {
        remove_all_events(m, events.drop_last()).remove(events.last())
    }
}

/// The views of the event names in a batch.
pub open spec fn names_of(events: Seq<String>) -> Seq<Seq<char>> {
    events.map_values(|e: String| e@)
}

proof fn lemma_remove_all_events_effect(m: Map<Seq<char>, Seq<char>>, events: Seq<Seq<char>>)
    ensures
        forall|k: Seq<char>|
            #[trigger] remove_all_events(m, events).contains_key(k) <==> (m.contains_key(k)
                && !events.contains(k)),
        forall|k: Seq<char>|
            #[trigger] remove_all_events(m, events).contains_key(k) ==> remove_all_events(
                m,
                events,
            )[k] == m[k],
    decreases events.len(),
{
    broadcast use vstd::map::group_map_axioms;

    if events.len() > 0 {
        let d = events.drop_last();
        lemma_remove_all_events_effect(m, d);
        let last = events.last();
        assert(remove_all_events(m, events) == remove_all_events(m, d).remove(last));
        assert forall|k: Seq<char>|
            #[trigger] remove_all_events(m, events).contains_key(k) <==> (m.contains_key(k)
                && !events.contains(k)) by {
            if events.contains(k) {
                let i = choose|i: int| 0 <= i < events.len() && events[i] == k;
                if i < events.len() - 1 {
                    assert(d[i] == k);
                    assert(d.contains(k));
                } else {
                    assert(k == last);
                }
            }
            if d.contains(k) {
                let i = choose|i: int| 0 <= i < d.len() && d[i] == k;
                assert(events[i] == k);
                assert(events.contains(k));
            }
            if k == last {
                assert(events[events.len() - 1] == k);
                assert(events.contains(k));
            }
        }
    }
}

/// Remove every event type in `events` from the registry, returning for
/// each the remote subscription id held when its turn came: the ids whose
/// remote subscriptions the caller must now delete. Removal is local and
/// unconditional — it happens whether or not the remote delete calls are
/// made or succeed — so afterwards no event type of the batch is in the
/// registry, and every other key is untouched.
pub fn remove_all(reg: &mut Registry, events: &Vec<String>) -> (r: Vec<Option<String>>)
    ensures
        final(reg)@ == remove_all_events(old(reg)@, names_of(events@)),
        forall|i: int| 0 <= i < events@.len() ==> !final(reg)@.contains_key(events@[i]@),
        forall|k: Seq<char>|
            !names_of(events@).contains(k) ==> ((final(reg)@.contains_key(k) <==> old(
                reg,
            )@.contains_key(k)) && (old(reg)@.contains_key(k) ==> final(reg)@[k] == old(reg)@[k])),
        r@.len() == events@.len(),
        forall|i: int|
            #![trigger r@[i]]
            0 <= i < events@.len() ==> {
                let before = remove_all_events(old(reg)@, names_of(events@).subrange(0, i));
                &&& r@[i] is Some ==> before.contains_key(events@[i]@) && r@[i]->0@
                    == before[events@[i]@]
                &&& r@[i] is None ==> !before.contains_key(events@[i]@)
            },
{
    let n = events.len();
    let mut r: Vec<Option<String>> = Vec::new();
    let mut i: usize = 0;
    while i < n
        invariant
            n == events@.len(),
            i <= n,
            r@.len() == i,
            reg@ == remove_all_events(old(reg)@, names_of(events@).subrange(0, i as int)),
            forall|j: int|
                #![trigger r@[j]]
                0 <= j < i ==> {
                    let before = remove_all_events(old(reg)@, names_of(events@).subrange(0, j));
                    &&& r@[j] is Some ==> before.contains_key(events@[j]@) && r@[j]->0@
                        == before[events@[j]@]
                    &&& r@[j] is None ==> !before.contains_key(events@[j]@)
                },
        decreases n - i,
    {
        let ghost nm = names_of(events@);
        let id = reg.remove(&events[i]);
        r.push(id);
        proof {
            assert(nm.subrange(0, i + 1 as int).drop_last() =~= nm.subrange(0, i as int));
            assert(nm.subrange(0, i + 1 as int).last() == events@[i as int]@);
            assert(reg@ =~= remove_all_events(old(reg)@, nm.subrange(0, i + 1 as int)));
        }
        i += 1;
    }
    proof {
        let nm = names_of(events@);
        assert(nm.subrange(0, n as int) =~= nm);
        lemma_remove_all_events_effect(old(reg)@, nm);
        assert forall|i: int| 0 <= i < events@.len() implies !reg@.contains_key(events@[i]@) by {
            assert(nm[i] == events@[i]@);
            assert(nm.contains(events@[i]@));
        }
    }
    r
}

/// Law: subscribing twice to the same event type leaves exactly the second
/// subscription's id in the registry — the second insert overwrites the
/// first, and no duplicate entry arises.
pub proof fn lemma_resubscribe_overwrites(
    m: Map<Seq<char>, Seq<char>>,
    event: Seq<char>,
    first_id: Seq<char>,
    second_id: Seq<char>,
)
    ensures
        m.insert(event, first_id).insert(event, second_id) == m.insert(event, second_id),
{
    assert(m.insert(event, first_id).insert(event, second_id) =~= m.insert(event, second_id));
}

/// Law: when a batch's members name pairwise distinct event types, merging
/// the batch writes each successful member's id under its event type and
/// touches no other key — no member's update is lost to another member of
/// the same batch.
pub proof fn lemma_merge_outcomes_pointwise(m: Map<Seq<char>, Seq<char>>, items: Seq<BatchOutcome>)
    requires
        distinct_events(items),
    ensures
        forall|i: int|
            0 <= i < items.len() && items[i].outcome is Ok ==> merge_outcomes(
                m,
                items,
            ).contains_key(#[trigger] items[i].event@) && merge_outcomes(m, items)[items[i].event@]
                == items[i].outcome->Ok_0@,
        forall|k: Seq<char>|
            !subscribed_in(items, k) ==> ((merge_outcomes(m, items).contains_key(k)
                <==> m.contains_key(k)) && (m.contains_key(k) ==> merge_outcomes(m, items)[k]
                == m[k])),
    decreases items.len(),
{
    if items.len() > 0 {
        let d = items.drop_last();
        assert(distinct_events(d)) by {
            assert forall|i: int, j: int| 0 <= i < j < d.len() implies d[i].event@
                != d[j].event@ by {
                assert(items[i].event@ != items[j].event@);
            }
        }
        lemma_merge_outcomes_pointwise(m, d);
        assert forall|k: Seq<char>| subscribed_in(d, k) implies subscribed_in(items, k) by {
            let i = choose|i: int|
                0 <= i < d.len() && d[i].event@ == k && d[i].outcome is Ok;
            assert(items[i].event@ == k && items[i].outcome is Ok);
        }
        assert forall|i: int|
            0 <= i < items.len() && items[i].outcome is Ok implies merge_outcomes(
            m,
            items,
        ).contains_key(#[trigger] items[i].event@) && merge_outcomes(m, items)[items[i].event@]
            == items[i].outcome->Ok_0@ by {
            if i < items.len() - 1 {
                assert(d[i] == items[i]);
                assert(items[i].event@ != items.last().event@);
            }
        }
        assert forall|k: Seq<char>| !subscribed_in(items, k) implies ((merge_outcomes(
            m,
            items,
        ).contains_key(k) <==> m.contains_key(k)) && (m.contains_key(k) ==> merge_outcomes(
            m,
            items,
        )[k] == m[k])) by {
            assert(!subscribed_in(d, k));
            if items.last().outcome is Ok {
                assert(items[items.len() - 1].event@ != k);
            }
        }
    }
}

/// Law: a batch of subscribes for pairwise distinct event types, all of
/// whose remote calls succeeded and none of which was subscribed before,
/// grows the registry by exactly the batch's size — concurrent single-item
/// operations, linearized by the registry lock, lose no update.
pub proof fn lemma_merge_outcomes_count(m: Map<Seq<char>, Seq<char>>, items: Seq<BatchOutcome>)
    requires
        distinct_events(items),
        forall|i: int| 0 <= i < items.len() ==> items[i].outcome is Ok,
        forall|i: int| 0 <= i < items.len() ==> !m.contains_key(#[trigger] items[i].event@),
        m.dom().finite(),
    ensures
        merge_outcomes(m, items).dom().finite(),
        merge_outcomes(m, items).dom().len() == m.dom().len() + items.len(),
    decreases items.len(),
{
    broadcast use vstd::set::group_set_axioms;

    if items.len() > 0 {
        let d = items.drop_last();
        assert(distinct_events(d)) by {
            assert forall|i: int, j: int| 0 <= i < j < d.len() implies d[i].event@
                != d[j].event@ by {
                assert(items[i].event@ != items[j].event@);
            }
        }
        assert forall|i: int| 0 <= i < d.len() implies d[i].outcome is Ok && !m.contains_key(
            #[trigger] d[i].event@,
        ) by {
            assert(d[i] == items[i]);
            assert(!m.contains_key(items[i].event@));
        }
        lemma_merge_outcomes_count(m, d);
        lemma_merge_outcomes_pointwise(m, d);
        let last = items.last();
        assert(!subscribed_in(d, last.event@)) by {
            if subscribed_in(d, last.event@) {
                let i = choose|i: int|
                    0 <= i < d.len() && d[i].event@ == last.event@ && d[i].outcome is Ok;
                assert(items[i].event@ == items[items.len() - 1].event@);
            }
        }
        assert(!m.contains_key(last.event@)) by {
            assert(items[items.len() - 1].outcome is Ok);
        }
        assert(!merge_outcomes(m, d).contains_key(last.event@));
        assert(items[items.len() - 1].outcome is Ok);
        assert(merge_outcomes(m, items).dom() =~= merge_outcomes(m, d).dom().insert(last.event@));
    }
}

/// Law: two batches made of the same members, each naming pairwise
/// distinct event types, merge to the same registry contents — the order
/// in which the members of a batch complete does not matter.
pub proof fn lemma_merge_outcomes_order_independent(
    m: Map<Seq<char>, Seq<char>>,
    items1: Seq<BatchOutcome>,
    items2: Seq<BatchOutcome>,
)
    requires
        distinct_events(items1),
        distinct_events(items2),
        items1.to_set() == items2.to_set(),
    ensures
        merge_outcomes(m, items1) == merge_outcomes(m, items2),
{
    broadcast use vstd::set::group_set_axioms;

    lemma_merge_outcomes_pointwise(m, items1);
    lemma_merge_outcomes_pointwise(m, items2);
    let m1 = merge_outcomes(m, items1);
    let m2 = merge_outcomes(m, items2);
    assert forall|k: Seq<char>| subscribed_in(items1, k) implies subscribed_in(items2, k)
        && m1.contains_key(k) && m2.contains_key(k) && m1[k] == m2[k] by {
        let i = choose|i: int|
            0 <= i < items1.len() && items1[i].event@ == k && items1[i].outcome is Ok;
        assert(items1.contains(items1[i]));
        assert(items1.to_set().contains(items1[i]));
        assert(items2.contains(items1[i]));
        let j = choose|j: int| 0 <= j < items2.len() && items2[j] == items1[i];
        assert(items2[j].event@ == k && items2[j].outcome is Ok);
        assert(m1[k] == items1[i].outcome->Ok_0@);
        assert(m2[k] == items2[j].outcome->Ok_0@);
    }
    assert forall|k: Seq<char>| subscribed_in(items2, k) implies subscribed_in(items1, k) by {
        let j = choose|j: int|
            0 <= j < items2.len() && items2[j].event@ == k && items2[j].outcome is Ok;
        assert(items2.contains(items2[j]));
        assert(items2.to_set().contains(items2[j]));
        assert(items1.contains(items2[j]));
        let i = choose|i: int| 0 <= i < items1.len() && items1[i] == items2[j];
        assert(items1[i].event@ == k && items1[i].outcome is Ok);
    }
    assert_maps_equal!(m1, m2, k => {
        if subscribed_in(items1, k) {
            assert(subscribed_in(items2, k) && m1.contains_key(k) && m2.contains_key(k) && m1[k]
                == m2[k]);
        } else {
            assert(!subscribed_in(items2, k));
            assert(m1.contains_key(k) <==> m.contains_key(k));
            assert(m2.contains_key(k) <==> m.contains_key(k));
            if m.contains_key(k) {
                assert(m1[k] == m[k]);
                assert(m2[k] == m[k]);
            }
        }
    });
}

} // verus!
