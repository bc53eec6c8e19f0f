use vstd::prelude::*;

use std::marker::PhantomData;
use vstd::string::StringSliceAdditionalSpecFns;

verus! {

/// Subscribers to events of type `T`, each under a key; a key holds one subscriber.
pub struct EventEmitter<T, S> {
    subscribers: Vec<(&'static str, S)>,
    event: PhantomData<T>,
}

/// The subscribers of a list of pairs, keyed by the bytes of their keys; a later pair does
/// not override an earlier one, but the list holds each key once.
pub open spec fn subscriber_map<S>(subscribers: Seq<(&'static str, S)>) -> Map<Seq<u8>, S>
    decreases subscribers.len(),
{
    if subscribers.len() == 0 {
        Map::empty()
    } else {
        subscriber_map(subscribers.drop_last()).insert(
            subscribers.last().0.spec_bytes(),
            subscribers.last().1,
        )
    }
}

/// Whether no two pairs have keys with the same bytes.
pub open spec fn distinct_keys<S>(subscribers: Seq<(&'static str, S)>) -> bool {
    forall|i: int, j: int|
        0 <= i < subscribers.len() && 0 <= j < subscribers.len() && i != j
            ==> (#[trigger] subscribers[i]).0.spec_bytes() != (#[trigger] subscribers[j]).0.spec_bytes()
}

proof fn lemma_subscriber_map_keys<S>(s: Seq<(&'static str, S)>)
    requires
        distinct_keys(s),
    ensures
        forall|k: Seq<u8>| #[trigger] subscriber_map(s).contains_key(k) ==> exists|i: int|
            0 <= i < s.len() && (#[trigger] s[i]).0.spec_bytes() == k,
        forall|i: int|
            0 <= i < s.len() ==> subscriber_map(s).contains_key((#[trigger] s[i]).0.spec_bytes())
                && subscriber_map(s)[s[i].0.spec_bytes()] == s[i].1,
    decreases s.len(),
{
    if s.len() > 0 {
        let t = s.drop_last();
        lemma_subscriber_map_keys(t);
        assert forall|k: Seq<u8>| #[trigger] subscriber_map(s).contains_key(k) implies exists|i: int|
            0 <= i < s.len() && (#[trigger] s[i]).0.spec_bytes() == k by {
            if k != s.last().0.spec_bytes() {
                assert(subscriber_map(t).contains_key(k));
                let i = choose|i: int| 0 <= i < t.len() && (#[trigger] t[i]).0.spec_bytes() == k;
                assert(s[i] == t[i]);
            } else {
                assert(s[s.len() - 1].0.spec_bytes() == k);
            }
        }
        assert forall|i: int| 0 <= i < s.len() implies subscriber_map(s).contains_key(
            (#[trigger] s[i]).0.spec_bytes(),
        ) && subscriber_map(s)[s[i].0.spec_bytes()] == s[i].1 by {
            if i < s.len() - 1 {
                assert(s[i] == t[i]);
                assert(s[i].0.spec_bytes() != s[s.len() - 1].0.spec_bytes());
            }
        }
    }
}

proof fn lemma_subscriber_map_update<S>(s: Seq<(&'static str, S)>, i: int, key: &'static str, value: S)
    requires
        distinct_keys(s),
        0 <= i < s.len(),
        s[i].0.spec_bytes() == key.spec_bytes(),
    ensures
        distinct_keys(s.update(i, (key, value))),
        subscriber_map(s.update(i, (key, value))) == subscriber_map(s).insert(key.spec_bytes(), value),
    decreases s.len(),
{
    let u = s.update(i, (key, value));
    assert forall|a: int, b: int|
        0 <= a < u.len() && 0 <= b < u.len() && a != b implies (#[trigger] u[a]).0.spec_bytes()
            != (#[trigger] u[b]).0.spec_bytes() by {
        assert(s[a].0.spec_bytes() != s[b].0.spec_bytes());
    }
    if i == s.len() - 1 {
        assert(u.drop_last() =~= s.drop_last());
        assert(subscriber_map(u) =~= subscriber_map(s).insert(key.spec_bytes(), value));
    } else {
        let t = s.drop_last();
        assert(u.drop_last() =~= t.update(i, (key, value)));
        assert(distinct_keys(t)) by {
            assert forall|a: int, b: int|
                0 <= a < t.len() && 0 <= b < t.len() && a != b implies (#[trigger] t[a]).0.spec_bytes()
                    != (#[trigger] t[b]).0.spec_bytes() by {
                assert(s[a].0.spec_bytes() != s[b].0.spec_bytes());
            }
        }
        lemma_subscriber_map_update(t, i, key, value);
        assert(s[i].0.spec_bytes() != s[s.len() - 1].0.spec_bytes());
        assert(u.last() == s.last());
        assert(subscriber_map(u) =~= subscriber_map(s).insert(key.spec_bytes(), value));
    }
}

proof fn lemma_subscriber_map_remove<S>(s: Seq<(&'static str, S)>, i: int)
    requires
        distinct_keys(s),
        0 <= i < s.len(),
    ensures
        distinct_keys(s.remove(i)),
        subscriber_map(s.remove(i)) == subscriber_map(s).remove(s[i].0.spec_bytes()),
    decreases s.len(),
{
    let r = s.remove(i);
    assert forall|a: int, b: int|
        0 <= a < r.len() && 0 <= b < r.len() && a != b implies (#[trigger] r[a]).0.spec_bytes()
            != (#[trigger] r[b]).0.spec_bytes() by {
        let a2 = if a < i { a } else { a + 1 };
        let b2 = if b < i { b } else { b + 1 };
        assert(r[a] == s[a2]);
        assert(r[b] == s[b2]);
        assert(s[a2].0.spec_bytes() != s[b2].0.spec_bytes());
    }
    let t = s.drop_last();
    assert(distinct_keys(t)) by {
        assert forall|a: int, b: int|
            0 <= a < t.len() && 0 <= b < t.len() && a != b implies (#[trigger] t[a]).0.spec_bytes()
                != (#[trigger] t[b]).0.spec_bytes() by {
            assert(s[a].0.spec_bytes() != s[b].0.spec_bytes());
        }
    }
    lemma_subscriber_map_keys(t);
    if i == s.len() - 1 {
        assert(r =~= t);
        if subscriber_map(t).contains_key(s[i].0.spec_bytes()) {
            let j = choose|j: int| 0 <= j < t.len() && (#[trigger] t[j]).0.spec_bytes() == s[i].0.spec_bytes();
            assert(s[j].0.spec_bytes() != s[i].0.spec_bytes());
        }
        assert(subscriber_map(r) =~= subscriber_map(s).remove(s[i].0.spec_bytes()));
    } else {
        assert(r.drop_last() =~= t.remove(i));
        assert(r.last() == s.last());
        lemma_subscriber_map_remove(t, i);
        assert(s[i].0.spec_bytes() != s[s.len() - 1].0.spec_bytes());
        assert(subscriber_map(r) =~= subscriber_map(s).remove(s[i].0.spec_bytes()));
    }
}

/// Whether two strings hold the same bytes.
fn same_key(a: &str, b: &str) -> (r: bool)
    ensures
        r == (a.spec_bytes() == b.spec_bytes()),
{
    let x = a.as_bytes();
    let y = b.as_bytes();
    if x.len() != y.len() {
        return false;
    }
    let mut i: usize = 0;
    while i < x.len()
        invariant
            x@ == a.spec_bytes(),
            y@ == b.spec_bytes(),
            x@.len() == y@.len(),
            0 <= i <= x@.len(),
            forall|j: int| 0 <= j < i ==> x@[j] == y@[j],
        decreases x@.len() - i,
    {
        if x[i] != y[i] {
            return false;
        }
        i += 1;
    }
    assert(x@ =~= y@);
    true
}

impl<T, S> EventEmitter<T, S> {
    /// The subscriber under each key, keys taken by their bytes.
    pub closed spec fn subscriptions(&self) -> Map<Seq<u8>, S> {
        subscriber_map(self.subscribers@)
    }

    /// No key is held twice.
    pub closed spec fn well_formed(&self) -> bool {
        distinct_keys(self.subscribers@)
    }

    pub fn new() -> (r: Self)
        ensures
            r.well_formed(),
            r.subscriptions() == Map::<Seq<u8>, S>::empty(),
    {
        Self { subscribers: Vec::new(), event: PhantomData }
    }

    /// The position of the subscriber under `key`, if any.
    fn position(&self, key: &str) -> (r: Option<usize>)
        requires
            self.well_formed(),
        ensures
            r matches Some(i) ==> i < self.subscribers@.len() && self.subscribers@[i as int].0.spec_bytes()
                == key.spec_bytes(),
            r is None ==> forall|i: int|
                0 <= i < self.subscribers@.len() ==> (#[trigger] self.subscribers@[i]).0.spec_bytes()
                    != key.spec_bytes(),
    {
        let mut i: usize = 0;
        while i < self.subscribers.len()
            invariant
                0 <= i <= self.subscribers@.len(),
                forall|j: int|
                    0 <= j < i ==> (#[trigger] self.subscribers@[j]).0.spec_bytes() != key.spec_bytes(),
            decreases self.subscribers@.len() - i,
        {
            if same_key(self.subscribers[i].0, key) {
                return Some(i);
            }
            i += 1;
        }
        None
    }

    /// Subscribes under `key`, replacing the subscriber that held it.
    pub fn subscribe(&mut self, key: &'static str, subscriber: S)
        requires
            old(self).well_formed(),
        ensures
            final(self).well_formed(),
            final(self).subscriptions() == old(self).subscriptions().insert(key.spec_bytes(), subscriber),
    {
        proof {
            lemma_subscriber_map_keys(self.subscribers@);
        }
        match self.position(key) {
            Some(i) => {
                let ghost before = self.subscribers@;
                self.subscribers.set(i, (key, subscriber));
                proof {
                    lemma_subscriber_map_update(before, i as int, key, subscriber);
                }
            },
            None => {
                self.subscribers.push((key, subscriber));
                proof {
                    assert(self.subscribers@.drop_last() =~= old(self).subscribers@);
                }
            },
        }
    }

    /// Removes the subscriber under `key`, if any.
    pub fn unsubscribe(&mut self, key: &str)
        requires
            old(self).well_formed(),
        ensures
            final(self).well_formed(),
            final(self).subscriptions() == old(self).subscriptions().remove(key.spec_bytes()),
    {
        proof {
            lemma_subscriber_map_keys(self.subscribers@);
        }
        match self.position(key) {
            Some(i) => {
                let ghost before = self.subscribers@;
                self.subscribers.remove(i);
                proof {
                    lemma_subscriber_map_remove(before, i as int);
                }
            },
            None => {
                assert(old(self).subscriptions() =~= old(self).subscriptions().remove(key.spec_bytes()));
            },
        }
    }
}

impl<T, S: Fn(&T)> EventEmitter<T, S> {
    /// Calls every subscriber with `info`: each subscription's callback has run on it.
    pub fn notify(&self, info: &T)
        requires
            self.well_formed(),
            forall|k: Seq<u8>| #[trigger] self.subscriptions().contains_key(k) ==> call_requires(
                self.subscriptions()[k],
                (info,),
            ),
        ensures
            forall|k: Seq<u8>| #[trigger] self.subscriptions().contains_key(k) ==> call_ensures(
                self.subscriptions()[k],
                (info,),
                (),
            ),
    {
        proof {
            lemma_subscriber_map_keys(self.subscribers@);
        }
        let mut i: usize = 0;
        while i < self.subscribers.len()
            invariant
                0 <= i <= self.subscribers@.len(),
                distinct_keys(self.subscribers@),
                forall|j: int|
                    0 <= j < self.subscribers@.len() ==> subscriber_map(self.subscribers@).contains_key(
                        (#[trigger] self.subscribers@[j]).0.spec_bytes(),
                    ) && subscriber_map(self.subscribers@)[self.subscribers@[j].0.spec_bytes()]
                        == self.subscribers@[j].1,
                forall|k: Seq<u8>| #[trigger] self.subscriptions().contains_key(k) ==> call_requires(
                    self.subscriptions()[k],
                    (info,),
                ),
                forall|j: int| 0 <= j < i ==> call_ensures(#[trigger] self.subscribers@[j].1, (info,), ()),
            decreases self.subscribers@.len() - i,
        {
            let subscriber = &self.subscribers[i].1;
            assert(self.subscriptions().contains_key(self.subscribers@[i as int].0.spec_bytes()));
            subscriber(info);
            i += 1;
        }
        assert forall|k: Seq<u8>| #[trigger] self.subscriptions().contains_key(k) implies call_ensures(
            self.subscriptions()[k],
            (info,),
            (),
        ) by {
            let j = choose|j: int| 0 <= j < self.subscribers@.len() && (#[trigger] self.subscribers@[j]).0.spec_bytes() == k;
            assert(self.subscribers@[j].1 == self.subscriptions()[k]);
        }
    }
}

} // verus!
