use vstd::prelude::*;

use crate::errors::ServiceError;

verus! {

/// Whole seconds between a recorded millisecond reading `t` and a later
/// reading `now`, truncated toward zero.  A reading earlier than the
/// recorded one (impossible on a monotonic clock) counts as zero.
pub open spec fn whole_seconds_between(t: u64, now: u64) -> u64 {
    if now >= t {
        (((now - t) / 1000) as u64)
    } else {
        0
    }
}

/// No two entries share a key.
spec fn unique_keys(s: Seq<(String, u64)>) -> bool {
    forall|i: int, j: int| 0 <= i < j < s.len() ==> s[i].0@ != s[j].0@
}

/// The mathematical content of a sequence of key/instant pairs: a map in
/// which a later pair overrides an earlier one under the same key.
spec fn map_of(s: Seq<(String, u64)>) -> Map<Seq<char>, u64>
    decreases s.len(),
{
    if s.len() == 0 {
        Map::empty()
    } else {
        map_of(s.drop_last()).insert(s.last().0@, s.last().1)
    }
}

proof fn lemma_map_of_props(s: Seq<(String, u64)>)
    requires
        unique_keys(s),
    ensures
        forall|k: Seq<char>|
            #[trigger] map_of(s).contains_key(k) <==> exists|i: int|
                0 <= i < s.len() && s[i].0@ == k,
        forall|i: int|
            0 <= i < s.len() ==> map_of(s).contains_key(#[trigger] s[i].0@) && map_of(s)[s[i].0@]
                == s[i].1,
    decreases s.len(),
{
    if s.len() > 0 {
        let d = s.drop_last();
        assert(unique_keys(d)) by {
            assert(forall|i: int, j: int|
                0 <= i < j < d.len() ==> d[i] == s[i] && d[j] == s[j]);
        }
        lemma_map_of_props(d);
        assert forall|k: Seq<char>| #[trigger]
            map_of(s).contains_key(k) implies exists|i: int|
            0 <= i < s.len() && s[i].0@ == k by {
            assert(map_of(s) == map_of(d).insert(s.last().0@, s.last().1));
            if k == s.last().0@ {
                assert(s[s.len() - 1].0@ == k);
            } else {
                assert(map_of(d).contains_key(k));
                let i = choose|i: int| 0 <= i < d.len() && d[i].0@ == k;
                assert(d[i] == s[i]);
                assert(s[i].0@ == k);
            }
        }
        assert forall|k: Seq<char>| (exists|i: int|
            0 <= i < s.len() && s[i].0@ == k) implies map_of(s).contains_key(k) by {
            let i = choose|i: int| 0 <= i < s.len() && s[i].0@ == k;
            if i < s.len() - 1 {
                assert(d[i].0@ == k);
            }
        }
        assert forall|i: int|
            0 <= i < s.len() implies map_of(s).contains_key(#[trigger] s[i].0@) && map_of(
            s,
        )[s[i].0@] == s[i].1 by {
            if i < s.len() - 1 {
                assert(d[i].0@ == s[i].0@ && d[i].1 == s[i].1);
                assert(s[i].0@ != s.last().0@);
            }
        }
    }
}

proof fn lemma_map_of_remove(s: Seq<(String, u64)>, i: int)
    requires
        unique_keys(s),
        0 <= i < s.len(),
    ensures
        map_of(s.remove(i)) == map_of(s).remove(s[i].0@),
    decreases s.len(),
{
    let k = s[i].0@;
    let d = s.drop_last();
    assert(unique_keys(d)) by {
        assert(forall|a: int, b: int| 0 <= a < b < d.len() ==> d[a] == s[a] && d[b] == s[b]);
    }
    if i == s.len() - 1 {
        assert(s.remove(i) =~= d);
        lemma_map_of_props(d);
        assert(!map_of(d).contains_key(k)) by {
            if map_of(d).contains_key(k) {
                let j = choose|j: int| 0 <= j < d.len() && d[j].0@ == k;
                assert(s[j].0@ == s[i].0@);
            }
        }
        assert(map_of(s).remove(k) =~= map_of(d));
    } else {
        lemma_map_of_remove(d, i);
        assert(s.remove(i).drop_last() =~= d.remove(i));
        assert(s.remove(i).last() == s.last());
        assert(map_of(s.remove(i)) == map_of(d).remove(k).insert(s.last().0@, s.last().1));
        assert(s.last().0@ != k);
        assert(map_of(d).remove(k).insert(s.last().0@, s.last().1) =~= map_of(d).insert(
            s.last().0@,
            s.last().1,
        ).remove(k));
    }
}

/// Maps each key to the monotonic millisecond reading at which it was last
/// recorded.  Last write wins; no history is kept.  Callers supply the
/// clock readings, so the store itself is deterministic.
pub struct TimestampStore {
    entries: Vec<(String, u64)>,
}

impl View for TimestampStore {
    type V = Map<Seq<char>, u64>;

    closed spec fn view(&self) -> Map<Seq<char>, u64> {
        map_of(self.entries@)
    }
}

impl TimestampStore {
    /// Internal well-formedness: entry keys are pairwise distinct.
    pub closed spec fn wf(&self) -> bool {
        unique_keys(self.entries@)
    }

    /// An empty store: no key has ever been recorded.
    pub fn new() -> (s: Self)
        ensures
            s.wf(),
            s@ == Map::<Seq<char>, u64>::empty(),
    {
        TimestampStore { entries: Vec::new() }
    }

    /// The index of `key`'s entry, if the key is present.
    fn find_index(&self, key: &String) -> (r: Option<usize>)
        ensures
            match r {
                Some(i) => i < self.entries@.len() && self.entries@[i as int].0@ == key@,
                None => forall|j: int|
                    0 <= j < self.entries@.len() ==> self.entries@[j].0@ != key@,
            },
    {
        let n = self.entries.len();
        let mut i: usize = 0;
        while i < n
            invariant
                i <= n,
                n == self.entries@.len(),
                forall|j: int| 0 <= j < i ==> self.entries@[j].0@ != key@,
            decreases n - i,
        {
            if self.entries[i].0 == *key {
                return Some(i);
            }
            i += 1;
        }
        None
    }

    /// Sets `key`'s recorded instant to `now_ms`, overwriting any earlier
    /// record under the same key.  Never fails.
    pub fn record(&mut self, key: String, now_ms: u64)
        requires
            old(self).wf(),
        ensures
            final(self).wf(),
            final(self)@ == old(self)@.insert(key@, now_ms),
    {
        let ghost s0 = self.entries@;
        let ghost k = key@;
        match self.find_index(&key) {
            Some(i) => {
                proof {
                    lemma_map_of_remove(s0, i as int);
                }
                self.entries.remove(i);
                let ghost s1 = self.entries@;
                proof {
                    assert forall|a: int, b: int|
                        0 <= a < b < s1.len() implies s1[a].0@ != s1[b].0@ by {
                        let a0: int = if a < i { a } else { a + 1 };
                        let b0: int = if b < i { b } else { b + 1 };
                        assert(s1[a] == s0[a0]);
                        assert(s1[b] == s0[b0]);
                        assert(s0[a0].0@ != s0[b0].0@);
                    }
                    assert forall|j: int| 0 <= j < s1.len() implies #[trigger] s1[j].0@ != k by {
                        let j0: int = if j < i { j } else { j + 1 };
                        assert(s1[j] == s0[j0]);
                        assert(j0 != i);
                        if j0 < i {
                            assert(s0[j0].0@ != s0[i as int].0@);
                        } else {
                            assert(s0[i as int].0@ != s0[j0].0@);
                        }
                    }
                }
                self.entries.push((key, now_ms));
                proof {
                    let s2 = self.entries@;
                    assert(s2.drop_last() =~= s1);
                    assert(map_of(s2) == map_of(s1).insert(k, now_ms));
                    assert(map_of(s0).remove(k).insert(k, now_ms) =~= map_of(s0).insert(
                        k,
                        now_ms,
                    ));
                    assert(unique_keys(s2)) by {
                        assert(forall|a: int|
                            0 <= a < s1.len() ==> #[trigger] s2[a] == s1[a]);
                    }
                }
            },
            None => {
                self.entries.push((key, now_ms));
                proof {
                    let s2 = self.entries@;
                    assert(s2.drop_last() =~= s0);
                    assert(unique_keys(s2)) by {
                        assert(forall|a: int|
                            0 <= a < s0.len() ==> #[trigger] s2[a] == s0[a]);
                    }
                }
            },
        }
    }

    /// Whole seconds between the instant recorded for `key` and `now_ms`,
    /// or `NotFound` if the key was never recorded.
    pub fn elapsed(&self, key: &String, now_ms: u64) -> (r: Result<u64, ServiceError>)
        requires
            self.wf(),
        ensures
            r is Ok <==> self@.contains_key(key@),
            self@.contains_key(key@) ==> r == Ok::<u64, ServiceError>(
                whole_seconds_between(self@[key@], now_ms),
            ),
            !self@.contains_key(key@) ==> r == Err::<u64, ServiceError>(ServiceError::NotFound),
    {
        proof {
            lemma_map_of_props(self.entries@);
        }
        match self.find_index(key) {
            Some(i) => {
                let t = self.entries[i].1;
                let d = if now_ms >= t {
                    (now_ms - t) / 1000
                } else {
                    0
                };
                Ok(d)
            },
            None => Err(ServiceError::NotFound),
        }
    }
}

/// A store fresh out of `new` holds no key, so `elapsed` is owed `NotFound`
/// for every key until that key is first recorded.
pub proof fn lemma_fresh_store_has_no_keys(k: Seq<char>)
    ensures
        !Map::<Seq<char>, u64>::empty().contains_key(k),
{
}

/// Read right after a record: the elapsed count starts at zero.
pub proof fn lemma_elapsed_just_recorded(t: u64)
    ensures
        whole_seconds_between(t, t) == 0,
{
}

/// Reading `n` whole seconds after the record reports exactly `n`.
pub proof fn lemma_elapsed_after_whole_seconds(t: u64, n: u64)
    requires
        t + n * 1000 <= u64::MAX,
    ensures
        whole_seconds_between(t, (t + n * 1000) as u64) == n,
{
    vstd::arithmetic::div_mod::lemma_div_multiples_vanish(n as int, 1000);
    assert((1000 * (n as int)) == (n as int) * 1000);
}

/// Absent a new record, the reported elapsed count never decreases as the
/// clock advances.
pub proof fn lemma_elapsed_monotone(t: u64, n1: u64, n2: u64)
    requires
        n1 <= n2,
    ensures
        whole_seconds_between(t, n1) <= whole_seconds_between(t, n2),
{
    if n1 >= t {
        vstd::arithmetic::div_mod::lemma_div_is_ordered(n1 - t, n2 - t, 1000);
    } else if n2 >= t {
        vstd::arithmetic::div_mod::lemma_div_pos_is_pos(n2 - t, 1000);
    }
}

/// Recording the same key twice leaves only the second instant: the elapsed
/// clock is reset relative to the later record.
pub proof fn lemma_record_last_write_wins(m: Map<Seq<char>, u64>, k: Seq<char>, t1: u64, t2: u64)
    ensures
        m.insert(k, t1).insert(k, t2) == m.insert(k, t2),
        m.insert(k, t2)[k] == t2,
{
    assert(m.insert(k, t1).insert(k, t2) =~= m.insert(k, t2));
}

} // verus!
