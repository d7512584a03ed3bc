use vstd::prelude::*;

use crate::calendar::civil_from_millis;
use crate::calendar::civil_of;
use crate::calendar::fits_timestamp_field;
use crate::calendar::utc_now_millis;
use crate::codec::parse_ulid;
use crate::codec::to_uuid_string;
use crate::codec::ulid_decode;
use crate::codec::uuid_hyphenated;
use crate::errors::ServiceError;

verus! {

/// The character sequences of a batch of strings.
pub open spec fn views(s: Seq<String>) -> Seq<Seq<char>> {
    s.map_values(|x: String| x@)
}

/// Every string in the batch is a well-formed identifier.
pub open spec fn all_valid(s: Seq<Seq<char>>) -> bool {
    forall|i: int| 0 <= i < s.len() ==> (#[trigger] ulid_decode(s[i])) is Some
}

/// The decoded 128-bit values of a batch of well-formed identifiers.
pub open spec fn decoded(s: Seq<Seq<char>>) -> Seq<u128>
    recommends
        all_valid(s),
{
    s.map_values(|x: Seq<char>| ulid_decode(x)->0)
}

/// One well-formed identifier re-encoded in the canonical hyphenated form.
/// The 128 bits are kept as they are; only the textual encoding changes.
pub open spec fn converted_one(x: Seq<char>) -> Seq<char>
    recommends
        ulid_decode(x) is Some,
{
    uuid_hyphenated(ulid_decode(x)->0)
}

/// What converting a batch returns: each well-formed identifier re-encoded
/// in the canonical hyphenated form, in reverse batch order, with
/// malformed entries dropped.
pub open spec fn convert_reversed_spec(s: Seq<Seq<char>>) -> Seq<Seq<char>>
    decreases s.len(),
{
    if s.len() == 0 {
        Seq::empty()
    } else {
        convert_reversed_spec(s.drop_first()) + (match ulid_decode(s.first()) {
            Some(u) => seq![uuid_hyphenated(u)],
            None => Seq::empty(),
        })
    }
}

/// Re-encodes every well-formed identifier of the batch into the canonical
/// hyphenated 128-bit form and returns them in reverse order; malformed
/// entries are silently dropped.  Never fails.
pub fn convert_reversed(ids: &Vec<String>) -> (r: Vec<String>)
    ensures
        views(r@) == convert_reversed_spec(views(ids@)),
{
    let mut out: Vec<String> = Vec::new();
    let mut i: usize = ids.len();
    proof {
        assert(views(ids@).skip(i as int) =~= Seq::<Seq<char>>::empty());
    }
    while i > 0
        invariant
            i <= ids@.len(),
            views(out@) == convert_reversed_spec(views(ids@).skip(i as int)),
        decreases i,
    {
        i = i - 1;
        let ghost vs = views(ids@);
        let ghost pre = views(out@);
        match parse_ulid(ids[i].as_str()) {
            Some(u) => {
                let t = to_uuid_string(u);
                let ghost tv = t@;
                out.push(t);
                proof {
                    assert(views(out@) =~= pre.push(tv));
                }
            },
            None => {},
        }
        proof {
            assert(vs.skip(i as int).drop_first() =~= vs.skip(i as int + 1));
            assert(vs.skip(i as int).first() == vs[i as int]);
            assert(vs[i as int] == ids@[i as int]@);
            match ulid_decode(vs[i as int]) {
                Some(u) => {
                    assert(views(out@) =~= pre + seq![uuid_hyphenated(u)]);
                },
                None => {
                    assert(views(out@) =~= pre + Seq::<Seq<char>>::empty());
                },
            }
        }
    }
    proof {
        assert(views(ids@).skip(0) =~= views(ids@));
    }
    out
}

/// Counts the entries of `s` that satisfy `p`.
pub open spec fn count_matching(s: Seq<u128>, p: spec_fn(u128) -> bool) -> int
    decreases s.len(),
{
    if s.len() == 0 {
        0
    } else {
        count_matching(s.drop_last(), p) + (if p(s.last()) {
            1int
        } else {
            0int
        })
    }
}

/// The 48-bit millisecond timestamp field of an identifier's value: its
/// most significant 48 bits.
pub open spec fn ts_of(u: u128) -> u64 {
    (u >> 80) as u64
}

/// The identifier was created on a December 24th, in any year.
pub open spec fn is_christmas_eve(u: u128) -> bool {
    civil_of(ts_of(u)).1 == 12 && civil_of(ts_of(u)).2 == 24
}

/// The identifier was created on weekday `w` (`0` = Monday .. `6` = Sunday).
pub open spec fn on_weekday(u: u128, w: u8) -> bool {
    civil_of(ts_of(u)).3 == w as int
}

/// The identifier's creation instant lies strictly after `now_ms`.
pub open spec fn in_future(u: u128, now_ms: i64) -> bool {
    ts_of(u) as int > now_ms as int
}

/// The least significant bit of the identifier's full 128-bit value is set.
pub open spec fn lsb_set(u: u128) -> bool {
    u & 1 == 1
}

pub open spec fn christmas_eve_count(s: Seq<u128>) -> int {
    count_matching(s, |u: u128| is_christmas_eve(u))
}

pub open spec fn weekday_count(s: Seq<u128>, w: u8) -> int {
    count_matching(s, |u: u128| on_weekday(u, w))
}

pub open spec fn future_count(s: Seq<u128>, now_ms: i64) -> int {
    count_matching(s, |u: u128| in_future(u, now_ms))
}

pub open spec fn lsb_count(s: Seq<u128>) -> int {
    count_matching(s, |u: u128| lsb_set(u))
}

/// The four counts a batch-statistics call is owed, as mathematical
/// integers.
pub struct BatchCounts {
    pub christmas_eve: int,
    pub weekday: int,
    pub in_the_future: int,
    pub lsb_is_1: int,
}

/// The counts owed for a batch of decoded identifier values, a target
/// weekday and a reference instant.
pub open spec fn batch_counts(dec: Seq<u128>, w: u8, now_ms: i64) -> BatchCounts {
    BatchCounts {
        christmas_eve: christmas_eve_count(dec),
        weekday: weekday_count(dec, w),
        in_the_future: future_count(dec, now_ms),
        lsb_is_1: lsb_count(dec),
    }
}

/// The aggregate statistics of a batch of identifiers.  The four counts
/// are independent; one identifier may contribute to several of them.
#[derive(Debug, Clone, Copy, PartialEq, Eq, Structural, Default)]
pub struct UlidsResponse {
    pub christmas_eve: usize,
    pub weekday: usize,
    pub in_the_future: usize,
    pub lsb_is_1: usize,
}

/// A response read back as mathematical counts.
pub open spec fn counts_of_response(resp: UlidsResponse) -> BatchCounts {
    BatchCounts {
        christmas_eve: resp.christmas_eve as int,
        weekday: resp.weekday as int,
        in_the_future: resp.in_the_future as int,
        lsb_is_1: resp.lsb_is_1 as int,
    }
}

/// Batch statistics against an explicit reference instant `now_ms`
/// (milliseconds since 1970-01-01T00:00:00Z).
///
/// Fails with `InvalidWeekday` exactly when `w` lies outside `0..=6`, and
/// (fail-fast) with `MalformedIdentifier` exactly when some entry is not a
/// well-formed identifier; all four counts are then computed over the one
/// fully decoded batch.
pub fn batch_stats_at(w: u8, ids: &Vec<String>, now_ms: i64) -> (r: Result<
    UlidsResponse,
    ServiceError,
>)
    ensures
        w > 6 ==> r == Err::<UlidsResponse, ServiceError>(ServiceError::InvalidWeekday),
        w <= 6 && !all_valid(views(ids@)) ==> r == Err::<UlidsResponse, ServiceError>(
            ServiceError::MalformedIdentifier,
        ),
        w <= 6 && all_valid(views(ids@)) ==> (r matches Ok(resp) && counts_of_response(resp)
            == batch_counts(decoded(views(ids@)), w, now_ms)),
{
    if w > 6 {
        return Err(ServiceError::InvalidWeekday);
    }
    let n = ids.len();
    let mut vals: Vec<u128> = Vec::new();
    let mut i: usize = 0;
    while i < n
        invariant
            w <= 6,
            i <= n,
            n == ids@.len(),
            vals@.len() == i,
            forall|j: int| 0 <= j < i ==> (#[trigger] ulid_decode(views(ids@)[j])) is Some,
            forall|j: int| 0 <= j < i ==> vals@[j] == ulid_decode(views(ids@)[j])->0,
        decreases n - i,
    {
        match parse_ulid(ids[i].as_str()) {
            Some(u) => {
                vals.push(u);
            },
            None => {
                proof {
                    assert(ulid_decode(views(ids@)[i as int]) is None);
                }
                return Err(ServiceError::MalformedIdentifier);
            },
        }
        i += 1;
    }
    proof {
        assert(all_valid(views(ids@)));
        assert(vals@ =~= decoded(views(ids@)));
    }
    let m = vals.len();
    let mut c_x: usize = 0;
    let mut c_w: usize = 0;
    let mut c_f: usize = 0;
    let mut c_l: usize = 0;
    let mut i: usize = 0;
    while i < m
        invariant
            i <= m,
            m == vals@.len(),
            c_x <= i,
            c_w <= i,
            c_f <= i,
            c_l <= i,
            c_x as int == christmas_eve_count(vals@.take(i as int)),
            c_w as int == weekday_count(vals@.take(i as int), w),
            c_f as int == future_count(vals@.take(i as int), now_ms),
            c_l as int == lsb_count(vals@.take(i as int)),
        decreases m - i,
    {
        let u = vals[i];
        assert(u >> 80 < 0x1_0000_0000_0000u128) by (bit_vector);
        let ts: u64 = (u >> 80) as u64;
        assert(ts == ts_of(u));
        assert(fits_timestamp_field(ts));
        let c = civil_from_millis(ts);
        proof {
            let pre = vals@.take(i as int);
            let post = vals@.take(i as int + 1);
            assert(post.drop_last() =~= pre);
            assert(post.last() == u);
        }
        if c.1 == 12 && c.2 == 24 {
            c_x += 1;
        }
        if c.3 == w {
            c_w += 1;
        }
        let future = if now_ms < 0 {
            true
        } else {
            ts > (now_ms as u64)
        };
        if future {
            c_f += 1;
        }
        if u & 1 == 1 {
            c_l += 1;
        }
        i += 1;
    }
    proof {
        assert(vals@.take(m as int) =~= vals@);
    }
    Ok(UlidsResponse { christmas_eve: c_x, weekday: c_w, in_the_future: c_f, lsb_is_1: c_l })
}

proof fn lemma_count_matching_bounds(s: Seq<u128>, p: spec_fn(u128) -> bool)
    ensures
        0 <= count_matching(s, p) <= s.len(),
    decreases s.len(),
{
    if s.len() > 0 {
        lemma_count_matching_bounds(s.drop_last(), p);
    }
}

/// Batch statistics against the wall clock at the time of the call.  The
/// weekday, holiday and bit counts do not depend on the clock and are owed
/// exactly; the future-dated count is owed for whatever instant the clock
/// returned.
pub fn batch_stats(w: u8, ids: &Vec<String>) -> (r: Result<UlidsResponse, ServiceError>)
    ensures
        w > 6 ==> r == Err::<UlidsResponse, ServiceError>(ServiceError::InvalidWeekday),
        w <= 6 && !all_valid(views(ids@)) ==> r == Err::<UlidsResponse, ServiceError>(
            ServiceError::MalformedIdentifier,
        ),
        w <= 6 && all_valid(views(ids@)) ==> (r matches Ok(resp) && {
            let dec = decoded(views(ids@));
            &&& resp.christmas_eve as int == christmas_eve_count(dec)
            &&& resp.weekday as int == weekday_count(dec, w)
            &&& resp.lsb_is_1 as int == lsb_count(dec)
            &&& 0 <= resp.in_the_future as int <= dec.len()
            &&& exists|now: i64| resp.in_the_future as int == #[trigger] future_count(dec, now)
        }),
{
    let now_ms = utc_now_millis();
    let r = batch_stats_at(w, ids, now_ms);
    proof {
        if w <= 6 && all_valid(views(ids@)) {
            let dec = decoded(views(ids@));
            lemma_count_matching_bounds(dec, |u: u128| in_future(u, now_ms));
            assert(r matches Ok(resp) ==> resp.in_the_future as int == future_count(
                dec,
                now_ms,
            ));
        }
    }
    r
}

/// The well-formed identifiers of a batch, in batch order.
pub open spec fn well_formed_only(s: Seq<Seq<char>>) -> Seq<Seq<char>>
    decreases s.len(),
{
    if s.len() == 0 {
        Seq::empty()
    } else {
        (if ulid_decode(s.first()) is Some {
            seq![s.first()]
        } else {
            Seq::<Seq<char>>::empty()
        }) + well_formed_only(s.drop_first())
    }
}

/// Conversion returns exactly the conversions of the well-formed entries
/// of the batch, in reversed relative order; malformed entries have no
/// other effect on the result.
pub proof fn lemma_convert_reversed_keeps_valid(s: Seq<Seq<char>>)
    ensures
        convert_reversed_spec(s) == well_formed_only(s).map_values(
            |x: Seq<char>| converted_one(x),
        ).reverse(),
    decreases s.len(),
{
    let f = |x: Seq<char>| converted_one(x);
    if s.len() == 0 {
        assert(convert_reversed_spec(s) =~= well_formed_only(s).map_values(f).reverse());
    } else {
        let d = s.drop_first();
        lemma_convert_reversed_keeps_valid(d);
        let vm = well_formed_only(d).map_values(f);
        if ulid_decode(s.first()) is Some {
            assert(well_formed_only(s) =~= seq![s.first()] + well_formed_only(d));
            assert(well_formed_only(s).map_values(f) =~= seq![f(s.first())] + vm);
            assert((seq![f(s.first())] + vm).reverse() =~= vm.reverse() + seq![f(s.first())]);
            assert(convert_reversed_spec(s) == convert_reversed_spec(d) + seq![
                uuid_hyphenated(ulid_decode(s.first())->0),
            ]);
            assert(convert_reversed_spec(s) =~= well_formed_only(s).map_values(f).reverse());
        } else {
            assert(well_formed_only(s) =~= well_formed_only(d));
            assert(convert_reversed_spec(s) =~= convert_reversed_spec(d));
        }
    }
}

proof fn lemma_well_formed_only_all_valid(s: Seq<Seq<char>>)
    requires
        all_valid(s),
    ensures
        well_formed_only(s) == s,
    decreases s.len(),
{
    if s.len() == 0 {
        assert(well_formed_only(s) =~= s);
    } else {
        let d = s.drop_first();
        assert forall|j: int| 0 <= j < d.len() implies (#[trigger] ulid_decode(d[j])) is Some by {
            assert(d[j] == s[j + 1]);
            assert(ulid_decode(s[j + 1]) is Some);
        }
        lemma_well_formed_only_all_valid(d);
        assert(ulid_decode(s[0]) is Some);
        assert(well_formed_only(s) =~= s);
    }
}

/// On a batch of only well-formed identifiers, conversion returns every
/// entry's conversion, in exactly reversed order.
pub proof fn lemma_convert_reversed_all_valid(s: Seq<Seq<char>>)
    requires
        all_valid(s),
    ensures
        convert_reversed_spec(s) == s.map_values(|x: Seq<char>| converted_one(x)).reverse(),
{
    lemma_convert_reversed_keeps_valid(s);
    lemma_well_formed_only_all_valid(s);
}

/// The target weekday can change only the weekday count: the holiday,
/// future-dated and low-bit counts owed for a batch are the same whatever
/// weekday is asked about.
pub proof fn lemma_weekday_changes_only_weekday_count(
    dec: Seq<u128>,
    w1: u8,
    w2: u8,
    now_ms: i64,
)
    ensures
        batch_counts(dec, w1, now_ms).christmas_eve == batch_counts(dec, w2, now_ms).christmas_eve,
        batch_counts(dec, w1, now_ms).in_the_future == batch_counts(dec, w2, now_ms).in_the_future,
        batch_counts(dec, w1, now_ms).lsb_is_1 == batch_counts(dec, w2, now_ms).lsb_is_1,
{
}

} // verus!
