use vstd::prelude::*;

use crate::decimal::{decimal_of, lemma_decimal_injective, lemma_parse_decimal, parse_u64_spec};
use crate::file::{
    canonical_keys, is_latest_key, latest_of, lemma_latest_key_unique, next_file, reuses,
};

verus! {

/// The newest file after a sequence of updates `(entity id, payload, time)`,
/// each writing the file that `next_file` gives.
pub open spec fn run_updates<T>(
    window: u64,
    start: Option<(u64, Map<Seq<char>, Map<Seq<char>, T>>)>,
    updates: Seq<(Seq<char>, T, u64)>,
) -> Option<(u64, Map<Seq<char>, Map<Seq<char>, T>>)>
    decreases updates.len(),
{
    if updates.len() == 0 {
        start
    } else {
        let u = updates.last();
        Some(next_file(window, run_updates(window, start, updates.drop_last()), u.0, u.1, u.2))
    }
}

/// Updates with distinct entity ids and strictly increasing times.
pub open spec fn distinct_ids_increasing_times<T>(updates: Seq<(Seq<char>, T, u64)>) -> bool {
    &&& forall|i: int, j: int|
        0 <= i < updates.len() && 0 <= j < updates.len() && i != j ==> #[trigger] updates[i].0
            != #[trigger] updates[j].0
    &&& forall|i: int, j: int|
        0 <= i < j < updates.len() ==> #[trigger] updates[i].2 < #[trigger] updates[j].2
}

proof fn lemma_latest_is<T>(log: Map<Seq<char>, Map<Seq<char>, T>>, k: Seq<char>)
    requires
        canonical_keys(log),
        is_latest_key(log, k),
        log.dom().finite(),
    ensures
        latest_of(log) == log[k],
{
    assert(log.len() != 0) by {
        assert(log.dom().contains(k));
        vstd::set_lib::lemma_set_empty_equivalency_len(log.dom());
    }
    let c = choose|c: Seq<char>| is_latest_key(log, c);
    lemma_latest_key_unique(log, k, c);
}

proof fn lemma_accumulation_prefix<T>(
    window: u64,
    updates: Seq<(Seq<char>, T, u64)>,
    m: int,
)
    requires
        1 <= m <= updates.len(),
        distinct_ids_increasing_times(updates),
        (updates.last().2 as int) - (updates[0].2 as int) < (window as int),
    ensures
        ({
            let r = run_updates(window, None, updates.subrange(0, m));
            &&& r is Some
            &&& r.unwrap().0 == updates[0].2
            &&& canonical_keys(r.unwrap().1)
            &&& r.unwrap().1.dom().finite()
            &&& r.unwrap().1.len() == m
            &&& forall|k: Seq<char>| #[trigger]
                r.unwrap().1.contains_key(k) ==> exists|j: int|
                    0 <= j < m && k == decimal_of(#[trigger] updates[j].2 as nat)
            &&& is_latest_key(r.unwrap().1, decimal_of(updates[m - 1].2 as nat))
            &&& forall|k: Seq<char>| #[trigger]
                latest_of(r.unwrap().1).contains_key(k) ==> exists|j: int|
                    0 <= j < m && k == #[trigger] updates[j].0
            &&& forall|j: int|
                0 <= j < m ==> #[trigger] latest_of(r.unwrap().1).contains_key(updates[j].0)
                    && latest_of(r.unwrap().1)[updates[j].0] == updates[j].1
        }),
    decreases m,
{
    let p = updates.subrange(0, m);
    let u = updates[m - 1];
    let key = decimal_of(u.2 as nat);
    lemma_parse_decimal(u.2);
    assert(p.last() == u);
    assert(p.drop_last() =~= updates.subrange(0, m - 1));
    if m == 1 {
        assert(run_updates(window, None, p.drop_last()) == None::<
            (u64, Map<Seq<char>, Map<Seq<char>, T>>),
        >);
        let log = map![key => map![u.0 => u.1]];
        assert(run_updates(window, None, p) == Some((u.2, log)));
        assert(log.dom() =~= set![key]);
        assert(canonical_keys(log));
        assert(is_latest_key(log, key));
        lemma_latest_is(log, key);
        assert(log.contains_key(key) ==> exists|j: int|
            0 <= j < m && key == decimal_of(#[trigger] updates[j].2 as nat));
    } else {
        lemma_accumulation_prefix(window, updates, m - 1);
        let prev = run_updates(window, None, updates.subrange(0, m - 1)).unwrap();
        let old_log = prev.1;
        let t0 = updates[0].2;
        assert(updates[0].2 < u.2);
        assert(u.2 <= updates.last().2) by {
            if m - 1 < updates.len() - 1 {
                assert(updates[m - 1].2 < updates[updates.len() - 1].2);
            }
        }
        assert(reuses(window, t0, u.2));
        let base = latest_of(old_log).insert(u.0, u.1);
        let log = old_log.insert(key, base);
        assert(run_updates(window, None, p) == Some((t0, log)));
        assert(!old_log.contains_key(key)) by {
            if old_log.contains_key(key) {
                let j = choose|j: int| 0 <= j < m - 1 && key == decimal_of(#[trigger] updates[j].2 as nat);
                assert(updates[j].2 < u.2);
                lemma_decimal_injective(updates[j].2, u.2);
            }
        }
        assert(canonical_keys(log));
        assert(is_latest_key(log, key)) by {
            assert forall|k: Seq<char>| #[trigger] log.contains_key(k) implies parse_u64_spec(
                k,
            ).is_some() && parse_u64_spec(k).unwrap() <= parse_u64_spec(key).unwrap() by {
                if k != key {
                    let j = choose|j: int| 0 <= j < m - 1 && k == decimal_of(#[trigger] updates[j].2 as nat);
                    lemma_parse_decimal(updates[j].2);
                    assert(updates[j].2 < u.2);
                }
            }
        }
        lemma_latest_is(log, key);
        assert forall|k: Seq<char>| #[trigger] log.contains_key(k) implies exists|j: int|
            0 <= j < m && k == decimal_of(#[trigger] updates[j].2 as nat) by {
            if k == key {
                assert(k == decimal_of(updates[m - 1].2 as nat));
            } else {
                let j = choose|j: int| 0 <= j < m - 1 && k == decimal_of(#[trigger] updates[j].2 as nat);
                assert(k == decimal_of(updates[j].2 as nat));
            }
        }
        assert forall|k: Seq<char>| #[trigger] latest_of(log).contains_key(k) implies exists|j: int|
            0 <= j < m && k == #[trigger] updates[j].0 by {
            if k == u.0 {
                assert(k == updates[m - 1].0);
            } else {
                let j = choose|j: int| 0 <= j < m - 1 && k == #[trigger] updates[j].0;
                assert(k == updates[j].0);
            }
        }
        assert forall|j: int| 0 <= j < m implies #[trigger] latest_of(log).contains_key(
            updates[j].0,
        ) && latest_of(log)[updates[j].0] == updates[j].1 by {
            if j < m - 1 {
                assert(updates[j].0 != updates[m - 1].0);
            }
        }
    }
}

/// Accumulation: starting from an empty directory, updates with distinct
/// entity ids and increasing times that all fall within one window from the
/// first write to a single file, which then holds one batch per update; its
/// latest entity map holds exactly the updated entities, each with its
/// payload.
pub proof fn lemma_accumulation<T>(window: u64, updates: Seq<(Seq<char>, T, u64)>)
    requires
        updates.len() > 0,
        distinct_ids_increasing_times(updates),
        (updates.last().2 as int) - (updates[0].2 as int) < (window as int),
    ensures
        ({
            let r = run_updates(window, None, updates);
            &&& r is Some
            &&& r.unwrap().0 == updates[0].2
            &&& r.unwrap().1.len() == updates.len()
            &&& forall|k: Seq<char>| #[trigger]
                latest_of(r.unwrap().1).contains_key(k) ==> exists|j: int|
                    0 <= j < updates.len() && k == #[trigger] updates[j].0
            &&& forall|j: int|
                0 <= j < updates.len() ==> #[trigger] latest_of(r.unwrap().1).contains_key(
                    updates[j].0,
                ) && latest_of(r.unwrap().1)[updates[j].0] == updates[j].1
        }),
{
    lemma_accumulation_prefix(window, updates, updates.len() as int);
    assert(updates.subrange(0, updates.len() as int) =~= updates);
}

/// Rotation carries state forward: once the newest file is at least a window
/// old, an update starts a file at `now` whose one batch is the old latest
/// entity map with only the updated entity changed.
pub proof fn lemma_rotation<T>(
    window: u64,
    file_time: u64,
    log: Map<Seq<char>, Map<Seq<char>, T>>,
    entity_id: Seq<char>,
    payload: T,
    now: u64,
)
    requires
        (now as int) - (file_time as int) >= (window as int),
    ensures
        next_file(window, Some((file_time, log)), entity_id, payload, now) == (
            now,
            map![decimal_of(now as nat) => latest_of(log).insert(entity_id, payload)],
        ),
        forall|k: Seq<char>|
            k != entity_id ==> (#[trigger] latest_of(log).insert(entity_id, payload).contains_key(k)
                <==> latest_of(log).contains_key(k)) && (latest_of(log).contains_key(k)
                ==> latest_of(log).insert(entity_id, payload)[k] == latest_of(log)[k]),
{
}

/// The file that an update writes has canonical keys wherever the newest file
/// had them: its keys stay decimal spellings of timestamps.
pub proof fn lemma_next_file_canonical<T>(
    window: u64,
    newest: Option<(u64, Map<Seq<char>, Map<Seq<char>, T>>)>,
    entity_id: Seq<char>,
    payload: T,
    now: u64,
)
    requires
        newest is Some ==> canonical_keys(newest.unwrap().1),
    ensures
        canonical_keys(next_file(window, newest, entity_id, payload, now).1),
{
    lemma_parse_decimal(now);
}

} // verus!
