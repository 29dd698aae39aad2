//! The room server's choices about what a snapshot carries and what the room
//! keeps: when a snapshot is due, which feature sections it includes, which
//! rows are fresh enough to send, in what order and how many, and which row
//! is evicted when a collection outgrows its limit.

use vstd::prelude::*;

verus! {

/// Simulation steps between two periodic snapshots.
pub const SNAPSHOT_INTERVAL_TICKS: u64 = 3;
/// Most structures a room keeps and a snapshot lists.
pub const MAX_STRUCTURES: usize = 1024;
/// Most projectiles a room keeps and a snapshot lists.
pub const MAX_PROJECTILES: usize = 4096;
/// Most build previews a snapshot lists.
pub const MAX_PREVIEWS: usize = 256;
/// Age after which a build preview is stale, in milliseconds.
pub const BUILD_PREVIEW_STALE_MS: i64 = 15000;

/// A snapshot is sent on every third tick, and on any tick where something
/// changed.
pub fn snapshot_due(tick: u64, dirty: bool) -> (due: bool)
    ensures
        due == (tick % SNAPSHOT_INTERVAL_TICKS == 0 || dirty),
{
    tick % SNAPSHOT_INTERVAL_TICKS == 0 || dirty
}

/// The feature sections a snapshot carries besides movement and terrain,
/// which it always carries.
#[derive(Debug, Clone, Copy, PartialEq, Eq, Structural)]
pub struct SnapshotSections {
    pub presence: bool,
    pub build: bool,
    pub projectiles: bool,
    pub inventory: bool,
    pub mining: bool,
    pub crafting: bool,
    pub combat: bool,
    pub character: bool,
}

/// A full snapshot carries every section; a delta carries presence and
/// character when presence changed, build when structures or previews
/// changed, and projectiles when they changed.
pub fn snapshot_sections(
    full: bool,
    dirty_presence: bool,
    dirty_build: bool,
    dirty_projectiles: bool,
) -> (sections: SnapshotSections)
    ensures
        sections == (SnapshotSections {
            presence: full || dirty_presence,
            build: full || dirty_build,
            projectiles: full || dirty_projectiles,
            inventory: full,
            mining: full,
            crafting: full,
            combat: full,
            character: full || dirty_presence,
        }),
{
    SnapshotSections {
        presence: full || dirty_presence,
        build: full || dirty_build,
        projectiles: full || dirty_projectiles,
        inventory: full,
        mining: full,
        crafting: full,
        combat: full,
        character: full || dirty_presence,
    }
}

/// A build preview is kept while it was updated at most 15 seconds before `now`.
pub fn preview_retained(updated_at: i64, now: i64) -> (kept: bool)
    ensures
        kept == (updated_at >= now - BUILD_PREVIEW_STALE_MS),
{
    (updated_at as i128) >= (now as i128) - (BUILD_PREVIEW_STALE_MS as i128)
}

/// A build preview is sent while it was updated less than 15 seconds before `now`.
pub fn preview_fresh(updated_at: i64, now: i64) -> (fresh: bool)
    ensures
        fresh == (updated_at > now - BUILD_PREVIEW_STALE_MS),
{
    (updated_at as i128) > (now as i128) - (BUILD_PREVIEW_STALE_MS as i128)
}

/// Row `a` comes before row `b` when it is newer, or as new and earlier in
/// the input.
pub open spec fn newer_first(stamps: Seq<i64>, a: int, b: int) -> bool {
    stamps[a] > stamps[b] || (stamps[a] == stamps[b] && a < b)
}

/// `order` lists eligible rows, each once, newest first (rows equally new in
/// input order), and every eligible row it leaves out comes after all that
/// it lists.
pub open spec fn is_newest_first(stamps: Seq<i64>, eligible: Seq<bool>, order: Seq<usize>) -> bool {
    &&& forall|i: int| 0 <= i < order.len() ==> #[trigger] order[i] < stamps.len() && eligible[order[i] as int]
    &&& forall|i: int, j: int|
        0 <= i < j < order.len() ==> newer_first(stamps, #[trigger] order[i] as int, #[trigger] order[j] as int)
    &&& forall|k: int, i: int|
        #![trigger eligible[k], order[i]]
        0 <= k < stamps.len() && eligible[k] && !order.contains(k as usize) && 0 <= i < order.len()
            ==> newer_first(stamps, order[i] as int, k)
}

/// The indices of the eligible rows, newest first (see [`is_newest_first`]):
/// all of them, or the first `limit` when there are more.
pub fn newest_first(stamps: &[i64], eligible: &[bool], limit: usize) -> (order: Vec<usize>)
    requires
        stamps@.len() == eligible@.len(),
    ensures
        is_newest_first(stamps@, eligible@, order@),
        order@.len() <= limit,
        order@.len() == limit || forall|k: int|
            0 <= k < stamps@.len() && eligible@[k] ==> #[trigger] order@.contains(k as usize),
{
    let n = stamps.len();
    let mut chosen: Vec<bool> = Vec::new();
    let mut c: usize = 0;
    while c < n
        invariant
            c <= n,
            n == stamps@.len(),
            chosen@.len() == c,
            forall|k: int| 0 <= k < c ==> !chosen@[k],
        decreases n - c,
    {
        chosen.push(false);
        c += 1;
    }
    let mut order: Vec<usize> = Vec::new();
    loop
        invariant
            n == stamps@.len(),
            n == eligible@.len(),
            chosen@.len() == n,
            forall|k: int| 0 <= k < n ==> (#[trigger] chosen@[k] <==> order@.contains(k as usize)),
            is_newest_first(stamps@, eligible@, order@),
            order@.len() <= limit,
            forall|i: int, j: int| 0 <= i < j < order@.len() ==> #[trigger] order@[i] != #[trigger] order@[j],
        ensures
            is_newest_first(stamps@, eligible@, order@),
            order@.len() <= limit,
            order@.len() == limit || forall|k: int|
                0 <= k < stamps@.len() && eligible@[k] ==> #[trigger] order@.contains(k as usize),
        decreases limit - order@.len(),
    {
        if order.len() >= limit {
            break;
        }
        let mut best: Option<usize> = None;
        let mut k: usize = 0;
        while k < n
            invariant
                k <= n,
                n == stamps@.len(),
                n == eligible@.len(),
                chosen@.len() == n,
                best matches Some(b) ==> b < k && eligible@[b as int] && !chosen@[b as int],
                forall|m: int|
                    0 <= m < k && eligible@[m] && !chosen@[m] ==> (best matches Some(b) && (b == m
                        || newer_first(stamps@, b as int, m))),
            decreases n - k,
        {
            if eligible[k] && !chosen[k] {
                match best {
                    None => {
                        best = Some(k);
                    },
                    Some(b) => {
                        if stamps[k] > stamps[b] {
                            best = Some(k);
                        }
                    },
                }
            }
            k += 1;
        }
        match best {
            None => {
                proof {
                    assert forall|m: int| 0 <= m < stamps@.len() && eligible@[m] implies #[trigger] order@.contains(
                        m as usize,
                    ) by {
                        if !order@.contains(m as usize) {
                            assert(!chosen@[m]);
                        }
                    }
                }
                break;
            },
            Some(b) => {
                let ghost before = order@;
                let ghost chosen_before = chosen@;
                order.push(b);
                chosen.set(b, true);
                proof {
                    assert(!before.contains(b));
                    assert forall|x: int| 0 <= x < n implies (#[trigger] chosen@[x] <==> order@.contains(x as usize)) by {
                        if order@.contains(x as usize) && x != b {
                            let w = choose|w: int| 0 <= w < order@.len() && order@[w] == x as usize;
                            assert(w < before.len());
                            assert(before.contains(x as usize));
                        }
                        if before.contains(x as usize) {
                            let w = choose|w: int| 0 <= w < before.len() && before[w] == x as usize;
                            assert(order@[w] == x as usize);
                        }
                        if x == b {
                            assert(order@[before.len() as int] == b);
                        }
                    }
                    assert forall|i: int, j: int| 0 <= i < j < order@.len() implies newer_first(
                        stamps@,
                        #[trigger] order@[i] as int,
                        #[trigger] order@[j] as int,
                    ) by {
                        if j == before.len() {
                            assert(order@[i] == before[i]);
                        } else {
                            assert(order@[i] == before[i] && order@[j] == before[j]);
                        }
                    }
                    assert forall|i: int, j: int| 0 <= i < j < order@.len() implies #[trigger] order@[i]
                        != #[trigger] order@[j] by {
                        if j == before.len() {
                            assert(order@[i] == before[i]);
                            assert(before.contains(before[i]));
                        } else {
                            assert(order@[i] == before[i] && order@[j] == before[j]);
                        }
                    }
                    assert forall|m: int, i: int|
                        #![trigger eligible@[m], order@[i]]
                        0 <= m < stamps@.len() && eligible@[m] && !order@.contains(m as usize) && 0 <= i
                            < order@.len() implies newer_first(stamps@, order@[i] as int, m) by {
                        assert(!chosen@[m]);
                        assert(m != b);
                        assert(!chosen_before[m]);
                        if i < before.len() {
                            assert(order@[i] == before[i]);
                            assert(!before.contains(m as usize)) by {
                                if before.contains(m as usize) {
                                    let w = choose|w: int| 0 <= w < before.len() && before[w] == m as usize;
                                    assert(order@[w] == m as usize);
                                }
                            }
                        } else {
                            assert(order@[i] == b);
                        }
                    }
                }
            },
        }
    }
    order
}

/// The first row with the smallest stamp, which a full collection evicts.
pub fn oldest_index(stamps: &[i64]) -> (oldest: Option<usize>)
    ensures
        oldest is None <==> stamps@.len() == 0,
        oldest matches Some(i) ==> {
            &&& i < stamps@.len()
            &&& forall|j: int| 0 <= j < stamps@.len() ==> stamps@[i as int] <= #[trigger] stamps@[j]
            &&& forall|j: int| 0 <= j < i ==> stamps@[i as int] < #[trigger] stamps@[j]
        },
{
    if stamps.len() == 0 {
        return None;
    }
    let mut best: usize = 0;
    let mut k: usize = 1;
    while k < stamps.len()
        invariant
            1 <= k <= stamps@.len(),
            best < k,
            forall|j: int| 0 <= j < k ==> stamps@[best as int] <= #[trigger] stamps@[j],
            forall|j: int| 0 <= j < best ==> stamps@[best as int] < #[trigger] stamps@[j],
        decreases stamps@.len() - k,
    {
        if stamps[k] < stamps[best] {
            best = k;
        }
        k += 1;
    }
    Some(best)
}

} // verus!
