//! Verified end-to-end scenarios: whole-tick runs of the scheduler,
//! proved rather than executed.  Verus checks each call here against the
//! library's contracts alone, so these functions demonstrate that the
//! contracts compose across calls: a first sighting followed by a first
//! diff, and two documents of one tick sharing one event.

use vstd::prelude::*;

use crate::store::Store;
use crate::watcher::observe_file;
use crate::watcher::FileCache;
use crate::watcher::SingletonMarker;
use crate::watcher::TickEvent;
use crate::watcher::TickOutcome;
use crate::types::CodemkinError;

verus! {

/// One repository over two ticks: the first tick baselines two files
/// without writing rows or events; in the second tick both files changed,
/// the first change lazily creates the tick's one event, the second
/// change reuses it.
fn scenario_two_ticks_two_documents() {
    let mut store = Store::new();
    proof { reveal_strlit("/r"); reveal_strlit("/r/a"); reveal_strlit("/r/b"); reveal_strlit("a"); reveal_strlit("b"); reveal_strlit("x\n"); reveal_strlit("y\n"); reveal_strlit("z\n"); }
    let repo = match store.add_repository("/r") { Ok(i) => i, Err(_) => { proof { assert(false); } 0 } };
    let mut tick = TickEvent::new(repo);
    let empty = FileCache::new();
    let mut cache = FileCache::new();
    let r1 = observe_file(&mut store, &mut tick, &empty, &mut cache, "a", "/r/a", "x\n", 1, 1);
    assert(r1 == Ok::<TickOutcome, CodemkinError>(TickOutcome::Baselined));
    proof {
        assert("/r/a"@[3] != "/r/b"@[3]);
        assert(cache.entries@[0].path@ == "/r/a"@);
        assert(!cache.has("/r/b"@));
        let w = store.document_index(repo, "/r/a"@);
        assert(0 <= w < store.documents@.len());
        assert(store.documents@.len() == 1);
        assert(store.documents@[0].canonical_path@ == "/r/a"@);
        assert(!store.has_document(repo, "/r/b"@));
    }
    let r2 = observe_file(&mut store, &mut tick, &empty, &mut cache, "b", "/r/b", "y\n", 1, 1);
    assert(r2 == Ok::<TickOutcome, CodemkinError>(TickOutcome::Baselined));
    assert(store.events@.len() == 0);
    assert(store.changes@.len() == 0);

    let mut tick2 = TickEvent::new(repo);
    let mut cache2 = FileCache::new();
    proof {
        assert(cache.entries@[0].path@ == "/r/a"@);
        assert(cache.has("/r/a"@));
        let w = cache.index_of("/r/a"@);
        assert(0 <= w < cache.entries@.len() && cache.entries@[w].path@ == "/r/a"@);
        assert(w == 0);
        assert(cache.file_of("/r/a"@).content@ == "x\n"@);
        assert("x\n"@[0] != "z\n"@[0]);
    }
    let r3 = observe_file(&mut store, &mut tick2, &cache, &mut cache2, "a", "/r/a", "z\n", 2, 2);
    assert(r3 == Ok::<TickOutcome, CodemkinError>(TickOutcome::Diffed));
    proof {
        assert("/r/a"@[3] != "/r/b"@[3]);
        assert(cache2.entries@[0].path@ == "/r/a"@);
        assert(!cache2.has("/r/b"@));
        assert(cache.entries@[1].path@ == "/r/b"@);
        assert(cache.has("/r/b"@));
        let w = cache.index_of("/r/b"@);
        assert(0 <= w < cache.entries@.len() && cache.entries@[w].path@ == "/r/b"@);
        assert(w == 1);
        assert(cache.file_of("/r/b"@).content@ == "y\n"@);
        assert("y\n"@[0] != "z\n"@[0]);
    }
    let r4 = observe_file(&mut store, &mut tick2, &cache, &mut cache2, "b", "/r/b", "z\n", 2, 2);
    assert(r4 == Ok::<TickOutcome, CodemkinError>(TickOutcome::Diffed));
    // one event for the tick; both changes reference it
    assert(store.events@.len() == 1);
    assert(store.changes@.len() == 2);
    assert(tick2.event_id matches Some(e) && store.changes@[0]@.event_id == e
        && store.changes@[1]@.event_id == e);
}

/// A stop that arrives while a tick is underway: the tick's observation
/// still lands in the log, and the next tick-start check of the marker
/// ends the loop.
fn scenario_stop_mid_tick() {
    let mut store = Store::new();
    proof {
        reveal_strlit("/r");
        reveal_strlit("/r/a");
        reveal_strlit("a");
        reveal_strlit("x\n");
        reveal_strlit("z\n");
    }
    let repo = match store.add_repository("/r") {
        Ok(i) => i,
        Err(_) => {
            proof {
                assert(false);
            }
            0
        },
    };
    let mut marker = SingletonMarker::new(None);
    let started = marker.start(7);
    assert(started == Ok::<u32, CodemkinError>(7));

    let empty = FileCache::new();
    let mut tick = TickEvent::new(repo);
    let mut cache = FileCache::new();
    let r1 = observe_file(&mut store, &mut tick, &empty, &mut cache, "a", "/r/a", "x\n", 1, 1);
    assert(r1 == Ok::<TickOutcome, CodemkinError>(TickOutcome::Baselined));

    // The next tick begins while the marker exists; `stop` then lands
    // mid-tick.
    let running = marker.should_continue();
    assert(running);
    let mut tick2 = TickEvent::new(repo);
    let mut cache2 = FileCache::new();
    let removed = marker.stop();
    assert(removed);
    proof {
        assert(cache.entries@[0].path@ == "/r/a"@);
        assert(cache.has("/r/a"@));
        let w = cache.index_of("/r/a"@);
        assert(0 <= w < cache.entries@.len() && cache.entries@[w].path@ == "/r/a"@);
        assert(w == 0);
        assert(cache.file_of("/r/a"@).content@ == "x\n"@);
        assert("x\n"@[0] != "z\n"@[0]);
    }
    let r2 = observe_file(&mut store, &mut tick2, &cache, &mut cache2, "a", "/r/a", "z\n", 2, 2);
    assert(r2 == Ok::<TickOutcome, CodemkinError>(TickOutcome::Diffed));
    assert(store.changes@.len() == 1);
    // At the next tick-start check the marker is gone: the loop ends.
    let still_running = marker.should_continue();
    assert(!still_running);
}

} // verus!
