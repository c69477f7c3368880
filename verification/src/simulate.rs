use vstd::prelude::*;

use crate::cli::{PolicyKind, SimulateOptions};
use crate::flash::fresh_flash;
use crate::metrics::Metrics;
use crate::policy::{
    run_to_end, runs_to_end, stops_early, CachePolicy, DramLruCache, DramState, FlashieldConfig,
    FlashieldLiteCache, NaiveFlashCache, NaiveState,
};
use crate::flashield::FlashieldState;
use crate::trace::TraceEvent;

verus! {

/// What a run from `p0` and zero counters over `events` gives: the final counters when
/// it gets to its end, "counter overflow" when it cannot.
pub open spec fn run_outcome<P: CachePolicy>(
    p0: P,
    events: Seq<TraceEvent>,
    r: Result<Metrics, String>,
) -> bool {
    match r {
        Ok(m) => runs_to_end(p0, Metrics::zero(), events, m),
        Err(e) => e@ == "counter overflow"@ && stops_early(p0, Metrics::zero(), events),
    }
}

/// The Flashield-lite configuration that `options` give.
pub open spec fn flashield_config(options: SimulateOptions) -> FlashieldConfig {
    FlashieldConfig {
        dram_capacity: options.dram_capacity,
        flash_capacity: options.flash_capacity,
        segment_size: options.segment_size,
        min_reads: options.min_reads,
        max_updates: options.max_updates,
        min_age: options.min_age,
    }
}

/// Builds the policy that `kind` names from `options`, replays `events` with it from
/// zero counters and ends the run. The learned policy is not among them.
pub fn simulate_trace(
    kind: PolicyKind,
    options: &SimulateOptions,
    events: &Vec<TraceEvent>,
) -> (r: Result<Metrics, String>)
    requires
        kind != PolicyKind::FlashieldMl,
        kind != PolicyKind::DramLru ==> options.segment_size > 0,
    ensures
        kind == PolicyKind::DramLru ==> exists|p0: DramLruCache|
            #![trigger run_outcome(p0, events@, r)]
            p0.inv() && p0@ == (DramState {
                capacity: options.dram_capacity,
                entries: Seq::empty(),
            }) && run_outcome(p0, events@, r),
        kind == PolicyKind::NaiveFlash ==> exists|p0: NaiveFlashCache|
            #![trigger run_outcome(p0, events@, r)]
            p0.inv() && p0@ == (NaiveState {
                dram_capacity: options.dram_capacity,
                dram: Seq::empty(),
                flash: fresh_flash(options.flash_capacity, options.segment_size),
            }) && run_outcome(p0, events@, r),
        kind == PolicyKind::FlashieldLite ==> exists|p0: FlashieldLiteCache|
            #![trigger run_outcome(p0, events@, r)]
            p0.inv() && p0@ == (FlashieldState {
                config: flashield_config(*options),
                dram: Seq::empty(),
                flash: fresh_flash(options.flash_capacity, options.segment_size),
            }) && run_outcome(p0, events@, r),
{
    let mut metrics = Metrics::default();
    match kind {
        PolicyKind::DramLru => {
            let mut cache = DramLruCache::new(options.dram_capacity);
            let ghost p0 = cache;
            let r = run_to_end(&mut cache, events, &mut metrics);
            assert(p0@ == (DramState { capacity: options.dram_capacity, entries: Seq::empty() }));
            match r {
                Ok(()) => {
                    assert(run_outcome(p0, events@, Ok::<Metrics, String>(metrics)));
                    Ok(metrics)
                },
                Err(e) => {
                    assert(run_outcome(p0, events@, Err::<Metrics, String>(e)));
                    Err(e)
                },
            }
        },
        PolicyKind::NaiveFlash => {
            let mut cache = NaiveFlashCache::new(
                options.dram_capacity,
                options.flash_capacity,
                options.segment_size,
            );
            let ghost p0 = cache;
            let r = run_to_end(&mut cache, events, &mut metrics);
            assert(p0@ =~= (NaiveState {
                dram_capacity: options.dram_capacity,
                dram: Seq::empty(),
                flash: fresh_flash(options.flash_capacity, options.segment_size),
            }));
            match r {
                Ok(()) => {
                    assert(run_outcome(p0, events@, Ok::<Metrics, String>(metrics)));
                    Ok(metrics)
                },
                Err(e) => {
                    assert(run_outcome(p0, events@, Err::<Metrics, String>(e)));
                    Err(e)
                },
            }
        },
        _ => {
            let config = FlashieldConfig {
                dram_capacity: options.dram_capacity,
                flash_capacity: options.flash_capacity,
                segment_size: options.segment_size,
                min_reads: options.min_reads,
                max_updates: options.max_updates,
                min_age: options.min_age,
            };
            let mut cache = FlashieldLiteCache::new(config);
            let ghost p0 = cache;
            let r = run_to_end(&mut cache, events, &mut metrics);
            assert(p0@ =~= (FlashieldState {
                config: flashield_config(*options),
                dram: Seq::empty(),
                flash: fresh_flash(options.flash_capacity, options.segment_size),
            }));
            match r {
                Ok(()) => {
                    assert(run_outcome(p0, events@, Ok::<Metrics, String>(metrics)));
                    Ok(metrics)
                },
                Err(e) => {
                    assert(run_outcome(p0, events@, Err::<Metrics, String>(e)));
                    Err(e)
                },
            }
        },
    }
}

} // verus!
