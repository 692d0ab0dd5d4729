//! The state of a simulated pipeline in one cycle, read from what its
//! probes reported.
//!
//! A probe in the `Fifo` role reports in every cycle with two bytes, "not
//! full" and "not empty". A probe in the `Fired` role reports with one byte,
//! and only in the cycles in which its rule fired. The cycle that is
//! sampled is the least cycle among the oldest messages of the `Fifo`
//! probes. The probes are visited in the order in which they were listed,
//! first those of the `Fifo` role and then those of the `Fired` role, and
//! from each probe whose oldest message is of the sampled cycle that
//! message is taken. A message of the wrong width stops the sampling where
//! it is found.

use crate::inbox::Inbox;
use crate::join::at_cycle;
use crate::message::SimToHost;
use vstd::prelude::*;

verus! {

/// The bytes of a `Fifo` probe's report.
pub const FIFO_REPORT_BYTES: usize = 2;

/// The bytes of a `Fired` probe's report.
pub const FIRED_REPORT_BYTES: usize = 1;

/// The role of a probe in the classification of a pipeline's state.
///
/// - `Fifo`: reports two bytes in every cycle, the first "not full", the
///   second "not empty"
/// - `Fired`: reports one byte in each cycle in which its rule fired
#[derive(Clone, Copy, Debug, PartialEq, Eq, Hash, Structural)]
pub enum ProbeType {
    Fifo,
    Fired,
}

/// The pipeline's state in one cycle.
///
/// - `cycle`: the cycle of the state
/// - `full_fifos`: the ids of the fifos that were full
/// - `empty_fifos`: the ids of the fifos that were empty
/// - `fire_rules`: the ids of the rules that fired
#[derive(Debug)]
pub struct PipeLineState {
    pub cycle: u32,
    pub full_fifos: Vec<u32>,
    pub empty_fifos: Vec<u32>,
    pub fire_rules: Vec<u32>,
}

/// Model of a pipeline's state in one cycle.
pub struct PipelineSample {
    pub cycle: u32,
    pub full: Seq<u32>,
    pub empty: Seq<u32>,
    pub fired: Seq<u32>,
}

impl View for PipeLineState {
    type V = PipelineSample;

    open spec fn view(&self) -> PipelineSample {
        PipelineSample {
            cycle: self.cycle,
            full: self.full_fifos@,
            empty: self.empty_fifos@,
            fired: self.fire_rules@,
        }
    }
}

/// A probe reported with a payload that does not have the width of its
/// role: the probe's declared width and its role do not fit together.
#[derive(Clone, Copy, Debug, PartialEq, Eq, Structural)]
pub struct ProtocolAssertionError {
    /// The probe whose report has the wrong width.
    pub id: u32,
    /// The width that the probe's role asks for, in bytes.
    pub expected: usize,
    /// The width of the report, in bytes.
    pub found: usize,
}

/// Where a sampling stands: the queues, what has been classified, and the
/// fault that stopped it, if one did.
pub struct Sampling {
    pub queues: Map<u32, Seq<SimToHost>>,
    pub full: Seq<u32>,
    pub empty: Seq<u32>,
    pub fired: Seq<u32>,
    pub fault: Option<ProtocolAssertionError>,
}

impl Sampling {
    /// A sampling that has not visited any probe.
    pub open spec fn start(queues: Map<u32, Seq<SimToHost>>) -> Sampling {
        Sampling {
            queues,
            full: Seq::empty(),
            empty: Seq::empty(),
            fired: Seq::empty(),
            fault: None,
        }
    }

    /// The sampling stopped by a report of `found` bytes from `id` where
    /// `expected` were due.
    pub open spec fn stopped(self, id: u32, expected: usize, found: nat) -> Sampling {
        Sampling {
            queues: self.queues,
            full: self.full,
            empty: self.empty,
            fired: self.fired,
            fault: Some(ProtocolAssertionError { id, expected, found: found as usize }),
        }
    }

    /// The sampling after the `Fifo` probe `id` was visited: if its oldest
    /// message is of `cycle`, the message must be two bytes and is taken;
    /// the fifo is full if the first byte is zero, otherwise empty if the
    /// second is.
    pub open spec fn visit_fifo(self, id: u32, cycle: u32) -> Sampling {
        if !at_cycle(self.queues, id, cycle) {
            self
        } else {
            let report = self.queues[id][0].payload;
            if report.len() != FIFO_REPORT_BYTES {
                self.stopped(id, FIFO_REPORT_BYTES, report.len())
            } else {
                Sampling {
                    queues: self.queues.insert(id, self.queues[id].drop_first()),
                    full: if report[0] == 0 {
                        self.full.push(id)
                    } else {
                        self.full
                    },
                    empty: if report[0] != 0 && report[1] == 0 {
                        self.empty.push(id)
                    } else {
                        self.empty
                    },
                    fired: self.fired,
                    fault: None,
                }
            }
        }
    }

    /// The sampling after the `Fired` probe `id` was visited: if its oldest
    /// message is of `cycle`, the message must be one byte and is taken,
    /// and the rule has fired.
    pub open spec fn visit_rule(self, id: u32, cycle: u32) -> Sampling {
        if !at_cycle(self.queues, id, cycle) {
            self
        } else {
            let report = self.queues[id][0].payload;
            if report.len() != FIRED_REPORT_BYTES {
                self.stopped(id, FIRED_REPORT_BYTES, report.len())
            } else {
                Sampling {
                    queues: self.queues.insert(id, self.queues[id].drop_first()),
                    full: self.full,
                    empty: self.empty,
                    fired: self.fired.push(id),
                    fault: None,
                }
            }
        }
    }

    /// The sampling after the `Fifo` probes `ids` were visited in order, up
    /// to the first fault.
    pub open spec fn visit_fifos(self, ids: Seq<u32>, cycle: u32) -> Sampling
        decreases ids.len(),
    {
        if ids.len() == 0 || self.fault is Some {
            self
        } else {
            self.visit_fifo(ids[0], cycle).visit_fifos(ids.drop_first(), cycle)
        }
    }

    /// The sampling after the `Fired` probes `ids` were visited in order,
    /// up to the first fault.
    pub open spec fn visit_rules(self, ids: Seq<u32>, cycle: u32) -> Sampling
        decreases ids.len(),
    {
        if ids.len() == 0 || self.fault is Some {
            self
        } else {
            self.visit_rule(ids[0], cycle).visit_rules(ids.drop_first(), cycle)
        }
    }
}

/// Whether `cycle` is the least cycle among the oldest messages of the
/// probes `ids`.
pub open spec fn is_earliest_among(queues: Map<u32, Seq<SimToHost>>, ids: Seq<u32>, cycle: u32) -> bool {
    &&& exists|k: int| 0 <= k < ids.len() && at_cycle(queues, #[trigger] ids[k], cycle)
    &&& forall|k: int|
        0 <= k < ids.len() && queues[#[trigger] ids[k]].len() > 0 ==> queues[ids[k]][0].cycle
            >= cycle
}

/// The least cycle among the oldest messages of the probes `ids`, or `None`
/// if none of them has anything queued.
pub open spec fn earliest_among(queues: Map<u32, Seq<SimToHost>>, ids: Seq<u32>) -> Option<u32> {
    if exists|cycle: u32| is_earliest_among(queues, ids, cycle) {
        Some(choose|cycle: u32| is_earliest_among(queues, ids, cycle))
    } else {
        None
    }
}

/// The sampling of `cycle`: the `Fifo` probes are visited, then the `Fired`
/// probes.
pub open spec fn sampled(
    queues: Map<u32, Seq<SimToHost>>,
    fifos: Seq<u32>,
    rules: Seq<u32>,
    cycle: u32,
) -> Sampling {
    Sampling::start(queues).visit_fifos(fifos, cycle).visit_rules(rules, cycle)
}

/// Among given probes there is at most one earliest cycle.
pub proof fn earliest_among_is_unique(
    queues: Map<u32, Seq<SimToHost>>,
    ids: Seq<u32>,
    first: u32,
    second: u32,
)
    requires
        is_earliest_among(queues, ids, first),
        is_earliest_among(queues, ids, second),
    ensures
        first == second,
{
    let a = choose|k: int| 0 <= k < ids.len() && at_cycle(queues, #[trigger] ids[k], first);
    let b = choose|k: int| 0 <= k < ids.len() && at_cycle(queues, #[trigger] ids[k], second);
    assert(queues[ids[a]][0].cycle >= second);
    assert(queues[ids[b]][0].cycle >= first);
}

/// The least cycle among the oldest messages of the probes `ids`.
pub fn find_earliest_among(store: &Inbox, ids: &Vec<u32>) -> (earliest: Option<
    u32,
>)
    ensures
        earliest == earliest_among(store@, ids@),
{
    let mut earliest: Option<u32> = None;
    let ghost mut holder: int = 0;
    let mut i: usize = 0;
    while i < ids.len()
        invariant
            i <= ids.len(),
            earliest matches Some(cycle) ==> 0 <= holder < i && at_cycle(
                store@,
                ids@[holder],
                cycle,
            ),
            forall|k: int|
                0 <= k < i && store@[#[trigger] ids@[k]].len() > 0 ==> earliest is Some
                    && store@[ids@[k]][0].cycle >= earliest->Some_0,
        decreases ids.len() - i,
    {
        match store.front(ids[i]) {
            None => {},
            Some(message) => {
                let lower: bool = match earliest {
                    None => true,
                    Some(cycle) => message.cycles < cycle,
                };
                if lower {
                    earliest = Some(message.cycles);
                    proof {
                        holder = i as int;
                    }
                }
            },
        }
        i += 1;
    }
    proof {
        match earliest {
            None => {
                assert forall|cycle: u32| !is_earliest_among(store@, ids@, cycle) by {
                    if is_earliest_among(store@, ids@, cycle) {
                        let k = choose|k: int|
                            0 <= k < ids@.len() && at_cycle(store@, #[trigger] ids@[k], cycle);
                        assert(store@[ids@[k]].len() > 0);
                    }
                }
            },
            Some(cycle) => {
                assert(at_cycle(store@, ids@[holder], cycle));
                assert(is_earliest_among(store@, ids@, cycle));
                let chosen = choose|cycle: u32| is_earliest_among(store@, ids@, cycle);
                earliest_among_is_unique(store@, ids@, cycle, chosen);
            },
        }
    }
    earliest
}

/// A sampling that no fault has stopped.
pub open spec fn standing(
    queues: Map<u32, Seq<SimToHost>>,
    full: Seq<u32>,
    empty: Seq<u32>,
    fired: Seq<u32>,
) -> Sampling {
    Sampling { queues, full, empty, fired, fault: None }
}

/// Samples the cycle `cycle`: visits the `Fifo` probes `fifos` and then the
/// `Fired` probes `rules`, each list in order, and takes from each probe
/// the oldest message if it is of that cycle.
///
/// Fails at the first message that does not have the width of its probe's
/// role. That message stays queued; those taken before it are gone.
pub fn sample_at(
    store: &mut Inbox,
    fifos: &Vec<u32>,
    rules: &Vec<u32>,
    cycle: u32,
) -> (result: Result<PipeLineState, ProtocolAssertionError>)
    ensures
        final(store)@ == sampled(old(store)@, fifos@, rules@, cycle).queues,
        match result {
            Ok(state) => {
                let end = sampled(old(store)@, fifos@, rules@, cycle);
                &&& end.fault is None
                &&& state@ == (PipelineSample {
                    cycle,
                    full: end.full,
                    empty: end.empty,
                    fired: end.fired,
                })
            },
            Err(error) => sampled(old(store)@, fifos@, rules@, cycle).fault == Some(error),
        },
{
    let ghost initial = store@;
    let ghost begin = Sampling::start(initial);
    let mut full: Vec<u32> = Vec::new();
    let mut empty: Vec<u32> = Vec::new();
    let mut fired: Vec<u32> = Vec::new();
    let mut i: usize = 0;
    proof {
        assert(fifos@.subrange(0, fifos@.len() as int) =~= fifos@);
        assert(standing(store@, full@, empty@, fired@) == begin);
    }
    while i < fifos.len()
        invariant
            i <= fifos.len(),
            initial == old(store)@,
            begin == Sampling::start(initial),
            fired@ == Seq::<u32>::empty(),
            standing(store@, full@, empty@, fired@).visit_fifos(
                fifos@.subrange(i as int, fifos@.len() as int),
                cycle,
            ) == begin.visit_fifos(fifos@, cycle),
        decreases fifos.len() - i,
    {
        let id: u32 = fifos[i];
        let ghost now = standing(store@, full@, empty@, fired@);
        let ghost rest = fifos@.subrange(i as int, fifos@.len() as int);
        proof {
            assert(rest[0] == id);
            assert(rest.drop_first() =~= fifos@.subrange(i + 1, fifos@.len() as int));
        }
        let width: Option<usize> = match store.front(id) {
            Some(message) => if message.cycles == cycle {
                Some(message.message.len())
            } else {
                None
            },
            None => None,
        };
        match width {
            None => {},
            Some(found) => {
                if found != FIFO_REPORT_BYTES {
                    proof {
                        let halted = now.visit_fifo(id, cycle);
                        assert(halted.visit_fifos(rest.drop_first(), cycle) == halted);
                        assert(halted.visit_rules(rules@, cycle) == halted);
                    }
                    return Err(ProtocolAssertionError { id, expected: FIFO_REPORT_BYTES, found });
                }
                match store.pop_front(id) {
                    Some(message) => {
                        if message.message[0] == 0 {
                            full.push(id);
                        } else if message.message[1] == 0 {
                            empty.push(id);
                        }
                    },
                    None => {},
                }
            },
        }
        proof {
            assert(standing(store@, full@, empty@, fired@) == now.visit_fifo(id, cycle));
        }
        i += 1;
    }
    let ghost middle = standing(store@, full@, empty@, fired@);
    proof {
        assert(fifos@.subrange(i as int, fifos@.len() as int) =~= Seq::<u32>::empty());
        assert(middle == begin.visit_fifos(fifos@, cycle));
    }
    let mut j: usize = 0;
    proof {
        assert(rules@.subrange(0, rules@.len() as int) =~= rules@);
    }
    while j < rules.len()
        invariant
            j <= rules.len(),
            initial == old(store)@,
            middle == Sampling::start(initial).visit_fifos(fifos@, cycle),
            standing(store@, full@, empty@, fired@).visit_rules(
                rules@.subrange(j as int, rules@.len() as int),
                cycle,
            ) == middle.visit_rules(rules@, cycle),
        decreases rules.len() - j,
    {
        let id: u32 = rules[j];
        let ghost now = standing(store@, full@, empty@, fired@);
        let ghost rest = rules@.subrange(j as int, rules@.len() as int);
        proof {
            assert(rest[0] == id);
            assert(rest.drop_first() =~= rules@.subrange(j + 1, rules@.len() as int));
        }
        let width: Option<usize> = match store.front(id) {
            Some(message) => if message.cycles == cycle {
                Some(message.message.len())
            } else {
                None
            },
            None => None,
        };
        match width {
            None => {},
            Some(found) => {
                if found != FIRED_REPORT_BYTES {
                    proof {
                        let halted = now.visit_rule(id, cycle);
                        assert(halted.visit_rules(rest.drop_first(), cycle) == halted);
                    }
                    return Err(ProtocolAssertionError { id, expected: FIRED_REPORT_BYTES, found });
                }
                let _ = store.pop_front(id);
                fired.push(id);
            },
        }
        proof {
            assert(standing(store@, full@, empty@, fired@) == now.visit_rule(id, cycle));
        }
        j += 1;
    }
    proof {
        assert(rules@.subrange(j as int, rules@.len() as int) =~= Seq::<u32>::empty());
    }
    Ok(PipeLineState { cycle, full_fifos: full, empty_fifos: empty, fire_rules: fired })
}

/// Reads the pipeline's state in the earliest cycle that the `Fifo` probes
/// have reported and that is still queued.
///
/// - With nothing queued for any `Fifo` probe the state is not ready:
///   `Ok(None)`, and nothing is taken.
/// - Otherwise the cycle is the least among the `Fifo` probes' oldest
///   messages, and the result is that of sampling this cycle.
pub fn sample_pipeline(store: &mut Inbox, fifos: &Vec<u32>, rules: &Vec<u32>) -> (result:
    Result<Option<PipeLineState>, ProtocolAssertionError>)
    ensures
        match earliest_among(old(store)@, fifos@) {
            None => result == Ok::<Option<PipeLineState>, ProtocolAssertionError>(None)
                && final(store)@ == old(store)@,
            Some(cycle) => {
                let end = sampled(old(store)@, fifos@, rules@, cycle);
                &&& final(store)@ == end.queues
                &&& match result {
                    Ok(Some(state)) => {
                        &&& end.fault is None
                        &&& state@ == (PipelineSample {
                            cycle,
                            full: end.full,
                            empty: end.empty,
                            fired: end.fired,
                        })
                    },
                    Ok(None) => false,
                    Err(error) => end.fault == Some(error),
                }
            },
        },
{
    match find_earliest_among(store, fifos) {
        None => Ok(None),
        Some(cycle) => match sample_at(store, fifos, rules, cycle) {
            Ok(state) => Ok(Some(state)),
            Err(error) => Err(error),
        },
    }
}

/// A `Fifo` probe's report of the wrong width stops the visit of the `Fifo`
/// probes: if the oldest message of a listed probe is of the sampled cycle
/// and is not two bytes wide, the visit ends in a fault.
pub proof fn malformed_fifo_report_stops(standing: Sampling, ids: Seq<u32>, cycle: u32, k: int)
    requires
        0 <= k < ids.len(),
        at_cycle(standing.queues, ids[k], cycle),
        standing.queues[ids[k]][0].payload.len() != FIFO_REPORT_BYTES,
    ensures
        standing.visit_fifos(ids, cycle).fault is Some,
    decreases ids.len(),
{
    if standing.fault is None {
        let next = standing.visit_fifo(ids[0], cycle);
        if ids[0] == ids[k] {
            assert(next.visit_fifos(ids.drop_first(), cycle) == next);
        } else if next.fault is Some {
            assert(next.visit_fifos(ids.drop_first(), cycle) == next);
        } else {
            assert(next.queues[ids[k]] == standing.queues[ids[k]]);
            assert(ids.drop_first()[k - 1] == ids[k]);
            malformed_fifo_report_stops(next, ids.drop_first(), cycle, k - 1);
        }
    }
}

/// A `Fired` probe's report of the wrong width stops the visit of the
/// `Fired` probes: if the oldest message of a listed probe is of the
/// sampled cycle and is not one byte wide, the visit ends in a fault.
pub proof fn malformed_rule_report_stops(standing: Sampling, ids: Seq<u32>, cycle: u32, k: int)
    requires
        0 <= k < ids.len(),
        at_cycle(standing.queues, ids[k], cycle),
        standing.queues[ids[k]][0].payload.len() != FIRED_REPORT_BYTES,
    ensures
        standing.visit_rules(ids, cycle).fault is Some,
    decreases ids.len(),
{
    if standing.fault is None {
        let next = standing.visit_rule(ids[0], cycle);
        if ids[0] == ids[k] {
            assert(next.visit_rules(ids.drop_first(), cycle) == next);
        } else if next.fault is Some {
            assert(next.visit_rules(ids.drop_first(), cycle) == next);
        } else {
            assert(next.queues[ids[k]] == standing.queues[ids[k]]);
            assert(ids.drop_first()[k - 1] == ids[k]);
            malformed_rule_report_stops(next, ids.drop_first(), cycle, k - 1);
        }
    }
}

/// The visit of the `Fifo` probes leaves the queue of a probe that is not
/// among them as it was.
pub proof fn fifo_visit_leaves_others(standing: Sampling, ids: Seq<u32>, cycle: u32, other: u32)
    requires
        !ids.contains(other),
    ensures
        standing.visit_fifos(ids, cycle).queues[other] == standing.queues[other],
    decreases ids.len(),
{
    if ids.len() > 0 && standing.fault is None {
        let next = standing.visit_fifo(ids[0], cycle);
        assert(ids[0] != other);
        assert forall|i: int| 0 <= i < ids.drop_first().len() implies ids.drop_first()[i]
            != other by {
            assert(ids[i + 1] != other);
        }
        fifo_visit_leaves_others(next, ids.drop_first(), cycle, other);
    }
}

/// A malformed report of a `Fifo` probe is never classified: if the oldest
/// message of a `Fifo` probe is of the sampled cycle and is not two bytes
/// wide, the sampling ends in a fault.
pub proof fn malformed_fifo_report_is_a_fault(
    queues: Map<u32, Seq<SimToHost>>,
    fifos: Seq<u32>,
    rules: Seq<u32>,
    cycle: u32,
    k: int,
)
    requires
        0 <= k < fifos.len(),
        at_cycle(queues, fifos[k], cycle),
        queues[fifos[k]][0].payload.len() != FIFO_REPORT_BYTES,
    ensures
        sampled(queues, fifos, rules, cycle).fault is Some,
{
    malformed_fifo_report_stops(Sampling::start(queues), fifos, cycle, k);
}

/// A malformed report of a `Fired` probe is never recorded: if the oldest
/// message of a `Fired` probe that has no `Fifo` role too is of the sampled
/// cycle and is not one byte wide, the sampling ends in a fault.
pub proof fn malformed_rule_report_is_a_fault(
    queues: Map<u32, Seq<SimToHost>>,
    fifos: Seq<u32>,
    rules: Seq<u32>,
    cycle: u32,
    k: int,
)
    requires
        0 <= k < rules.len(),
        !fifos.contains(rules[k]),
        at_cycle(queues, rules[k], cycle),
        queues[rules[k]][0].payload.len() != FIRED_REPORT_BYTES,
    ensures
        sampled(queues, fifos, rules, cycle).fault is Some,
{
    let middle = Sampling::start(queues).visit_fifos(fifos, cycle);
    fifo_visit_leaves_others(Sampling::start(queues), fifos, cycle, rules[k]);
    malformed_rule_report_stops(middle, rules, cycle, k);
}

/// Whether the probe `id` reports a full fifo in the cycle `cycle`: its
/// oldest message is of that cycle, two bytes wide, and the first is zero.
pub open spec fn reports_full(queues: Map<u32, Seq<SimToHost>>, cycle: u32, id: u32) -> bool {
    &&& at_cycle(queues, id, cycle)
    &&& queues[id][0].payload.len() == FIFO_REPORT_BYTES
    &&& queues[id][0].payload[0] == 0
}

/// Whether the probe `id` reports an empty fifo in the cycle `cycle`: its
/// oldest message is of that cycle, two bytes wide, the first is not zero
/// and the second is.
pub open spec fn reports_empty(queues: Map<u32, Seq<SimToHost>>, cycle: u32, id: u32) -> bool {
    &&& at_cycle(queues, id, cycle)
    &&& queues[id][0].payload.len() == FIFO_REPORT_BYTES
    &&& queues[id][0].payload[0] != 0
    &&& queues[id][0].payload[1] == 0
}

/// The test for a full fifo, as a function of the probe.
pub open spec fn full_in(queues: Map<u32, Seq<SimToHost>>, cycle: u32) -> spec_fn(u32) -> bool {
    |id: u32| reports_full(queues, cycle, id)
}

/// The test for an empty fifo, as a function of the probe.
pub open spec fn empty_in(queues: Map<u32, Seq<SimToHost>>, cycle: u32) -> spec_fn(u32) -> bool {
    |id: u32| reports_empty(queues, cycle, id)
}

/// The test for a report of the cycle `cycle`, as a function of the probe.
pub open spec fn reporting_in(queues: Map<u32, Seq<SimToHost>>, cycle: u32) -> spec_fn(u32) -> bool {
    |id: u32| at_cycle(queues, id, cycle)
}

/// Whether every report of the cycle `cycle` from the probes `ids` is
/// `width` bytes wide.
pub open spec fn reports_have_width(
    queues: Map<u32, Seq<SimToHost>>,
    ids: Seq<u32>,
    cycle: u32,
    width: usize,
) -> bool {
    forall|k: int|
        0 <= k < ids.len() && at_cycle(queues, #[trigger] ids[k], cycle) ==> queues[ids[k]][0].payload.len()
            == width
}

/// The queues after the oldest message was taken from each of the probes
/// `ids` whose oldest message is of cycle `cycle`.
pub open spec fn taken_from(queues: Map<u32, Seq<SimToHost>>, ids: Seq<u32>, cycle: u32) -> Map<
    u32,
    Seq<SimToHost>,
> {
    Map::new(
        |id: u32| true,
        |id: u32|
            if ids.contains(id) && at_cycle(queues, id, cycle) {
                queues[id].drop_first()
            } else {
                queues[id]
            },
    )
}

/// Two tests that agree on every element of a sequence filter it alike.
pub proof fn filters_agree(ids: Seq<u32>, first: spec_fn(u32) -> bool, second: spec_fn(u32) -> bool)
    requires
        forall|k: int| 0 <= k < ids.len() ==> first(#[trigger] ids[k]) == second(ids[k]),
    ensures
        ids.filter(first) == ids.filter(second),
    decreases ids.len(),
{
    reveal(Seq::filter);
    if ids.len() > 0 {
        assert forall|k: int| 0 <= k < ids.drop_last().len() implies first(
            #[trigger] ids.drop_last()[k],
        ) == second(ids.drop_last()[k]) by {
            assert(ids.drop_last()[k] == ids[k]);
        }
        filters_agree(ids.drop_last(), first, second);
        assert(first(ids.last()) == second(ids[ids.len() - 1]));
    }
}

/// Filtering a sequence is filtering its first element and then the rest.
pub proof fn filter_from_the_front(ids: Seq<u32>, test: spec_fn(u32) -> bool)
    requires
        ids.len() > 0,
    ensures
        ids.filter(test) == if test(ids[0]) {
            seq![ids[0]] + ids.drop_first().filter(test)
        } else {
            ids.drop_first().filter(test)
        },
{
    let head = seq![ids[0]];
    assert(ids =~= head + ids.drop_first());
    Seq::filter_distributes_over_add(head, ids.drop_first(), test);
    assert(head.filter(test) == if test(ids[0]) {
        head
    } else {
        Seq::<u32>::empty()
    }) by {
        reveal(Seq::filter);
        assert(head.drop_last() =~= Seq::<u32>::empty());
        assert(head.drop_last().filter(test) =~= Seq::<u32>::empty());
        assert(head.last() == ids[0]);
        assert(Seq::<u32>::empty().push(ids[0]) =~= head);
    }
    assert(Seq::<u32>::empty() + ids.drop_first().filter(test) =~= ids.drop_first().filter(test));
}

/// The visit of `Fifo` probes that are listed once each, in direct form.
/// If every report of the cycle is two bytes wide, no fault stops the
/// visit, the report of the cycle is taken from each listed probe that has
/// one, and the full and the empty fifos are the listed probes that report
/// so, in the order of the list.
pub proof fn distinct_fifos_visited(standing: Sampling, ids: Seq<u32>, cycle: u32)
    requires
        standing.fault is None,
        ids.no_duplicates(),
        reports_have_width(standing.queues, ids, cycle, FIFO_REPORT_BYTES),
    ensures
        ({
            let end = standing.visit_fifos(ids, cycle);
            &&& end.fault is None
            &&& forall|id: u32| #[trigger]
                end.queues[id] == taken_from(standing.queues, ids, cycle)[id]
            &&& end.full == standing.full + ids.filter(full_in(standing.queues, cycle))
            &&& end.empty == standing.empty + ids.filter(empty_in(standing.queues, cycle))
            &&& end.fired == standing.fired
        }),
    decreases ids.len(),
{
    let queues = standing.queues;
    if ids.len() == 0 {
        reveal(Seq::filter);
        assert(standing.full + ids.filter(full_in(queues, cycle)) =~= standing.full);
        assert(standing.empty + ids.filter(empty_in(queues, cycle)) =~= standing.empty);
    } else {
        let first = ids[0];
        let rest = ids.drop_first();
        let next = standing.visit_fifo(first, cycle);
        assert(at_cycle(queues, ids[0], cycle) ==> queues[ids[0]][0].payload.len()
            == FIFO_REPORT_BYTES);
        assert forall|k: int| 0 <= k < rest.len() implies #[trigger] rest[k] != first
            && next.queues[rest[k]] == queues[rest[k]] by {
            assert(rest[k] == ids[k + 1]);
        }
        assert(rest.no_duplicates()) by {
            assert forall|i: int, j: int| 0 <= i < rest.len() && 0 <= j < rest.len() && i
                != j implies rest[i] != rest[j] by {
                assert(rest[i] == ids[i + 1] && rest[j] == ids[j + 1]);
            }
        }
        assert(reports_have_width(next.queues, rest, cycle, FIFO_REPORT_BYTES)) by {
            assert forall|k: int|
                0 <= k < rest.len() && at_cycle(next.queues, #[trigger] rest[k], cycle) implies next.queues[rest[k]][0].payload.len()
                == FIFO_REPORT_BYTES by {
                assert(rest[k] == ids[k + 1]);
            }
        }
        distinct_fifos_visited(next, rest, cycle);
        let end = next.visit_fifos(rest, cycle);
        filters_agree(rest, full_in(next.queues, cycle), full_in(queues, cycle));
        filters_agree(rest, empty_in(next.queues, cycle), empty_in(queues, cycle));
        filter_from_the_front(ids, full_in(queues, cycle));
        filter_from_the_front(ids, empty_in(queues, cycle));
        assert forall|id: u32| #[trigger] end.queues[id] == taken_from(queues, ids, cycle)[id] by {
            assert(end.queues[id] == taken_from(next.queues, rest, cycle)[id]);
            if rest.contains(id) {
                let k = rest.index_of(id);
                assert(ids[k + 1] == id);
            } else if id == first {
                assert(ids[0] == id);
            } else if ids.contains(id) {
                let k = ids.index_of(id);
                assert(rest[k - 1] == id);
            }
        }
        assert(end.full =~= standing.full + ids.filter(full_in(queues, cycle)));
        assert(end.empty =~= standing.empty + ids.filter(empty_in(queues, cycle)));
    }
}

/// The visit of `Fired` probes that are listed once each, in direct form.
/// If every report of the cycle is one byte wide, no fault stops the
/// visit, the report of the cycle is taken from each listed probe that has
/// one, and the fired rules are those probes, in the order of the list.
pub proof fn distinct_rules_visited(standing: Sampling, ids: Seq<u32>, cycle: u32)
    requires
        standing.fault is None,
        ids.no_duplicates(),
        reports_have_width(standing.queues, ids, cycle, FIRED_REPORT_BYTES),
    ensures
        ({
            let end = standing.visit_rules(ids, cycle);
            &&& end.fault is None
            &&& forall|id: u32| #[trigger]
                end.queues[id] == taken_from(standing.queues, ids, cycle)[id]
            &&& end.full == standing.full
            &&& end.empty == standing.empty
            &&& end.fired == standing.fired + ids.filter(reporting_in(standing.queues, cycle))
        }),
    decreases ids.len(),
{
    let queues = standing.queues;
    if ids.len() == 0 {
        reveal(Seq::filter);
        assert(standing.fired + ids.filter(reporting_in(queues, cycle)) =~= standing.fired);
    } else {
        let first = ids[0];
        let rest = ids.drop_first();
        let next = standing.visit_rule(first, cycle);
        assert(at_cycle(queues, ids[0], cycle) ==> queues[ids[0]][0].payload.len()
            == FIRED_REPORT_BYTES);
        assert forall|k: int| 0 <= k < rest.len() implies #[trigger] rest[k] != first
            && next.queues[rest[k]] == queues[rest[k]] by {
            assert(rest[k] == ids[k + 1]);
        }
        assert(rest.no_duplicates()) by {
            assert forall|i: int, j: int| 0 <= i < rest.len() && 0 <= j < rest.len() && i
                != j implies rest[i] != rest[j] by {
                assert(rest[i] == ids[i + 1] && rest[j] == ids[j + 1]);
            }
        }
        assert(reports_have_width(next.queues, rest, cycle, FIRED_REPORT_BYTES)) by {
            assert forall|k: int|
                0 <= k < rest.len() && at_cycle(next.queues, #[trigger] rest[k], cycle) implies next.queues[rest[k]][0].payload.len()
                == FIRED_REPORT_BYTES by {
                assert(rest[k] == ids[k + 1]);
            }
        }
        distinct_rules_visited(next, rest, cycle);
        let end = next.visit_rules(rest, cycle);
        filters_agree(rest, reporting_in(next.queues, cycle), reporting_in(queues, cycle));
        filter_from_the_front(ids, reporting_in(queues, cycle));
        assert forall|id: u32| #[trigger] end.queues[id] == taken_from(queues, ids, cycle)[id] by {
            assert(end.queues[id] == taken_from(next.queues, rest, cycle)[id]);
            if rest.contains(id) {
                let k = rest.index_of(id);
                assert(ids[k + 1] == id);
            } else if id == first {
                assert(ids[0] == id);
            } else if ids.contains(id) {
                let k = ids.index_of(id);
                assert(rest[k - 1] == id);
            }
        }
        assert(end.fired =~= standing.fired + ids.filter(reporting_in(queues, cycle)));
    }
}

/// The classification in direct form. With every probe listed once, in one
/// role only, and every report of the sampled cycle of the width of its
/// probe's role: no fault occurs; the report of the cycle is taken from
/// each listed probe that has one; the full fifos are the `Fifo` probes
/// that report full, the empty fifos those that report empty, and the fired
/// rules the `Fired` probes that report at all, each in the order of its
/// list.
pub proof fn classification_of_distinct_probes(
    queues: Map<u32, Seq<SimToHost>>,
    fifos: Seq<u32>,
    rules: Seq<u32>,
    cycle: u32,
)
    requires
        fifos.no_duplicates(),
        rules.no_duplicates(),
        forall|k: int| 0 <= k < rules.len() ==> !fifos.contains(#[trigger] rules[k]),
        reports_have_width(queues, fifos, cycle, FIFO_REPORT_BYTES),
        reports_have_width(queues, rules, cycle, FIRED_REPORT_BYTES),
    ensures
        ({
            let end = sampled(queues, fifos, rules, cycle);
            &&& end.fault is None
            &&& forall|id: u32| #[trigger]
                end.queues[id] == taken_from(queues, fifos + rules, cycle)[id]
            &&& end.full == fifos.filter(full_in(queues, cycle))
            &&& end.empty == fifos.filter(empty_in(queues, cycle))
            &&& end.fired == rules.filter(reporting_in(queues, cycle))
        }),
{
    let begin = Sampling::start(queues);
    distinct_fifos_visited(begin, fifos, cycle);
    let middle = begin.visit_fifos(fifos, cycle);
    assert forall|k: int| 0 <= k < rules.len() implies middle.queues[#[trigger] rules[k]]
        == queues[rules[k]] by {
        assert(!fifos.contains(rules[k]));
    }
    assert(reports_have_width(middle.queues, rules, cycle, FIRED_REPORT_BYTES));
    distinct_rules_visited(middle, rules, cycle);
    let end = middle.visit_rules(rules, cycle);
    filters_agree(rules, reporting_in(middle.queues, cycle), reporting_in(queues, cycle));
    {
        assert forall|id: u32| #[trigger] end.queues[id] == taken_from(
            queues,
            fifos + rules,
            cycle,
        )[id] by {
            assert(end.queues[id] == taken_from(middle.queues, rules, cycle)[id]);
            assert(middle.queues[id] == taken_from(queues, fifos, cycle)[id]);
            if fifos.contains(id) {
                let k = fifos.index_of(id);
                assert((fifos + rules)[k] == id);
                if rules.contains(id) {
                    let j = rules.index_of(id);
                    assert(!fifos.contains(rules[j]));
                }
            } else if rules.contains(id) {
                let j = rules.index_of(id);
                assert((fifos + rules)[fifos.len() + j] == id);
            } else if (fifos + rules).contains(id) {
                let k = (fifos + rules).index_of(id);
                if k < fifos.len() {
                    assert(fifos[k] == id);
                } else {
                    assert(rules[k - fifos.len()] == id);
                }
            }
        }
    }
    assert(Seq::<u32>::empty() + fifos.filter(full_in(queues, cycle)) =~= fifos.filter(
        full_in(queues, cycle),
    ));
    assert(Seq::<u32>::empty() + fifos.filter(empty_in(queues, cycle)) =~= fifos.filter(
        empty_in(queues, cycle),
    ));
    assert(Seq::<u32>::empty() + rules.filter(reporting_in(queues, cycle)) =~= rules.filter(
        reporting_in(queues, cycle),
    ));
}

} // verus!
