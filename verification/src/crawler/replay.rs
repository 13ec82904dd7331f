//! A crawl depends on nothing but the servers it meets: two crawls of the
//! same origin over the same servers go the same way.

use super::laws::{inv, lemma_initial, lemma_started, lemma_stepped};
use super::model::{
    absorbed, initial, lemma_moved_decreases, moved, resumed, started, stepped, work_left,
    CrawlState, Step,
};
use super::CrawlEvent;
use crate::gopher::response::{ItemType, ResponseOutcome};
use vstd::prelude::*;

verus! {

/// The servers as they stand at one moment: what each request is answered
/// with, which servers accept a connection, and how large a file comes out
/// when contents are written under a name.
pub struct Snapshot {
    pub responses: spec_fn(Seq<char>, Seq<char>, ItemType) -> (Seq<u8>, ResponseOutcome),
    pub reachable: spec_fn(Seq<char>, u16) -> bool,
    pub sizes: spec_fn(Seq<char>, Seq<u8>) -> u64,
}

/// `event` is what carrying out `step` gives on `world`. After the last
/// step nothing is carried out, and any event will do.
pub open spec fn answers(world: Snapshot, step: Step, event: CrawlEvent) -> bool {
    match step {
        Step::Fetch { server_details, selector, item_type } => {
            &&& event matches CrawlEvent::Fetched(response)
            &&& (response.buffer@, response.response_outcome) == (world.responses)(
                server_details,
                selector,
                item_type,
            )
        },
        Step::Connect { server_name, server_port } => {
            &&& event matches CrawlEvent::Probed(connected)
            &&& connected == (world.reachable)(server_name, server_port)
        },
        Step::Download { file_name, contents } => {
            &&& event matches CrawlEvent::Stored(size)
            &&& size == (world.sizes)(file_name, contents)
        },
        Step::Done => true,
        Step::Abort => true,
    }
}

/// The step asked for is the one the state waits on.
pub open spec fn awaits(s: CrawlState, step: Step) -> bool {
    match step {
        Step::Fetch { .. } => s.pending is Menu || s.pending is File,
        Step::Connect { .. } => s.pending is Probe,
        Step::Download { .. } => s.pending is Store,
        Step::Done => s.pending is Finished,
        Step::Abort => s.pending is Aborted,
    }
}

/// The crawl of `origin_host:origin_port` after it has begun and taken in
/// `events`, one after the other.
pub open spec fn run(origin_host: Seq<char>, origin_port: u16, events: Seq<CrawlEvent>) -> (
    CrawlState,
    Step,
)
    decreases events.len(),
{
    if events.len() == 0 {
        started(initial(origin_host, origin_port))
    } else {
        stepped(run(origin_host, origin_port, events.drop_last()).0, events.last())
    }
}

/// Every event is what the step asked for before it gives on `world`.
pub open spec fn faithful(
    world: Snapshot,
    origin_host: Seq<char>,
    origin_port: u16,
    events: Seq<CrawlEvent>,
) -> bool {
    forall|i: int|
        0 <= i < events.len() ==> answers(
            world,
            run(origin_host, origin_port, events.take(i)).1,
            #[trigger] events[i],
        )
}

/// At every moment of a crawl, whatever events it has taken in, everything
/// that holds of a crawl holds.
pub proof fn lemma_run_keeps_all(origin_host: Seq<char>, origin_port: u16, events: Seq<CrawlEvent>)
    ensures
        inv(run(origin_host, origin_port, events).0),
    decreases events.len(),
{
    if events.len() == 0 {
        lemma_initial(origin_host, origin_port);
        lemma_started(initial(origin_host, origin_port));
    } else {
        lemma_run_keeps_all(origin_host, origin_port, events.drop_last());
        lemma_stepped(run(origin_host, origin_port, events.drop_last()).0, events.last());
    }
}

/// Going through the menus ends with a step that the state waits on.
proof fn lemma_resumed_awaits(s: CrawlState)
    ensures
        awaits(resumed(s).0, resumed(s).1),
    decreases work_left(s),
{
    lemma_moved_decreases(s);
    if moved(s).1 is None {
        lemma_resumed_awaits(moved(s).0);
    }
}

/// Every step asked for is one that the state waits on.
pub proof fn lemma_stepped_awaits(s: CrawlState, event: CrawlEvent)
    ensures
        awaits(stepped(s, event).0, stepped(s, event).1),
{
    if absorbed(s, event).1 is None {
        lemma_resumed_awaits(absorbed(s, event).0);
    }
}

/// At every moment of a crawl, the step asked for is one that the state waits on.
pub proof fn lemma_run_awaits(origin_host: Seq<char>, origin_port: u16, events: Seq<CrawlEvent>)
    ensures
        awaits(run(origin_host, origin_port, events).0, run(origin_host, origin_port, events).1),
{
    if events.len() > 0 {
        lemma_stepped_awaits(run(origin_host, origin_port, events.drop_last()).0, events.last());
    }
}

/// Two events that answer the same step on the same servers lead to the same state.
pub proof fn lemma_same_answer_same_state(
    world: Snapshot,
    s: CrawlState,
    step: Step,
    a: CrawlEvent,
    b: CrawlEvent,
)
    requires
        awaits(s, step),
        answers(world, step, a),
        answers(world, step, b),
    ensures
        stepped(s, a) == stepped(s, b),
{
    assert(absorbed(s, a) == absorbed(s, b));
}

/// A prefix of a faithful crawl is faithful.
proof fn lemma_faithful_prefix(
    world: Snapshot,
    origin_host: Seq<char>,
    origin_port: u16,
    events: Seq<CrawlEvent>,
)
    requires
        faithful(world, origin_host, origin_port, events),
        events.len() > 0,
    ensures
        faithful(world, origin_host, origin_port, events.drop_last()),
        answers(
            world,
            run(origin_host, origin_port, events.drop_last()).1,
            events.last(),
        ),
{
    let shorter = events.drop_last();
    assert forall|i: int| 0 <= i < shorter.len() implies answers(
        world,
        run(origin_host, origin_port, shorter.take(i)).1,
        #[trigger] shorter[i],
    ) by {
        assert(shorter.take(i) =~= events.take(i));
        assert(shorter[i] == events[i]);
    }
    assert(events.take(events.len() - 1) =~= shorter);
    assert(events[events.len() - 1] == events.last());
}

/// Two crawls of the same origin over the same servers are in the same
/// state after the same number of events, and ask for the same step: the
/// same counts, the same lists in the same order, the same extremes.
pub proof fn lemma_same_servers_same_crawl(
    world: Snapshot,
    origin_host: Seq<char>,
    origin_port: u16,
    first: Seq<CrawlEvent>,
    second: Seq<CrawlEvent>,
)
    requires
        first.len() == second.len(),
        faithful(world, origin_host, origin_port, first),
        faithful(world, origin_host, origin_port, second),
    ensures
        run(origin_host, origin_port, first) == run(origin_host, origin_port, second),
    decreases first.len(),
{
    if first.len() > 0 {
        lemma_faithful_prefix(world, origin_host, origin_port, first);
        lemma_faithful_prefix(world, origin_host, origin_port, second);
        lemma_same_servers_same_crawl(
            world,
            origin_host,
            origin_port,
            first.drop_last(),
            second.drop_last(),
        );
        let before = run(origin_host, origin_port, first.drop_last());
        lemma_run_awaits(origin_host, origin_port, first.drop_last());
        lemma_same_answer_same_state(world, before.0, before.1, first.last(), second.last());
    }
}

/// Once the crawl is complete, it stays as it is whatever comes.
pub proof fn lemma_finished_stays(s: CrawlState, event: CrawlEvent)
    requires
        s.pending is Finished,
    ensures
        stepped(s, event) == (s, Step::Done),
{
}

} // verus!
