//! The poll loop: it owns the previously drawn frame, renders each
//! successful fetch against it, and stops for good on the first failure,
//! which is surfaced exactly once.

use vstd::prelude::*;

use crate::error::ClientError;
use crate::render::Frame;
use crate::render::prev_view;
use crate::render::render;
use crate::render::spec_render;
use crate::term::TermCmd;
use crate::term::cmds_view;
use crate::term::encode_cmds;
use crate::term::spec_encode;

verus! {

/// What one poll asks the caller to do: write these terminal commands, or
/// report this failure and stop.
pub enum PollStep {
    Draw(Vec<TermCmd>),
    Fatal(ClientError),
}

/// The loop's whole state: the frame currently on the screen, and whether a
/// failure has already ended the run.
pub struct PollLoop {
    pub prev: Option<Frame>,
    pub stopped: bool,
}

impl PollLoop {
    /// A fresh loop: nothing drawn yet, still running.
    pub fn new() -> (s: PollLoop)
        ensures
            s.prev is None,
            !s.stopped,
    {
        PollLoop { prev: None, stopped: false }
    }

    /// One poll. A fetched frame is rendered against the one drawn before
    /// and becomes the new previous frame; a failed fetch stops the loop and
    /// hands the failure back, to be reported exactly once. A stopped loop
    /// never takes another step.
    pub fn step(&mut self, fetched: Result<Frame, ClientError>) -> (r: PollStep)
        requires
            !old(self).stopped,
        ensures
            match fetched {
                Result::Ok(f) => {
                    &&& !final(self).stopped
                    &&& final(self).prev == Some(f)
                    &&& match r {
                        PollStep::Draw(cmds) => cmds_view(cmds@) == spec_render(
                            prev_view(old(self).prev),
                            f@,
                        ),
                        PollStep::Fatal(_) => false,
                    }
                },
                Result::Err(e) => {
                    &&& final(self).stopped
                    &&& final(self).prev == old(self).prev
                    &&& r == PollStep::Fatal(e)
                },
            },
    {
        match fetched {
            Result::Ok(f) => {
                let cmds = render(&self.prev, &f);
                self.prev = Some(f);
                PollStep::Draw(cmds)
            },
            Result::Err(e) => {
                self.stopped = true;
                PollStep::Fatal(e)
            },
        }
    }
}

/// What a whole run produces from a sequence of fetch outcomes: the encoded
/// bytes of one draw per successful fetch before the first failure, and that
/// first failure, if any. Outcomes after a failure are never looked at.
pub open spec fn poll_run(prev: Option<Frame>, events: Seq<Result<Frame, ClientError>>) -> (Seq<
    Seq<char>,
>, Option<ClientError>)
    decreases events.len(),
{
    if events.len() == 0 {
        (Seq::<Seq<char>>::empty(), None::<ClientError>)
    } else {
        match events[0] {
            Result::Err(e) => (Seq::<Seq<char>>::empty(), Some(e)),
            Result::Ok(f) => {
                let rest = poll_run(Some(f), events.drop_first());
                (seq![spec_encode(spec_render(prev_view(prev), f@))] + rest.0, rest.1)
            },
        }
    }
}

/// Drives a fresh [`PollLoop`] over fetch outcomes taken in order, returning
/// the bytes written for each frame and the failure that ended the run, if
/// one did.
#[verifier::loop_isolation(false)]
pub fn run_polls(events: Vec<Result<Frame, ClientError>>) -> (r: (Vec<String>, Option<ClientError>))
    ensures
        r.0.deep_view() == poll_run(None::<Frame>, events@).0,
        r.1 == poll_run(None::<Frame>, events@).1,
{
    let ghost full = poll_run(None::<Frame>, events@);
    let mut pending = events;
    let mut outs: Vec<String> = Vec::new();
    let mut pl = PollLoop::new();
    proof {
        assert(outs.deep_view() =~= Seq::<Seq<char>>::empty());
    }
    while pending.len() > 0
        invariant
            !pl.stopped,
            full.0 == outs.deep_view() + poll_run(pl.prev, pending@).0,
            full.1 == poll_run(pl.prev, pending@).1,
        decreases pending@.len(),
    {
        let ghost evs = pending@;
        let ghost prev0 = pl.prev;
        let ev = pending.remove(0);
        proof {
            assert(pending@ =~= evs.drop_first());
            assert(ev == evs[0]);
        }
        match pl.step(ev) {
            PollStep::Draw(cmds) => {
                let s = encode_cmds(&cmds);
                let ghost outs_before = outs.deep_view();
                outs.push(s);
                proof {
                    let f = ev->Ok_0;
                    assert(ev is Ok);
                    assert(poll_run(prev0, evs).0 == seq![
                        spec_encode(spec_render(prev_view(prev0), f@)),
                    ] + poll_run(Some(f), evs.drop_first()).0);
                    assert(s@ == spec_encode(spec_render(prev_view(prev0), f@)));
                    assert(outs.deep_view() =~= outs_before.push(s@));
                    assert(pl.prev == Some(f));
                    assert(outs_before.push(s@) + poll_run(pl.prev, pending@).0 =~= outs_before
                        + (seq![s@] + poll_run(pl.prev, pending@).0));
                    assert(full.0 == outs.deep_view() + poll_run(pl.prev, pending@).0);
                    assert(full.1 == poll_run(pl.prev, pending@).1);
                }
            },
            PollStep::Fatal(e) => {
                proof {
                    assert(ev is Err);
                    assert(poll_run(prev0, evs).1 == Some(evs[0]->Err_0));
                    assert(poll_run(prev0, evs).0 =~= Seq::<Seq<char>>::empty());
                    assert(full.0 =~= outs.deep_view());
                    assert(full.1 == Some(e));
                }
                return (outs, Some(e));
            },
        }
    }
    proof {
        assert(pending@.len() == 0);
        assert(poll_run(pl.prev, pending@).0 == Seq::<Seq<char>>::empty());
        assert(outs.deep_view() + Seq::<Seq<char>>::empty() =~= outs.deep_view());
    }
    (outs, None)
}

/// Failing on one poll after a run of successes: if the first `k` fetches
/// succeed and fetch `k` fails, then exactly `k` frames are drawn, the
/// failure is surfaced once, and nothing after it is processed.
pub proof fn lemma_poll_stops_at_first_failure(
    prev: Option<Frame>,
    events: Seq<Result<Frame, ClientError>>,
    k: int,
)
    requires
        0 <= k < events.len(),
        forall|j: int| 0 <= j < k ==> (#[trigger] events[j]) is Ok,
        events[k] is Err,
    ensures
        poll_run(prev, events).0.len() == k,
        poll_run(prev, events).1 == Some(events[k]->Err_0),
    decreases k,
{
    if k == 0 {
    } else {
        assert(events[0] is Ok);
        let f = events[0]->Ok_0;
        assert forall|j: int| 0 <= j < k - 1 implies (#[trigger] events.drop_first()[j]) is Ok by {
            assert(events[j + 1] is Ok);
        }
        assert(events.drop_first()[k - 1] == events[k]);
        lemma_poll_stops_at_first_failure(Some(f), events.drop_first(), k - 1);
    }
}

/// A run with no failures draws every frame and reports nothing fatal.
pub proof fn lemma_poll_all_ok(prev: Option<Frame>, events: Seq<Result<Frame, ClientError>>)
    requires
        forall|j: int| 0 <= j < events.len() ==> (#[trigger] events[j]) is Ok,
    ensures
        poll_run(prev, events).0.len() == events.len(),
        poll_run(prev, events).1 is None,
    decreases events.len(),
{
    if events.len() == 0 {
    } else {
        assert(events[0] is Ok);
        assert forall|j: int|
            0 <= j < events.drop_first().len() implies (#[trigger] events.drop_first()[j])
            is Ok by {
            assert(events[j + 1] is Ok);
        }
        lemma_poll_all_ok(Some(events[0]->Ok_0), events.drop_first());
    }
}

} // verus!
