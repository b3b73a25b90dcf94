//! The central event loop's state machine: it multiplexes line events and
//! periodic tick events, mutates the rolling buffer, and decides which
//! notification text, if any, to submit to the dispatch worker.

use vstd::prelude::*;
use crate::output::{human_duration, human_elapsed, render_suffix, tick_message};
use crate::ring::{joined, push_model, RingBuf};

verus! {

/// One input to the scheduler: a decoded output line, a periodic tick carrying
/// the whole seconds elapsed since start, or the exhaustion of the line source.
pub enum Event {
    Line(String),
    Tick(u64),
    Closed,
}

/// The text a tick produces when the buffer's joined contents are `output`.
pub open spec fn tick_text(secs: u64, output: Seq<char>) -> Seq<char> {
    human_duration(secs) + " elapsed"@ + render_suffix(output)
}

/// One transition of the scheduler: from the buffer's lines and the running
/// flag, under one event, to the new lines, the new flag, and the
/// notification text to submit, if any.
///
/// A line is appended to the buffer; a tick flushes the buffer into a status
/// text and clears it; a closed line source stops the scheduler; and a
/// stopped scheduler ignores every further event.
pub open spec fn step_spec(cap: nat, lines: Seq<Seq<char>>, running: bool, e: Event) -> (
    Seq<Seq<char>>,
    bool,
    Option<Seq<char>>,
) {
    if !running {
        (lines, false, None)
    } else {
        match e {
            Event::Line(t) => (push_model(lines, cap, t@), true, None),
            Event::Tick(secs) => (Seq::empty(), true, Some(tick_text(secs, joined(lines)))),
            Event::Closed => (lines, false, None),
        }
    }
}

/// The scheduler run over a whole sequence of events: the final buffer lines,
/// the final running flag, and every notification text produced, in order.
pub open spec fn run_spec(cap: nat, lines: Seq<Seq<char>>, running: bool, events: Seq<Event>) -> (
    Seq<Seq<char>>,
    bool,
    Seq<Seq<char>>,
)
    decreases events.len(),
{
    if events.len() == 0 {
        (lines, running, Seq::empty())
    } else {
        let stepped = step_spec(cap, lines, running, events[0]);
        let rest = run_spec(cap, stepped.0, stepped.1, events.drop_first());
        (
            rest.0,
            rest.1,
            match stepped.2 {
                Some(o) => seq![o] + rest.2,
                None => rest.2,
            },
        )
    }
}

/// The scheduler owns the rolling buffer exclusively; nothing else mutates it.
pub struct Scheduler {
    buf: RingBuf,
    running: bool,
}

impl Scheduler {
    /// The buffer's lines, oldest first.
    pub closed spec fn lines(self) -> Seq<Seq<char>> {
        self.buf.model()
    }

    /// Whether the line source is still open.
    pub closed spec fn running(self) -> bool {
        self.running
    }

    /// The buffer's capacity.
    pub closed spec fn cap(self) -> nat {
        self.buf.cap()
    }

    pub closed spec fn wf(self) -> bool {
        self.buf.wf()
    }

    pub fn new(capacity: usize) -> (r: Scheduler)
        requires
            capacity >= 1,
        ensures
            r.wf(),
            r.cap() == capacity,
            r.lines() == Seq::<Seq<char>>::empty(),
            r.running(),
    {
        Scheduler { buf: RingBuf::new(capacity), running: true }
    }

    pub fn is_running(&self) -> (r: bool)
        ensures
            r == self.running(),
    {
        self.running
    }

    /// The buffer's joined contents, as the final message needs them.
    pub fn contents(&self) -> (r: String)
        requires
            self.wf(),
        ensures
            r@ == joined(self.lines()),
    {
        self.buf.contents()
    }

    /// Consume one event; the result is the notification text to submit to
    /// the dispatch worker, if this event produced one.
    pub fn handle(&mut self, e: &Event) -> (msg: Option<String>)
        requires
            old(self).wf(),
        ensures
            final(self).wf(),
            final(self).cap() == old(self).cap(),
            ({
                let stepped = step_spec(old(self).cap(), old(self).lines(), old(self).running(), *e);
                &&& final(self).lines() == stepped.0
                &&& final(self).running() == stepped.1
                &&& match stepped.2 {
                    Some(o) => msg matches Some(m) && m@ == o,
                    None => msg is None,
                }
            }),
    {
        if !self.running {
            return None;
        }
        match e {
            Event::Line(t) => {
                self.buf.push(t.as_str());
                None
            },
            Event::Tick(secs) => {
                let label = human_elapsed(*secs);
                let body = self.buf.contents();
                let m = tick_message(label.as_str(), body.as_str());
                self.buf.clear();
                Some(m)
            },
            Event::Closed => {
                self.running = false;
                None
            },
        }
    }

    /// Consume a whole sequence of events in order; the result is every
    /// notification text produced, in the order produced.
    pub fn run(&mut self, events: &Vec<Event>) -> (msgs: Vec<String>)
        requires
            old(self).wf(),
        ensures
            final(self).wf(),
            final(self).cap() == old(self).cap(),
            ({
                let r = run_spec(old(self).cap(), old(self).lines(), old(self).running(), events@);
                &&& final(self).lines() == r.0
                &&& final(self).running() == r.1
                &&& msgs.deep_view() == r.2
            }),
    {
        let ghost cap = old(self).cap();
        let ghost whole = run_spec(cap, old(self).lines(), old(self).running(), events@);
        let mut msgs: Vec<String> = Vec::new();
        let mut i: usize = 0;
        proof {
            assert(events@.skip(0) =~= events@);
            assert(msgs.deep_view() =~= Seq::<Seq<char>>::empty());
            assert(Seq::<Seq<char>>::empty() + whole.2 =~= whole.2);
        }
        while i < events.len()
            invariant
                self.wf(),
                self.cap() == cap,
                i <= events@.len(),
                whole == run_spec(cap, old(self).lines(), old(self).running(), events@),
                ({
                    let rest = run_spec(cap, self.lines(), self.running(), events@.skip(i as int));
                    &&& whole.0 == rest.0
                    &&& whole.1 == rest.1
                    &&& whole.2 == msgs.deep_view() + rest.2
                }),
            decreases events@.len() - i,
        {
            proof {
                assert(events@.skip(i as int)[0] == events@[i as int]);
                assert(events@.skip(i as int).drop_first() =~= events@.skip(i + 1));
            }
            let m = self.handle(&events[i]);
            match m {
                Some(t) => {
                    msgs.push(t);
                    proof {
                        let rest = run_spec(cap, self.lines(), self.running(), events@.skip(i + 1));
                        let dv = msgs.deep_view();
                        assert(dv =~= dv.drop_last().push(t@));
                        assert(dv.drop_last() + (seq![t@] + rest.2) =~= dv + rest.2);
                    }
                },
                None => {},
            }
            i = i + 1;
        }
        proof {
            assert(events@.skip(events@.len() as int) =~= Seq::<Event>::empty());
        }
        msgs
    }
}

/// Law: a tick flushes. After a tick the buffer is always empty again, and
/// the produced text is the elapsed label followed by the buffer-rendering
/// rule: on an empty buffer it ends in the literal "; no new output", on a
/// nonempty buffer it holds a fenced block with the joined contents verbatim.
pub proof fn lemma_tick_flushes(cap: nat, lines: Seq<Seq<char>>, secs: u64)
    ensures
        step_spec(cap, lines, true, Event::Tick(secs)).0 == Seq::<Seq<char>>::empty(),
        step_spec(cap, lines, true, Event::Tick(secs)).2 matches Some(t) && (if lines.len() == 0 {
            t == human_duration(secs) + " elapsed"@ + "; no new output"@
        } else {
            t == human_duration(secs) + " elapsed"@ + ("\n```\n"@ + joined(lines) + "```\n"@)
        }),
{
    reveal_strlit("\n");
    let t = tick_text(secs, joined(lines));
    if lines.len() == 0 {
        assert(t =~= human_duration(secs) + " elapsed"@ + "; no new output"@);
    } else {
        assert(joined(lines).len() >= 1);
        assert(t =~= human_duration(secs) + " elapsed"@ + ("\n```\n"@ + joined(lines) + "```\n"@));
    }
}

/// Law: a stopped scheduler is inert. Once the line source has closed, no
/// further event, a pending tick included, changes the buffer or produces a
/// notification.
pub proof fn lemma_stopped_is_inert(cap: nat, lines: Seq<Seq<char>>, events: Seq<Event>)
    ensures
        run_spec(cap, lines, false, events) == (lines, false, Seq::<Seq<char>>::empty()),
    decreases events.len(),
{
    if events.len() > 0 {
        lemma_stopped_is_inert(cap, lines, events.drop_first());
    }
}

/// Law: once the scheduler observes the closed line source, the whole
/// remainder of the run is inert: the buffer keeps its lines and no
/// tick-triggered notification is produced any more.
pub proof fn lemma_closed_halts(cap: nat, lines: Seq<Seq<char>>, events: Seq<Event>)
    ensures
        run_spec(cap, lines, true, seq![Event::Closed] + events) == (
            lines,
            false,
            Seq::<Seq<char>>::empty(),
        ),
{
    let evs = seq![Event::Closed] + events;
    assert(evs[0] == Event::Closed);
    assert(evs.drop_first() =~= events);
    lemma_stopped_is_inert(cap, lines, events);
}

} // verus!
