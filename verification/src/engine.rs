//! The stream orchestrator: a state machine fed with byte chunks, handing
//! the caller the next emission or action to perform. The caller performs
//! the I/O (receiving chunks, writing files, emitting to the sink) and
//! reports outcomes back; every decision in between is made here.

use vstd::prelude::*;
use crate::event::AgentEvent;
use crate::event::EventModel;
use crate::frame::FrameAssembler;
use crate::frame::FramingError;
use crate::frame::MAX_FRAME_SIZE;
use crate::frame::frames_of;
use crate::frame::leftover_of;
use crate::decode::decode_event;
use crate::decode::decode_frames;

verus! {

/// The state of one stream.
pub enum Phase {
    /// Reading chunks and dispatching events.
    Streaming,
    /// A file-write event was handed out; its outcome has not come back yet.
    AwaitingWrite,
    /// Terminal: a `Done` event ended the stream.
    Done,
    /// Terminal: an `Error` event or a framing overflow ended the stream.
    Failed,
    /// Terminal: the byte stream ended without a terminal event.
    Closed,
}

/// What the caller must do next.
pub enum Step {
    /// Nothing to dispatch: feed the next chunk, or report the stream's end.
    NeedInput,
    /// Forward this event to the sink and keep going.
    Emit(AgentEvent),
    /// Write this content at this sandbox-relative path, then report the
    /// outcome through `write_result`.
    Write { path: String, content: String },
    /// Forward this event to the sink and stop consuming the stream.
    EmitAndFinish(AgentEvent),
}

/// The models of the events of `q`.
pub open spec fn queue_models(q: Seq<AgentEvent>) -> Seq<EventModel> {
    q.map_values(|e: AgentEvent| e.model())
}

/// The engine driving one stream.
pub struct Engine {
    pub phase: Phase,
    pub assembler: FrameAssembler,
    /// Decoded events not yet dispatched, in arrival order.
    pub queue: Vec<AgentEvent>,
    /// The file-write event handed out and awaiting its outcome.
    pub pending: Option<AgentEvent>,
}

impl Engine {
    /// The engine's invariant.
    pub open spec fn wf(&self) -> bool {
        &&& self.assembler.wf()
        &&& (self.phase is AwaitingWrite <==> self.pending is Some)
        &&& match self.pending {
            Some(e) => e is FileWrite,
            None => true,
        }
    }

    /// A fresh engine, entered once the response status is known to be a
    /// success.
    pub fn new() -> (r: Engine)
        ensures
            r.wf(),
            r.phase is Streaming,
            r.assembler.buf@ == Seq::<u8>::empty(),
            r.queue@ == Seq::<AgentEvent>::empty(),
            r.pending is None,
    {
        Engine {
            phase: Phase::Streaming,
            assembler: FrameAssembler::new(),
            queue: Vec::new(),
            pending: None,
        }
    }

    /// Feeds one chunk: buffers it, extracts every complete frame, decodes
    /// each and queues the events. Fails exactly when the buffered bytes
    /// would exceed the cap; that failure is fatal for the stream.
    pub fn feed(&mut self, chunk: &[u8]) -> (r: Result<(), FramingError>)
        requires
            old(self).wf(),
            old(self).phase is Streaming,
        ensures
            final(self).wf(),
            (r is Err) <==> old(self).assembler.buf@.len() + chunk@.len() > MAX_FRAME_SIZE,
            final(self).pending == old(self).pending,
            r is Err ==> final(self).phase is Failed && final(self).queue@ == old(self).queue@
                && final(self).assembler.buf@ == old(self).assembler.buf@,
            r is Ok ==> ({
                &&& final(self).phase is Streaming
                &&& final(self).assembler.buf@ == leftover_of(
                    old(self).assembler.buf@ + chunk@,
                )
                &&& queue_models(final(self).queue@) == queue_models(old(self).queue@)
                    + decode_frames(frames_of(old(self).assembler.buf@ + chunk@))
            }),
    {
        let frames = match self.assembler.append(chunk) {
            Ok(frames) => frames,
            Err(e) => {
                self.phase = Phase::Failed;
                return Err(e);
            },
        };
        let ghost fdv = frames.deep_view();
        let ghost q0 = queue_models(self.queue@);
        let mut i: usize = 0;
        proof {
            assert(fdv.take(0) =~= Seq::<Seq<u8>>::empty());
            assert(queue_models(self.queue@) =~= q0 + decode_frames(fdv.take(0)));
        }
        while i < frames.len()
            invariant
                i <= frames@.len(),
                frames.deep_view() == fdv,
                fdv.len() == frames@.len(),
                fdv == frames_of(old(self).assembler.buf@ + chunk@),
                q0 == queue_models(old(self).queue@),
                queue_models(self.queue@) == q0 + decode_frames(fdv.take(i as int)),
                self.phase is Streaming,
                self.pending is None,
                old(self).pending is None,
                self.assembler.wf(),
                self.assembler.buf@ == leftover_of(old(self).assembler.buf@ + chunk@),
            decreases frames@.len() - i,
        {
            let ghost qb = queue_models(self.queue@);
            let ev = decode_event(frames[i].as_slice());
            proof {
                assert(frames[i as int]@ == fdv[i as int]);
                assert(fdv.take(i as int + 1) =~= fdv.take(i as int) + seq![fdv[i as int]]);
                crate::decode::lemma_decode_frames_concat(
                    fdv.take(i as int),
                    seq![fdv[i as int]],
                );
                assert(seq![fdv[i as int]].skip(1) =~= Seq::<Seq<u8>>::empty());
                assert(decode_frames(Seq::<Seq<u8>>::empty()) =~= Seq::<EventModel>::empty());
            }
            match ev {
                Some(e) => {
                    let ghost em = e.model();
                    self.queue.push(e);
                    proof {
                        assert(queue_models(self.queue@) =~= qb.push(em));
                        assert(decode_frames(seq![fdv[i as int]]) =~= seq![em]);
                        assert(q0 + decode_frames(fdv.take(i as int + 1)) =~= qb.push(em));
                    }
                },
                None => {
                    proof {
                        assert(decode_frames(seq![fdv[i as int]]) =~= Seq::<EventModel>::empty());
                        assert(q0 + decode_frames(fdv.take(i as int + 1)) =~= qb);
                    }
                },
            }
            i = i + 1;
        }
        proof {
            assert(fdv.take(i as int) =~= fdv);
        }
        Ok(())
    }

    /// Hands out the next dispatch: the next queued event decides it, as the
    /// protocol prescribes for each variant.
    pub fn next_step(&mut self) -> (r: Step)
        requires
            old(self).wf(),
            old(self).phase is Streaming,
        ensures
            final(self).wf(),
            final(self).assembler == old(self).assembler,
            old(self).queue@.len() == 0 ==> r is NeedInput && *final(self) == *old(self),
            old(self).queue@.len() > 0 ==> ({
                let h = old(self).queue@[0];
                &&& final(self).queue@ == old(self).queue@.skip(1)
                &&& match h.model() {
                    EventModel::FileWrite { path: p, content: c } => {
                        &&& (r matches Step::Write { path, content } && path@ == p && content@
                            == c)
                        &&& final(self).phase is AwaitingWrite
                        &&& final(self).pending == Some(h)
                    },
                    EventModel::Status { .. } => r == Step::Emit(h) && final(self).phase
                        is Streaming && final(self).pending is None,
                    EventModel::Done { .. } => r == Step::EmitAndFinish(h) && final(self).phase
                        is Done && final(self).pending is None,
                    EventModel::Error { .. } => r == Step::EmitAndFinish(h) && final(self).phase
                        is Failed && final(self).pending is None,
                }
            }),
    {
        if self.queue.len() == 0 {
            return Step::NeedInput;
        }
        let h = self.queue.remove(0);
        match h {
            AgentEvent::FileWrite { path, content } => {
                let p = path.clone();
                let c = content.clone();
                self.pending = Some(AgentEvent::FileWrite { path, content });
                self.phase = Phase::AwaitingWrite;
                Step::Write { path: p, content: c }
            },
            AgentEvent::Status { message } => Step::Emit(AgentEvent::Status { message }),
            AgentEvent::Done { summary, files } => {
                self.phase = Phase::Done;
                Step::EmitAndFinish(AgentEvent::Done { summary, files })
            },
            AgentEvent::Error { message } => {
                self.phase = Phase::Failed;
                Step::EmitAndFinish(AgentEvent::Error { message })
            },
        }
    }

    /// Takes the outcome of the requested file write. On success the event
    /// to forward is the file-write event itself; on failure it is an error
    /// event carrying the given message. Either way the stream stays active.
    pub fn write_result(&mut self, ok: bool, err: String) -> (ev: AgentEvent)
        requires
            old(self).wf(),
            old(self).phase is AwaitingWrite,
        ensures
            final(self).wf(),
            final(self).phase is Streaming,
            final(self).pending is None,
            final(self).queue@ == old(self).queue@,
            final(self).assembler == old(self).assembler,
            ok ==> Some(ev) == old(self).pending,
            !ok ==> ev == (AgentEvent::Error { message: err }),
    {
        let mut taken: Option<AgentEvent> = None;
        core::mem::swap(&mut taken, &mut self.pending);
        self.phase = Phase::Streaming;
        if ok {
            match taken {
                Some(e) => e,
                None => {
                    proof {
                        assert(false);
                    }
                    AgentEvent::Error { message: err }
                },
            }
        } else {
            AgentEvent::Error { message: err }
        }
    }

    /// The byte stream ended while the engine was still active: the stream
    /// is closed and an error event is synthesized for the sink. The call
    /// itself still counts as a success.
    pub fn end_of_stream(&mut self) -> (ev: AgentEvent)
        requires
            old(self).wf(),
            old(self).phase is Streaming,
        ensures
            final(self).wf(),
            final(self).phase is Closed,
            final(self).queue@ == old(self).queue@,
            final(self).assembler == old(self).assembler,
            final(self).pending is None,
            ev matches AgentEvent::Error { message } && message@ == "Stream closed unexpectedly"@,
    {
        self.phase = Phase::Closed;
        AgentEvent::Error { message: String::from_str("Stream closed unexpectedly") }
    }
}

} // verus!
