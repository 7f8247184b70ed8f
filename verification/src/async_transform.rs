//! The decision core of an asynchronous pipeline transformer.
//!
//! A transformer sits between an input port and an output port and runs a
//! user-supplied transform over data blocks. The surrounding executor owns
//! the ports and the await points; what is modelled here is every decision
//! the transformer makes: which event it reports to the scheduler for a
//! given port state, which port command accompanies it, and which step its
//! asynchronous work performs next. The executor feeds port observations in
//! as plain values and carries the returned commands out.

use vstd::prelude::*;

verus! {

/// What the transformer reports to the scheduler.
#[derive(Clone, Copy, Debug, PartialEq, Eq, Structural)]
pub enum Event {
    /// More input is needed before progress can be made.
    NeedData,
    /// The consumer must take the pushed output first.
    NeedConsume,
    /// Synchronous progress is possible.
    Sync,
    /// Asynchronous work (start-up, a transform, or wind-down) is pending.
    Async,
    /// The stream is complete.
    Finished,
}

/// The port command accompanying an event.
#[derive(Clone, Copy, Debug, PartialEq, Eq, Structural)]
pub enum PortCommand {
    /// No port action.
    Idle,
    /// Tell the input port that data is wanted.
    WantData,
    /// Tell the input port that no data is wanted now.
    WantNoData,
    /// Close the input port.
    CloseInput,
    /// Close the output port.
    CloseOutput,
}

/// The next step of the transformer's asynchronous work.
pub enum ProcessStep<T> {
    /// Run the user's start-up hook.
    StartUp,
    /// Run the user's transform over this block.
    Work(T),
    /// Run the user's wind-down hook.
    WindDown,
    /// Nothing is left to do.
    Done,
}

/// The transformer's own state: the two lifecycle flags and the block
/// buffered on each side of the transform.
pub struct AsyncTransformer<T> {
    /// Whether the start-up hook has run.
    pub called_on_start: bool,
    /// Whether the wind-down hook has run.
    pub called_on_finish: bool,
    /// A block pulled from the input, waiting to be transformed.
    pub input_data: Option<T>,
    /// A transformed block, waiting to be pushed to the output.
    pub output_data: Option<T>,
}

impl<T> AsyncTransformer<T> {
    /// A fresh transformer: hooks not yet run, nothing buffered.
    pub fn create() -> (t: AsyncTransformer<T>)
        ensures
            !t.called_on_start,
            !t.called_on_finish,
            t.input_data is None,
            t.output_data is None,
    {
        AsyncTransformer {
            called_on_start: false,
            called_on_finish: false,
            input_data: None,
            output_data: None,
        }
    }

    /// The scheduling decision: given the state of the two ports — whether
    /// the output side is finished and can accept data, the block the input
    /// port offers (if any), and whether the input side is finished —
    /// reports the next event, the port command to carry out, and the block
    /// to push to the output, if one is ready.
    pub fn event(
        &mut self,
        output_finished: bool,
        output_can_push: bool,
        pulled: Option<T>,
        input_finished: bool,
    ) -> (r: (Event, PortCommand, Option<T>))
        ensures
            ({
                let (e, c, push) = r;
                if !old(self).called_on_start {
                    &&& e == Event::Async
                    &&& c == PortCommand::Idle
                    &&& push is None
                    &&& *final(self) == *old(self)
                } else if output_finished {
                    &&& push is None
                    &&& *final(self) == *old(self)
                    &&& if !old(self).called_on_finish {
                        e == Event::Sync && c == PortCommand::Idle
                    } else {
                        e == Event::Finished && c == PortCommand::CloseInput
                    }
                } else if !output_can_push {
                    &&& e == Event::NeedConsume
                    &&& c == PortCommand::WantNoData
                    &&& push is None
                    &&& *final(self) == *old(self)
                } else if old(self).output_data is Some {
                    &&& e == Event::NeedConsume
                    &&& c == PortCommand::Idle
                    &&& push == old(self).output_data
                    &&& *final(self) == AsyncTransformer { output_data: None, ..*old(self) }
                } else if old(self).input_data is Some {
                    &&& e == Event::Async
                    &&& c == PortCommand::Idle
                    &&& push is None
                    &&& *final(self) == *old(self)
                } else if pulled is Some {
                    &&& e == Event::Sync
                    &&& c == PortCommand::Idle
                    &&& push is None
                    &&& *final(self) == AsyncTransformer { input_data: pulled, ..*old(self) }
                } else if input_finished {
                    &&& push is None
                    &&& *final(self) == *old(self)
                    &&& if !old(self).called_on_finish {
                        e == Event::Sync && c == PortCommand::Idle
                    } else {
                        e == Event::Finished && c == PortCommand::CloseOutput
                    }
                } else {
                    &&& e == Event::NeedData
                    &&& c == PortCommand::WantData
                    &&& push is None
                    &&& *final(self) == *old(self)
                }
            }),
    {
        if !self.called_on_start {
            return (Event::Async, PortCommand::Idle, None);
        }
        if output_finished {
            let e = self.finish_input();
            let c = if e == Event::Finished {
                PortCommand::CloseInput
            } else {
                PortCommand::Idle
            };
            return (e, c, None);
        }
        if !output_can_push {
            return (self.not_need_data(), PortCommand::WantNoData, None);
        }
        match self.output_data.take() {
            Some(data) => (Event::NeedConsume, PortCommand::Idle, Some(data)),
            None => {
                if self.input_data.is_some() {
                    (Event::Async, PortCommand::Idle, None)
                } else {
                    let (e, c) = self.pull_data(pulled, input_finished);
                    (e, c, None)
                }
            },
        }
    }

    /// Tries to take a block from the input side: buffers an offered block,
    /// winds down on a finished input, or asks for data.
    pub fn pull_data(&mut self, pulled: Option<T>, input_finished: bool) -> (r: (Event, PortCommand))
        requires
            old(self).input_data is None,
        ensures
            ({
                let (e, c) = r;
                if pulled is Some {
                    &&& e == Event::Sync
                    &&& c == PortCommand::Idle
                    &&& *final(self) == AsyncTransformer { input_data: pulled, ..*old(self) }
                } else if input_finished {
                    &&& *final(self) == *old(self)
                    &&& if !old(self).called_on_finish {
                        e == Event::Sync && c == PortCommand::Idle
                    } else {
                        e == Event::Finished && c == PortCommand::CloseOutput
                    }
                } else {
                    &&& e == Event::NeedData
                    &&& c == PortCommand::WantData
                    &&& *final(self) == *old(self)
                }
            }),
    {
        match pulled {
            Some(data) => {
                self.input_data = Some(data);
                (Event::Sync, PortCommand::Idle)
            },
            None => {
                if input_finished {
                    if !self.called_on_finish {
                        (Event::Sync, PortCommand::Idle)
                    } else {
                        (Event::Finished, PortCommand::CloseOutput)
                    }
                } else {
                    (Event::NeedData, PortCommand::WantData)
                }
            },
        }
    }

    /// The consumer is busy: ask the input side to hold data back.
    pub fn not_need_data(&mut self) -> (e: Event)
        ensures
            e == Event::NeedConsume,
            *final(self) == *old(self),
    {
        Event::NeedConsume
    }

    /// The output side is finished: wind down if that has not happened,
    /// else report completion (the caller then closes the input).
    pub fn finish_input(&mut self) -> (e: Event)
        ensures
            *final(self) == *old(self),
            e == if !old(self).called_on_finish {
                Event::Sync
            } else {
                Event::Finished
            },
    {
        if !self.called_on_finish {
            Event::Sync
        } else {
            Event::Finished
        }
    }

    /// The next step of asynchronous work: start up once, then transform
    /// each buffered input block, then wind down once.
    pub fn async_process(&mut self) -> (s: ProcessStep<T>)
        ensures
            if !old(self).called_on_start {
                &&& s is StartUp
                &&& *final(self) == AsyncTransformer { called_on_start: true, ..*old(self) }
            } else if old(self).input_data is Some {
                &&& s == ProcessStep::Work(old(self).input_data->0)
                &&& *final(self) == AsyncTransformer { input_data: None, ..*old(self) }
            } else if !old(self).called_on_finish {
                &&& s is WindDown
                &&& *final(self) == AsyncTransformer { called_on_finish: true, ..*old(self) }
            } else {
                &&& s is Done
                &&& *final(self) == *old(self)
            },
    {
        if !self.called_on_start {
            self.called_on_start = true;
            return ProcessStep::StartUp;
        }
        match self.input_data.take() {
            Some(data) => ProcessStep::Work(data),
            None => {
                if !self.called_on_finish {
                    self.called_on_finish = true;
                    ProcessStep::WindDown
                } else {
                    ProcessStep::Done
                }
            },
        }
    }

    /// Buffers the result of a completed transform for the output side.
    pub fn set_transformed(&mut self, block: T)
        ensures
            *final(self) == (AsyncTransformer { output_data: Some(block), ..*old(self) }),
    {
        self.output_data = Some(block);
    }
}

} // verus!
