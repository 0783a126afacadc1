use vstd::prelude::*;

verus! {

/// Why the surface did not hand out its next image.
#[derive(Clone, Copy, PartialEq, Eq, Structural, Debug)]
pub enum SurfaceError {
    Timeout,
    Outdated,
    Lost,
    OutOfMemory,
}

/// Why a frame could not be begun or used.
#[derive(Clone, Copy, PartialEq, Eq, Structural, Debug)]
pub enum FrameError {
    /// The surface did not hand out an image.
    Surface(SurfaceError),
    /// The frame was submitted and presented before.
    Presented,
}

/// Whether the draw that met `error` may simply be skipped and tried again
/// at the next poll. A timeout, an outdated surface and a lost surface are
/// of that kind. Running out of memory is fatal, and using a frame that was
/// presented is a mistake of the caller.
pub open spec fn recoverable(error: FrameError) -> bool {
    match error {
        FrameError::Surface(SurfaceError::Timeout) => true,
        FrameError::Surface(SurfaceError::Outdated) => true,
        FrameError::Surface(SurfaceError::Lost) => true,
        FrameError::Surface(SurfaceError::OutOfMemory) => false,
        FrameError::Presented => false,
    }
}

impl FrameError {
    pub fn is_recoverable(&self) -> (skip: bool)
        ensures
            skip == recoverable(*self),
    {
        match self {
            FrameError::Surface(SurfaceError::Timeout) => true,
            FrameError::Surface(SurfaceError::Outdated) => true,
            FrameError::Surface(SurfaceError::Lost) => true,
            FrameError::Surface(SurfaceError::OutOfMemory) => false,
            FrameError::Presented => false,
        }
    }
}

/// One frame as the contracts see it: the acquired image, which is gone once
/// the frame has been presented, and the encoders contributed so far, oldest
/// first.
pub ghost struct Frame<O, E> {
    pub output: Option<O>,
    pub encoders: Seq<E>,
}

impl<O, E> Frame<O, E> {
    /// A frame that has just been begun on `output`.
    pub open spec fn begun(output: O) -> Frame<O, E> {
        Frame { output: Some(output), encoders: Seq::empty() }
    }

    /// Whether the frame still takes contributions.
    pub open spec fn open(self) -> bool {
        self.output is Some
    }

    /// The frame after `encoder` has been offered to it: an open frame
    /// takes it behind the others, a presented one stays as it is.
    pub open spec fn contribute(self, encoder: E) -> Frame<O, E> {
        if self.open() {
            Frame { encoders: self.encoders.push(encoder), ..self }
        } else {
            self
        }
    }

    /// The frame after it has been finished: nothing is left in it.
    pub open spec fn finish(self) -> Frame<O, E> {
        Frame { output: None, encoders: Seq::empty() }
    }
}

/// What `finish_and_present` hands over for the one submit of a frame: the
/// encoders in contribution order, and the image to present after the
/// submit.
pub struct Submission<O, E> {
    pub output: O,
    pub encoders: Vec<E>,
}

/// One acquire, contribute, submit and present round. Any number of
/// renderers add their encoders; the order in which they do is the order in
/// which the work is submitted.
pub struct FrameContext<O, E> {
    output: Option<O>,
    encoders: Vec<E>,
}

impl<O, E> View for FrameContext<O, E> {
    type V = Frame<O, E>;

    closed spec fn view(&self) -> Frame<O, E> {
        Frame { output: self.output, encoders: self.encoders@ }
    }
}

impl<O, E> FrameContext<O, E> {
    /// A frame on an image that was acquired.
    pub fn new(output: O) -> (frame: Self)
        ensures
            frame@ == Frame::<O, E>::begun(output),
    {
        FrameContext { output: Some(output), encoders: Vec::new() }
    }

    /// Begins a frame on what the surface answered when it was asked for its
    /// next image. Where it answered with an error there is no frame, and
    /// the error says whether the draw may be skipped.
    pub fn begin_frame(acquired: Result<O, SurfaceError>) -> (frame: Result<Self, FrameError>)
        ensures
            match acquired {
                Ok(output) => frame matches Ok(begun) && begun@ == Frame::<O, E>::begun(output),
                Err(error) => frame matches Err(reason) && reason == FrameError::Surface(error),
            },
    {
        match acquired {
            Ok(output) => Ok(FrameContext::new(output)),
            Err(error) => Err(FrameError::Surface(error)),
        }
    }

    /// The acquired image, as long as the frame has not been presented.
    pub fn output(&self) -> (output: Option<&O>)
        ensures
            match output {
                Some(image) => self@.output == Some(*image),
                None => self@.output is None,
            },
    {
        self.output.as_ref()
    }

    /// Adds `encoder` behind the encoders that were contributed before. A
    /// frame that has been presented takes no encoder.
    pub fn add_encoder(&mut self, encoder: E) -> (added: Result<(), FrameError>)
        ensures
            final(self)@ == old(self)@.contribute(encoder),
            old(self)@.open() ==> added is Ok,
            !old(self)@.open() ==> added == Err::<(), FrameError>(FrameError::Presented),
    {
        if self.output.is_some() {
            self.encoders.push(encoder);
            Ok(())
        } else {
            Err(FrameError::Presented)
        }
    }

    /// Closes the frame and hands over everything that was contributed, in
    /// contribution order, with the image to present. A frame can be
    /// finished once.
    pub fn finish_and_present(&mut self) -> (batch: Result<Submission<O, E>, FrameError>)
        ensures
            match batch {
                Ok(submission) => old(self)@.output == Some(submission.output)
                    && submission.encoders@ == old(self)@.encoders && final(self)@ == old(
                    self,
                )@.finish(),
                Err(error) => !old(self)@.open() && error == FrameError::Presented && final(self)@
                    == old(self)@,
            },
    {
        match self.output.take() {
            Some(output) => {
                let mut encoders = Vec::new();
                std::mem::swap(&mut encoders, &mut self.encoders);
                Ok(Submission { output, encoders })
            },
            None => Err(FrameError::Presented),
        }
    }
}

/// Encoders are submitted in the order in which they were contributed: a
/// frame that was begun, took `first` and then `second`, holds those two in
/// that order when it is finished. Once finished, it is no longer open, and
/// a later contribution leaves it as it is.
pub proof fn law_submission_order<O, E>(output: O, first: E, second: E, late: E)
    ensures
        Frame::<O, E>::begun(output).contribute(first).contribute(second).encoders == seq![
            first,
            second,
        ],
        Frame::<O, E>::begun(output).contribute(first).contribute(second).open(),
        !Frame::<O, E>::begun(output).contribute(first).contribute(second).finish().open(),
        Frame::<O, E>::begun(output).contribute(first).contribute(second).finish().contribute(late)
            == Frame::<O, E>::begun(output).contribute(first).contribute(second).finish(),
{
}

} // verus!
