//! The push adapter: an asynchronous source of values and a writer, giving
//! one encoded row per value. Polling the source is left to the caller; this
//! adapter decides what each poll's outcome becomes.
use crate::error::Error;
use crate::value::Value;
use crate::writer::{row_as, serialize_fits, serialize_step, Writer, WriterView};
use std::task::Poll;
use vstd::prelude::*;

verus! {

#[verifier::external_type_specification]
#[verifier::reject_recursive_types(T)]
pub struct ExPoll<T>(std::task::Poll<T>);

/// A streamable CSV creator: a source of values and the writer that encodes
/// them, one row per value. The writer's header and field-count state is
/// shared by all the values.
pub struct Stream<S> {
    stream: S,
    writer: Writer,
}

impl<S> View for Stream<S> {
    type V = WriterView;

    /// The adapter's writer.
    closed spec fn view(&self) -> WriterView {
        self.writer@
    }
}

impl<S> Stream<S> {
    /// Whether its writer is well formed (see `Writer::wf`).
    pub closed spec fn wf(&self) -> bool {
        self.writer.wf()
    }

    /// The writer that encodes the values.
    pub fn writer(&self) -> (r: &Writer)
        ensures
            r@ == self@,
            r.wf() == self.wf(),
    {
        &self.writer
    }

    /// An adapter over the source `stream` that writes with `writer`.
    pub fn new(stream: S, writer: Writer) -> (r: Stream<S>)
        requires
            writer.wf(),
        ensures
            r@ == writer@,
            r.wf(),
    {
        Stream { stream, writer }
    }

    /// The source of values, to be polled.
    pub fn source(&mut self) -> (r: &mut S)
        ensures
            final(self)@ == old(self)@,
            final(self).wf() == old(self).wf(),
    {
        &mut self.stream
    }

    /// What one poll of the source becomes: not ready and completion pass
    /// through; a value is serialized as a row into a fresh buffer, and a
    /// failure to write it is handed on as an error item.
    pub fn poll_step(&mut self, polled: Poll<Option<Value>>) -> (r: Poll<
        Option<Result<Vec<u8>, Error>>,
    >)
        requires
            old(self).wf(),
            polled matches Poll::Ready(Some(v)) ==> serialize_fits(old(self)@, 0, v),
        ensures
            final(self).wf(),
            polled is Pending ==> r is Pending && final(self)@ == old(self)@,
            polled == Poll::<Option<Value>>::Ready(None) ==> r == Poll::<
                Option<Result<Vec<u8>, Error>>,
            >::Ready(None) && final(self)@ == old(self)@,
            polled matches Poll::Ready(Some(v)) ==> {
                let step = serialize_step(old(self)@, v);
                &&& r matches Poll::Ready(Some(row)) && row_as(row, step)
                &&& final(self)@ == step.writer
            },
    {
        match polled {
            Poll::Pending => Poll::Pending,
            Poll::Ready(None) => Poll::Ready(None),
            Poll::Ready(Some(v)) => Poll::Ready(Some(self.writer.serialize_row(v))),
        }
    }
}

} // verus!
