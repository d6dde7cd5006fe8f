//! The pull adapter: a sequence of values and a writer, giving one encoded
//! row per value.
use crate::error::Error;
use crate::value::Value;
use crate::writer::{row_as, serialize_fits, serialize_step, Writer, WriterView};
use vstd::prelude::*;

verus! {

/// What an `Iter` holds: the values not yet pulled, in order, and its writer.
pub struct IterView {
    pub remaining: Seq<Value>,
    pub writer: WriterView,
}

/// An iterable CSV creator: each pull serializes the next value with one
/// writer into a fresh buffer. The writer's header and field-count state is
/// shared by all the values.
pub struct Iter {
    /// The values not yet pulled, last first.
    pending: Vec<Value>,
    writer: Writer,
}

impl View for Iter {
    type V = IterView;

    closed spec fn view(&self) -> IterView {
        IterView { remaining: self.pending@.reverse(), writer: self.writer@ }
    }
}

impl Iter {
    /// Whether its writer is well formed (see `Writer::wf`).
    pub closed spec fn wf(&self) -> bool {
        self.writer.wf()
    }

    /// The writer that encodes the values.
    pub fn writer(&self) -> (r: &Writer)
        ensures
            r@ == self@.writer,
            r.wf() == self.wf(),
    {
        &self.writer
    }

    /// An adapter over `values` that writes with `writer`.
    pub fn new(values: Vec<Value>, writer: Writer) -> (r: Iter)
        requires
            writer.wf(),
        ensures
            r.wf(),
            r@.remaining == values@,
            r@.writer == writer@,
    {
        let mut values = values;
        let ghost all = values@;
        let mut pending: Vec<Value> = Vec::new();
        while values.len() > 0
            invariant
                all == values@ + pending@.reverse(),
            decreases values@.len(),
        {
            let v = values.pop().unwrap();
            pending.push(v);
            assert(all =~= values@ + pending@.reverse());
        }
        assert(all =~= pending@.reverse());
        Iter { pending, writer }
    }

    /// Pull the next value and serialize it as a row into a fresh buffer;
    /// `None` once the values are exhausted.
    pub fn next(&mut self) -> (r: Option<Result<Vec<u8>, Error>>)
        requires
            old(self).wf(),
            old(self)@.remaining.len() > 0 ==> serialize_fits(
                old(self)@.writer,
                0,
                old(self)@.remaining[0],
            ),
        ensures
            final(self).wf(),
            old(self)@.remaining.len() == 0 ==> r is None && final(self)@ == old(self)@,
            old(self)@.remaining.len() > 0 ==> {
                let step = serialize_step(old(self)@.writer, old(self)@.remaining[0]);
                &&& r is Some
                &&& row_as(r->Some_0, step)
                &&& final(self)@ == (IterView {
                    remaining: old(self)@.remaining.drop_first(),
                    writer: step.writer,
                })
            },
    {
        match self.pending.pop() {
            None => None,
            Some(v) => {
                proof {
                    assert(old(self).pending@.reverse()[0] == v);
                    assert(self.pending@.reverse() =~= old(self).pending@.reverse().drop_first());
                }
                Some(self.writer.serialize_row(v))
            },
        }
    }
}

} // verus!
