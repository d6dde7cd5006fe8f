//! The byte-level field encoder, `csv_core::Writer`, as this crate relies on it.
//!
//! The encoder is a deterministic state machine: what it emits for a field, a
//! delimiter or a terminator depends only on its configuration, on what it was
//! handed before, and on the input. Each step is named below as a function of
//! the encoder value, returning the bytes emitted and the encoder afterwards.
use crate::{QuoteStyle, Terminator};
use csv_core::{
    QuoteStyle as CoreQuoteStyle, Terminator as CoreTerminator, Writer as CoreWriter,
};
use vstd::prelude::*;

verus! {

#[verifier::external_type_specification]
#[verifier::external_body]
pub struct ExCoreWriter(CoreWriter);

#[verifier::external_type_specification]
#[verifier::external_body]
pub struct ExWriteResult(csv_core::WriteResult);

#[verifier::external_type_specification]
pub struct ExCoreQuoteStyle(CoreQuoteStyle);

#[verifier::external_type_specification]
pub struct ExCoreTerminator(CoreTerminator);

/// The bytes that `CoreWriter::field` emits for a whole field `input`
/// on the encoder `w`, and the encoder afterwards.
pub uninterp spec fn field_step(w: CoreWriter, input: Seq<u8>) -> (Seq<u8>, CoreWriter);

/// The bytes that `CoreWriter::delimiter` emits on the encoder `w` (the
/// closing quote of a quoted field, then the delimiter), and the encoder afterwards.
pub uninterp spec fn delimiter_step(w: CoreWriter) -> (Seq<u8>, CoreWriter);

/// The bytes that `CoreWriter::terminator` emits on the encoder `w` (a
/// closing quote or the `""` of an empty record, then the terminator), and the
/// encoder afterwards.
pub uninterp spec fn terminator_step(w: CoreWriter) -> (Seq<u8>, CoreWriter);

/// The encoder that `csv_core::WriterBuilder` builds from these settings.
pub uninterp spec fn built_encoder(
    delimiter: u8,
    quote: u8,
    escape: u8,
    double_quote: bool,
    style: CoreQuoteStyle,
    term: CoreTerminator,
) -> CoreWriter;

/// One call of the encoder made with the room it asks for: a whole field, a
/// delimiter or a terminator.
pub enum Stroke {
    Field(Seq<u8>),
    Delimiter,
    Terminator,
}

/// What the encoder `w` emits for a stroke, and the encoder afterwards.
pub open spec fn stroke_step(w: CoreWriter, s: Stroke) -> (Seq<u8>, CoreWriter) {
    match s {
        Stroke::Field(input) => field_step(w, input),
        Stroke::Delimiter => delimiter_step(w),
        Stroke::Terminator => terminator_step(w),
    }
}

/// The encoder `w` after the strokes `ss`, in order.
pub open spec fn run(w: CoreWriter, ss: Seq<Stroke>) -> CoreWriter
    decreases ss.len(),
{
    if ss.len() == 0 {
        w
    } else {
        stroke_step(run(w, ss.drop_last()), ss.last()).1
    }
}

/// Whether the encoder is one that a builder built and that was then handed
/// only strokes with the room they ask for. Such an encoder never holds an
/// open quote in a record with no bytes: a quoted field writes its opening
/// quote, and only a delimiter or terminator, which close the quote first,
/// start a record afresh.
pub open spec fn reachable(w: CoreWriter) -> bool {
    exists|d: u8, q: u8, e: u8, dq: bool, st: CoreQuoteStyle, t: CoreTerminator, ss: Seq<Stroke>|
        w == #[trigger] run(built_encoder(d, q, e, dq, st, t), ss)
}

/// A built encoder is reachable.
pub proof fn lemma_built_reachable(
    d: u8,
    q: u8,
    e: u8,
    dq: bool,
    st: CoreQuoteStyle,
    t: CoreTerminator,
)
    ensures
        reachable(built_encoder(d, q, e, dq, st, t)),
{
    let ss = Seq::<Stroke>::empty();
    assert(built_encoder(d, q, e, dq, st, t) == run(built_encoder(d, q, e, dq, st, t), ss));
}

/// One more stroke keeps an encoder reachable.
pub proof fn lemma_stroke_reachable(w: CoreWriter, s: Stroke)
    requires
        reachable(w),
    ensures
        reachable(stroke_step(w, s).1),
{
    let (d, q, e, dq, st, t, ss) = choose|
        d: u8,
        q: u8,
        e: u8,
        dq: bool,
        st: CoreQuoteStyle,
        t: CoreTerminator,
        ss: Seq<Stroke>,
    | w == #[trigger] run(built_encoder(d, q, e, dq, st, t), ss);
    let ss2 = ss.push(s);
    assert(ss2.drop_last() =~= ss);
    assert(stroke_step(w, s).1 == run(built_encoder(d, q, e, dq, st, t), ss2));
}

/// Relies on `CoreWriter::field`: with room for twice the input and two
/// more bytes (every input byte escaped, plus an opening quote) it consumes
/// the whole input and writes its encoding at the front of `output`.
pub assume_specification[ CoreWriter::field ](
    w: &mut CoreWriter,
    input: &[u8],
    output: &mut [u8],
) -> (r: (csv_core::WriteResult, usize, usize))
    requires
        old(output)@.len() >= 2 * input@.len() + 2,
    ensures
        r.1 == input@.len(),
        r.2 == field_step(*old(w), input@).0.len(),
        r.2 <= old(output)@.len(),
        final(output)@.len() == old(output)@.len(),
        final(output)@.subrange(0, r.2 as int) == field_step(*old(w), input@).0,
        *final(w) == field_step(*old(w), input@).1,
;

/// Relies on `CoreWriter::delimiter`: it writes at most two bytes (a
/// closing quote and the delimiter) at the front of `output`.
pub assume_specification[ CoreWriter::delimiter ](
    w: &mut CoreWriter,
    output: &mut [u8],
) -> (r: (csv_core::WriteResult, usize))
    requires
        old(output)@.len() >= 2,
    ensures
        r.1 == delimiter_step(*old(w)).0.len(),
        r.1 <= old(output)@.len(),
        final(output)@.len() == old(output)@.len(),
        final(output)@.subrange(0, r.1 as int) == delimiter_step(*old(w)).0,
        *final(w) == delimiter_step(*old(w)).1,
;

/// Relies on `CoreWriter::terminator`: it writes at most four bytes (a
/// closing quote or the `""` of an empty record, then a terminator of at most
/// two bytes) at the front of `output`. Its internal assertion (no open quote
/// in a record with no bytes) holds of every reachable encoder, see
/// `reachable`; an encoder whose `field` ran out of room for the opening quote
/// is not one.
pub assume_specification[ CoreWriter::terminator ](
    w: &mut CoreWriter,
    output: &mut [u8],
) -> (r: (csv_core::WriteResult, usize))
    requires
        old(output)@.len() >= 4,
        reachable(*old(w)),
    ensures
        r.1 == terminator_step(*old(w)).0.len(),
        r.1 <= old(output)@.len(),
        final(output)@.len() == old(output)@.len(),
        final(output)@.subrange(0, r.1 as int) == terminator_step(*old(w)).0,
        *final(w) == terminator_step(*old(w)).1,
;

/// Relies on `csv_core::WriterBuilder`: a new builder given these settings
/// (and no comment byte) builds the encoder named by `built_encoder`.
#[verifier::external_body]
pub(crate) fn build_encoder(
    delimiter: u8,
    quote: u8,
    escape: u8,
    double_quote: bool,
    style: CoreQuoteStyle,
    term: CoreTerminator,
) -> (w: CoreWriter)
    ensures
        w == built_encoder(delimiter, quote, escape, double_quote, style, term),
{
    let mut b = csv_core::WriterBuilder::new();
    b.delimiter(delimiter).quote(quote).escape(escape).double_quote(double_quote);
    b.quote_style(style).terminator(term);
    b.build()
}

impl QuoteStyle {
    /// The encoder's quoting style of the same name.
    pub(crate) fn to_core(self) -> (r: CoreQuoteStyle)
        ensures
            r == core_quote_style(self),
    {
        match self {
            QuoteStyle::Always => CoreQuoteStyle::Always,
            QuoteStyle::Necessary => CoreQuoteStyle::Necessary,
            QuoteStyle::NonNumeric => CoreQuoteStyle::NonNumeric,
            QuoteStyle::Never => CoreQuoteStyle::Never,
        }
    }
}

impl Terminator {
    /// The encoder's terminator of the same name.
    pub(crate) fn to_core(self) -> (r: CoreTerminator)
        ensures
            r == core_terminator(self),
    {
        match self {
            Terminator::CRLF => CoreTerminator::CRLF,
            Terminator::Any(b) => CoreTerminator::Any(b),
        }
    }
}

/// The encoder's quoting style for a quoting style of this crate.
pub open spec fn core_quote_style(s: QuoteStyle) -> CoreQuoteStyle {
    match s {
        QuoteStyle::Always => CoreQuoteStyle::Always,
        QuoteStyle::Necessary => CoreQuoteStyle::Necessary,
        QuoteStyle::NonNumeric => CoreQuoteStyle::NonNumeric,
        QuoteStyle::Never => CoreQuoteStyle::Never,
    }
}

/// The encoder's terminator for a terminator of this crate.
pub open spec fn core_terminator(t: Terminator) -> CoreTerminator {
    match t {
        Terminator::CRLF => CoreTerminator::CRLF,
        Terminator::Any(b) => CoreTerminator::Any(b),
    }
}

} // verus!
