use crate::encoder::{
    build_encoder, built_encoder, core_quote_style, core_terminator, delimiter_step, field_step,
    lemma_built_reachable, lemma_stroke_reachable, reachable, stroke_step, terminator_step, Stroke,
};
use crate::error::{Error, ErrorKind};
use crate::serializer::{flatten_into, header_into, texts};
use crate::value::{flatten, header_row, Value};
use csv_core::Writer as CoreWriter;
use crate::{QuoteStyle, Terminator};
use vstd::prelude::*;

verus! {

/// One piece of a row, as the encoder writes it.
pub enum Piece<'a> {
    /// A whole field.
    Field(&'a [u8]),
    /// The delimiter between two fields.
    Delimiter,
    /// The end of a record.
    Terminator,
}

/// The room that `extend` reserves for a piece: twice a field's length and
/// two more bytes (every byte escaped, plus an opening quote), two bytes for a
/// delimiter (a closing quote and the delimiter), four for a terminator (the
/// `""` of an empty record and a two-byte terminator).
pub open spec fn piece_room(piece: Piece) -> int {
    match piece {
        Piece::Field(f) => 2 * f@.len() as int + 2,
        Piece::Delimiter => 2,
        Piece::Terminator => 4,
    }
}

/// What the encoder `core` emits for a piece, and the encoder afterwards.
pub open spec fn piece_step(core: CoreWriter, piece: Piece) -> (Seq<u8>, CoreWriter) {
    stroke_step(core, stroke_of(piece))
}

/// The encoder call that a piece is.
pub open spec fn stroke_of(piece: Piece) -> Stroke {
    match piece {
        Piece::Field(f) => Stroke::Field(f@),
        Piece::Delimiter => Stroke::Delimiter,
        Piece::Terminator => Stroke::Terminator,
    }
}

/// Appends the encoding of `piece` to `buf`.
///
/// The buffer is first grown by `max` bytes, the encoder writes into that
/// room, and the buffer is then cut back to what the encoder wrote: the
/// encoder never has to allocate.
pub fn extend(buf: &mut Vec<u8>, max: usize, core: &mut CoreWriter, piece: Piece)
    requires
        max >= piece_room(piece),
        old(buf)@.len() + max <= usize::MAX,
        reachable(*old(core)),
    ensures
        final(buf)@ == old(buf)@ + piece_step(*old(core), piece).0,
        reachable(*final(core)),
        *final(core) == piece_step(*old(core), piece).1,
        piece_step(*old(core), piece).0.len() <= max,
{
    let len = buf.len();
    buf.resize(len + max, 0);
    let n: usize;
    {
        let (_, tail) = buf.as_mut_slice().split_at_mut(len);
        n = match piece {
            Piece::Field(f) => core.field(f, tail).2,
            Piece::Delimiter => core.delimiter(tail).1,
            Piece::Terminator => core.terminator(tail).1,
        };
    }
    buf.truncate(len + n);
    assert(buf@ =~= old(buf)@ + piece_step(*old(core), piece).0);
    proof {
        lemma_stroke_reachable(*old(core), stroke_of(piece));
    }
}


/// The settings that a `WriterBuilder` holds.
pub struct WriterConfig {
    pub delimiter: u8,
    pub quote: u8,
    pub escape: u8,
    pub double_quote: bool,
    pub quote_style: QuoteStyle,
    pub terminator: Terminator,
    pub capacity: usize,
    pub flexible: bool,
    pub has_headers: bool,
}

/// The default settings: comma, double quote, backslash, doubled quotes,
/// quoting where necessary, `\n` after each record, an 8 KiB buffer hint,
/// equal record lengths and a header row.
pub open spec fn default_config() -> WriterConfig {
    WriterConfig {
        delimiter: 44,
        quote: 34,
        escape: 92,
        double_quote: true,
        quote_style: QuoteStyle::Necessary,
        terminator: Terminator::Any(10),
        capacity: 8192,
        flexible: false,
        has_headers: true,
    }
}

/// Builds a CSV writer with various configuration knobs.
#[derive(Debug)]
pub struct WriterBuilder {
    delimiter: u8,
    quote: u8,
    escape: u8,
    double_quote: bool,
    quote_style: QuoteStyle,
    terminator: Terminator,
    capacity: usize,
    flexible: bool,
    has_headers: bool,
}

impl View for WriterBuilder {
    type V = WriterConfig;

    closed spec fn view(&self) -> WriterConfig {
        WriterConfig {
            delimiter: self.delimiter,
            quote: self.quote,
            escape: self.escape,
            double_quote: self.double_quote,
            quote_style: self.quote_style,
            terminator: self.terminator,
            capacity: self.capacity,
            flexible: self.flexible,
            has_headers: self.has_headers,
        }
    }
}

impl Default for WriterBuilder {
    fn default() -> (r: WriterBuilder)
        ensures
            r@ == default_config(),
    {
        WriterBuilder {
            delimiter: 44u8,
            quote: 34u8,
            escape: 92u8,
            double_quote: true,
            quote_style: QuoteStyle::Necessary,
            terminator: Terminator::Any(10u8),
            capacity: 8192,
            flexible: false,
            has_headers: true,
        }
    }
}

impl WriterBuilder {
    /// Build a CSV writer from this configuration.
    pub fn build(&self) -> (r: Writer)
        ensures
            r.wf(),
            r@ == initial_writer(self@),
    {
        Writer::new(self)
    }

    /// The field delimiter to use when writing CSV. The default is `b','`.
    pub fn delimiter(&mut self, delimiter: u8) -> (r: &mut WriterBuilder)
        ensures
            r@ == (WriterConfig { delimiter, ..old(self)@ }),
            final(self)@ == final(r)@,
    {
        self.delimiter = delimiter;
        self
    }

    /// Whether to write a header row before the first serialized value. The
    /// default is `true`.
    ///
    /// The header row holds the field names of the first value, when that
    /// value is a named aggregate of scalars (or a sequence of such). It is
    /// written only by `serialize`, never by `write_record` or `write_field`.
    pub fn has_headers(&mut self, yes: bool) -> (r: &mut WriterBuilder)
        ensures
            r@ == (WriterConfig { has_headers: yes, ..old(self)@ }),
            final(self)@ == final(r)@,
    {
        self.has_headers = yes;
        self
    }

    /// Whether records of unequal length may be written. The default is
    /// `false`: a record whose length differs from the first one is an error.
    pub fn flexible(&mut self, yes: bool) -> (r: &mut WriterBuilder)
        ensures
            r@ == (WriterConfig { flexible: yes, ..old(self)@ }),
            final(self)@ == final(r)@,
    {
        self.flexible = yes;
        self
    }

    /// The record terminator. The default is `\n`; `Terminator::CRLF` writes
    /// `\r\n`.
    pub fn terminator(&mut self, term: Terminator) -> (r: &mut WriterBuilder)
        ensures
            r@ == (WriterConfig { terminator: term, ..old(self)@ }),
            final(self)@ == final(r)@,
    {
        self.terminator = term;
        self
    }

    /// The quoting style to use when writing CSV. The default is
    /// `QuoteStyle::Necessary`.
    pub fn quote_style(&mut self, style: QuoteStyle) -> (r: &mut WriterBuilder)
        ensures
            r@ == (WriterConfig { quote_style: style, ..old(self)@ }),
            final(self)@ == final(r)@,
    {
        self.quote_style = style;
        self
    }

    /// The quote character to use when writing CSV. The default is `b'"'`.
    pub fn quote(&mut self, quote: u8) -> (r: &mut WriterBuilder)
        ensures
            r@ == (WriterConfig { quote, ..old(self)@ }),
            final(self)@ == final(r)@,
    {
        self.quote = quote;
        self
    }

    /// Whether quotes inside a field are escaped by doubling them (the
    /// default) or by the escape character.
    pub fn double_quote(&mut self, yes: bool) -> (r: &mut WriterBuilder)
        ensures
            r@ == (WriterConfig { double_quote: yes, ..old(self)@ }),
            final(self)@ == final(r)@,
    {
        self.double_quote = yes;
        self
    }

    /// The escape character used for quotes when `double_quote` is disabled.
    /// The default is `b'\\'`.
    pub fn escape(&mut self, escape: u8) -> (r: &mut WriterBuilder)
        ensures
            r@ == (WriterConfig { escape, ..old(self)@ }),
            final(self)@ == final(r)@,
    {
        self.escape = escape;
        self
    }
}

/// Whether the header row is still to be decided, was written, was not
/// written, or is not wanted at all.
#[derive(Clone, Copy, Debug, PartialEq, Eq, Structural)]
pub enum HeaderState {
    /// The next serialized value decides whether a header row is written.
    Write,
    /// A header row was written.
    DidWrite,
    /// The first serialized value admitted no header row.
    DidNotWrite,
    /// Header rows are disabled.
    Disabled,
}

/// What a `Writer` holds: its encoder and the state of the rows written.
pub struct WriterView {
    pub core: CoreWriter,
    pub header: HeaderState,
    pub flexible: bool,
    pub first_field_count: Option<u64>,
    pub fields_written: u64,
}

/// A writer fresh from a builder with the settings `c`.
pub open spec fn initial_writer(c: WriterConfig) -> WriterView {
    WriterView {
        core: built_encoder(
            c.delimiter,
            c.quote,
            c.escape,
            c.double_quote,
            core_quote_style(c.quote_style),
            core_terminator(c.terminator),
        ),
        header: if c.has_headers {
            HeaderState::Write
        } else {
            HeaderState::Disabled
        },
        flexible: c.flexible,
        first_field_count: None,
        fields_written: 0,
    }
}

/// The encoder once the delimiter before a new field, if the field does not
/// open the row, is written.
pub open spec fn core_before_field(w: WriterView) -> CoreWriter {
    if w.fields_written > 0 {
        delimiter_step(w.core).1
    } else {
        w.core
    }
}

/// The bytes that one more field adds to the row: a delimiter unless the
/// field opens the row, then the encoded field.
pub open spec fn field_bytes(w: WriterView, field: Seq<u8>) -> Seq<u8> {
    (if w.fields_written > 0 {
        delimiter_step(w.core).0
    } else {
        Seq::empty()
    }) + field_step(core_before_field(w), field).0
}

/// The writer after one more field.
pub open spec fn after_field(w: WriterView, field: Seq<u8>) -> WriterView {
    WriterView {
        core: field_step(core_before_field(w), field).1,
        fields_written: (w.fields_written + 1) as u64,
        ..w
    }
}

/// The writer after the fields `fs`, in order.
pub open spec fn after_fields(w: WriterView, fs: Seq<Seq<u8>>) -> WriterView
    decreases fs.len(),
{
    if fs.len() == 0 {
        w
    } else {
        after_field(after_fields(w, fs.drop_last()), fs.last())
    }
}

/// The bytes that the fields `fs` add to the row, in order.
pub open spec fn fields_bytes(w: WriterView, fs: Seq<Seq<u8>>) -> Seq<u8>
    decreases fs.len(),
{
    if fs.len() == 0 {
        Seq::empty()
    } else {
        fields_bytes(w, fs.drop_last()) + field_bytes(after_fields(w, fs.drop_last()), fs.last())
    }
}

/// The room that writing the fields `fs` reserves in the buffer: for each,
/// two bytes of delimiter and the room of the field itself.
pub open spec fn fields_room(fs: Seq<Seq<u8>>) -> int
    decreases fs.len(),
{
    if fs.len() == 0 {
        0
    } else {
        fields_room(fs.drop_last()) + 2 * fs.last().len() + 4
    }
}

/// Whether the row being assembled may end: always in flexible mode, and
/// otherwise when it is the first row or has as many fields as the first.
pub open spec fn row_may_end(w: WriterView) -> bool {
    w.flexible || match w.first_field_count {
        None => true,
        Some(expected) => expected == w.fields_written,
    }
}

/// Why writing stopped, as the error returned says it.
pub enum Failure {
    /// A row whose field count differs from the first row's.
    UnequalLengths { expected_len: u64, len: u64 },
    /// A value with no flat form, and why.
    Serialize(Seq<char>),
}

/// Whether the error `e` reports the failure `f`.
pub open spec fn reports(e: Error, f: Failure) -> bool {
    match (e@, f) {
        (
            ErrorKind::UnequalLengths { expected_len: a, len: b },
            Failure::UnequalLengths { expected_len: c, len: d },
        ) => a == c && b == d,
        (ErrorKind::Serialize(s), Failure::Serialize(m)) => s@ == m,
        _ => false,
    }
}

/// The failure of a row that may not end: the first row's field count and
/// this row's.
pub open spec fn unequal_lengths(w: WriterView) -> Failure {
    Failure::UnequalLengths {
        expected_len: match w.first_field_count {
            Some(expected) => expected,
            None => 0,
        },
        len: w.fields_written,
    }
}

/// The end of the row being assembled: the writer afterwards and the bytes
/// written. A row that may not end leaves both as they are.
pub open spec fn end_row(w: WriterView) -> (WriterView, Seq<u8>) {
    if row_may_end(w) {
        (
            WriterView {
                core: terminator_step(w.core).1,
                first_field_count: if !w.flexible && w.first_field_count is None {
                    Some(w.fields_written)
                } else {
                    w.first_field_count
                },
                fields_written: 0,
                ..w
            },
            terminator_step(w.core).0,
        )
    } else {
        (w, Seq::empty())
    }
}

/// What a write did: the writer afterwards, the bytes appended to the
/// buffer, and the failure that stopped it, if any.
pub struct Step {
    pub writer: WriterView,
    pub bytes: Seq<u8>,
    pub failure: Option<Failure>,
}

/// A whole record: its fields, then the end of the row.
pub open spec fn record_step(w: WriterView, fs: Seq<Seq<u8>>) -> Step {
    let mid = after_fields(w, fs);
    Step {
        writer: end_row(mid).0,
        bytes: fields_bytes(w, fs) + end_row(mid).1,
        failure: if row_may_end(mid) {
            None
        } else {
            Some(unequal_lengths(mid))
        },
    }
}

/// Whether a call that returned `r` ended as `step` says.
pub open spec fn ended_as(r: Result<(), Error>, step: Step) -> bool {
    match step.failure {
        None => r is Ok,
        Some(f) => r is Err && reports(r->Err_0, f),
    }
}

/// Whether a call that returned the row `r` in a fresh buffer ended as
/// `step` says.
pub open spec fn row_as(r: Result<Vec<u8>, Error>, step: Step) -> bool {
    match step.failure {
        None => r is Ok && r->Ok_0@ == step.bytes,
        Some(f) => r is Err && reports(r->Err_0, f),
    }
}

/// What serializing the value `v` does: nothing but a `Serialize` failure if
/// it has no flat form. Otherwise, when the header is still to be decided,
/// the value's header row is written as a record and the header state becomes
/// `DidWrite`, or, where the value admits no header row, it becomes
/// `DidNotWrite`; then the value's fields are written as a record. A header
/// row that fails leaves the header undecided and writes no data row.
pub open spec fn serialize_step(w: WriterView, v: Value) -> Step {
    match flatten(v) {
        Err(m) => Step { writer: w, bytes: Seq::empty(), failure: Some(Failure::Serialize(m)) },
        Ok(fields) => if w.header == HeaderState::Write {
            match header_row(v) {
                Some(names) => {
                    let h = record_step(w, names);
                    if h.failure is Some {
                        h
                    } else {
                        let d = record_step(WriterView { header: HeaderState::DidWrite, ..h.writer }, fields);
                        Step { writer: d.writer, bytes: h.bytes + d.bytes, failure: d.failure }
                    }
                },
                None => record_step(WriterView { header: HeaderState::DidNotWrite, ..w }, fields),
            }
        } else {
            record_step(w, fields)
        },
    }
}

/// The header row that serializing `v` on `w` writes, if any.
pub open spec fn header_to_write(w: WriterView, v: Value) -> Option<Seq<Seq<u8>>> {
    if w.header == HeaderState::Write {
        header_row(v)
    } else {
        None
    }
}

/// The room that serializing `v` on `w` reserves in the buffer: that of the
/// header row it writes, if any, and that of the data row.
pub open spec fn serialize_room(w: WriterView, v: Value) -> int {
    match flatten(v) {
        Err(_) => 0,
        Ok(fields) => match header_to_write(w, v) {
            Some(names) => fields_room(names) + fields_room(fields) + 8,
            None => fields_room(fields) + 4,
        },
    }
}

/// Whether serializing `v` on `w` into a buffer of `len` bytes stays within
/// the machine's integers: the field counts fit in `u64`, and the room that
/// the rows reserve fits in `usize`.
pub open spec fn serialize_fits(w: WriterView, len: int, v: Value) -> bool {
    match flatten(v) {
        Err(_) => true,
        Ok(fields) => {
            &&& len + serialize_room(w, v) <= usize::MAX
            &&& match header_to_write(w, v) {
                Some(names) => w.fields_written + names.len() <= u64::MAX && fields.len() <= u64::MAX,
                None => w.fields_written + fields.len() <= u64::MAX,
            }
        },
    }
}

/// The fields of a record given as byte slices.
pub open spec fn record_fields(record: Seq<&[u8]>) -> Seq<Seq<u8>> {
    record.map_values(|f: &[u8]| f@)
}

/// The field count grows by one with each field, and the header state and
/// mode stay.
pub proof fn lemma_after_fields(w: WriterView, fs: Seq<Seq<u8>>)
    requires
        w.fields_written + fs.len() <= u64::MAX,
    ensures
        after_fields(w, fs).fields_written == w.fields_written + fs.len(),
        after_fields(w, fs).header == w.header,
        after_fields(w, fs).flexible == w.flexible,
        after_fields(w, fs).first_field_count == w.first_field_count,
    decreases fs.len(),
{
    if fs.len() > 0 {
        lemma_after_fields(w, fs.drop_last());
    }
}

/// A CSV writer that encodes rows into byte buffers that its caller owns.
#[derive(Debug)]
pub struct Writer {
    core: CoreWriter,
    state: WriterState,
}

#[derive(Debug)]
struct WriterState {
    header: HeaderState,
    flexible: bool,
    first_field_count: Option<u64>,
    fields_written: u64,
}

impl View for Writer {
    type V = WriterView;

    closed spec fn view(&self) -> WriterView {
        WriterView {
            core: self.core,
            header: self.state.header,
            flexible: self.state.flexible,
            first_field_count: self.state.first_field_count,
            fields_written: self.state.fields_written,
        }
    }
}

impl Default for Writer {
    fn default() -> (r: Writer)
        ensures
            r.wf(),
            r@ == initial_writer(default_config()),
    {
        WriterBuilder::default().build()
    }
}

impl Writer {
    /// Whether the writer's encoder has only been handed calls with the room
    /// they ask for. Every writer that this crate hands out is.
    pub closed spec fn wf(&self) -> bool {
        reachable(self.core)
    }

    fn new(builder: &WriterBuilder) -> (r: Writer)
        ensures
            r.wf(),
            r@ == initial_writer(builder@),
    {
        proof {
            lemma_built_reachable(
                builder.delimiter,
                builder.quote,
                builder.escape,
                builder.double_quote,
                core_quote_style(builder.quote_style),
                core_terminator(builder.terminator),
            );
        }
        let header_state = if builder.has_headers {
            HeaderState::Write
        } else {
            HeaderState::Disabled
        };
        Writer {
            core: build_encoder(
                builder.delimiter,
                builder.quote,
                builder.escape,
                builder.double_quote,
                builder.quote_style.to_core(),
                builder.terminator.to_core(),
            ),
            state: WriterState {
                header: header_state,
                flexible: builder.flexible,
                first_field_count: None,
                fields_written: 0,
            },
        }
    }

    /// Serialize a single value as a row.
    ///
    /// The value is flattened depth first: each scalar is one field. A value
    /// with a variant that carries a payload, or with a map, is a `Serialize`
    /// error and nothing is written.
    ///
    /// On the first call of a writer with headers enabled, a header row is
    /// written first when the value is a named aggregate of scalars (or an
    /// ordered container of such): its field names, depth first. After that
    /// call the header is decided for good. The data row always follows.
    pub fn serialize(&mut self, buf: &mut Vec<u8>, record: Value) -> (r: Result<(), Error>)
        requires
            old(self).wf(),
            serialize_fits(old(self)@, old(buf)@.len() as int, record),
        ensures
            final(self).wf(),
            final(self)@ == serialize_step(old(self)@, record).writer,
            final(buf)@ == old(buf)@ + serialize_step(old(self)@, record).bytes,
            final(buf)@.len() <= old(buf)@.len() + serialize_room(old(self)@, record),
            ended_as(r, serialize_step(old(self)@, record)),
    {
        let mut fields: Vec<Vec<u8>> = Vec::new();
        let flat = flatten_into(&record, &mut fields);
        if let Err(e) = flat {
            return Err(e);
        }
        assert(texts(fields@) =~= flatten(record)->Ok_0);
        if self.state.header == HeaderState::Write {
            let mut names: Vec<Vec<u8>> = Vec::new();
            let admits = header_into(&record, &mut names);
            assert(admits ==> texts(names@) =~= crate::value::header_names(record)->Some_0);
            if admits && names.len() > 0 {
                proof {
                    lemma_after_fields(self@, texts(names@));
                    lemma_fields_room_nonneg(texts(fields@));
                }
                self.write_fields(buf, &names);
                self.write_terminator(buf)?;
                self.state.header = HeaderState::DidWrite;
            } else {
                self.state.header = HeaderState::DidNotWrite;
            }
        }
        proof {
            lemma_after_fields(self@, texts(fields@));
        }
        self.write_fields(buf, &fields);
        self.write_terminator(buf)
    }

    /// Serialize a single value as a row into a fresh buffer, and return the
    /// buffer.
    pub fn serialize_row(&mut self, record: Value) -> (r: Result<Vec<u8>, Error>)
        requires
            old(self).wf(),
            serialize_fits(old(self)@, 0, record),
        ensures
            final(self).wf(),
            final(self)@ == serialize_step(old(self)@, record).writer,
            row_as(r, serialize_step(old(self)@, record)),
    {
        let mut buf: Vec<u8> = Vec::new();
        match self.serialize(&mut buf, record) {
            Ok(()) => Ok(buf),
            Err(e) => Err(e),
        }
    }

    /// Whether serializing `record` into a buffer of `buf_len` bytes stays
    /// within the machine's integers (see `serialize_fits`): the check to make
    /// before `serialize` where that is not known otherwise.
    pub fn can_serialize(&self, buf_len: usize, record: &Value) -> (r: bool)
        ensures
            r == serialize_fits(self@, buf_len as int, *record),
    {
        let mut fields: Vec<Vec<u8>> = Vec::new();
        if flatten_into(record, &mut fields).is_err() {
            return true;
        }
        assert(texts(fields@) =~= flatten(*record)->Ok_0);
        let mut names: Vec<Vec<u8>> = Vec::new();
        let header = self.state.header == HeaderState::Write && header_into(record, &mut names)
            && names.len() > 0;
        assert(header ==> texts(names@) =~= crate::value::header_names(*record)->Some_0);
        proof {
            lemma_fields_room_nonneg(texts(fields@));
            lemma_fields_room_nonneg(texts(names@));
        }
        if header {
            if (self.state.fields_written as u128) + (names.len() as u128) > u64::MAX as u128
                || fields.len() as u128 > u64::MAX as u128 || buf_len > usize::MAX - 8 {
                return false;
            }
            match room_within(&names, usize::MAX - 8 - buf_len) {
                None => false,
                Some(n) => room_within(&fields, usize::MAX - 8 - buf_len - n).is_some(),
            }
        } else {
            if (self.state.fields_written as u128) + (fields.len() as u128) > u64::MAX as u128
                || buf_len > usize::MAX - 4 {
                return false;
            }
            room_within(&fields, usize::MAX - 4 - buf_len).is_some()
        }
    }

    fn write_fields(&mut self, buf: &mut Vec<u8>, fields: &Vec<Vec<u8>>)
        requires
            old(self).wf(),
            old(self)@.fields_written + fields@.len() <= u64::MAX,
            old(buf)@.len() + fields_room(texts(fields@)) + 4 <= usize::MAX,
        ensures
            final(self).wf(),
            final(self)@ == after_fields(old(self)@, texts(fields@)),
            final(buf)@ == old(buf)@ + fields_bytes(old(self)@, texts(fields@)),
            final(buf)@.len() <= old(buf)@.len() + fields_room(texts(fields@)),
    {
        let ghost fs = texts(fields@);
        let mut i: usize = 0;
        while i < fields.len()
            invariant
                0 <= i <= fields@.len(),
                fs == texts(fields@),
                old(self)@.fields_written + fields@.len() <= u64::MAX,
                old(buf)@.len() + fields_room(fs) + 4 <= usize::MAX,
                self.wf(),
                self@ == after_fields(old(self)@, fs.take(i as int)),
                buf@ == old(buf)@ + fields_bytes(old(self)@, fs.take(i as int)),
                buf@.len() <= old(buf)@.len() + fields_room(fs.take(i as int)),
            decreases fields@.len() - i,
        {
            proof {
                lemma_after_fields(old(self)@, fs.take(i as int));
                lemma_fields_room_prefix(fs, i as int);
                assert(fs.take(i as int + 1).drop_last() =~= fs.take(i as int));
                assert(fs.take(i as int + 1).last() == fields@[i as int]@);
            }
            self.write_field_impl(buf, fields[i].as_slice());
            i = i + 1;
        }
        assert(fs.take(i as int) =~= fs);
    }

    /// Write a single record: its fields, delimited, then a terminator.
    ///
    /// An empty record is a row of zero fields; the encoder writes it as
    /// `""`, as it writes a record of one empty field.
    ///
    /// Unless the writer is flexible, a record whose field count differs from
    /// that of the first row is an `UnequalLengths` error: its fields are
    /// then in `buf`, but no terminator, and the row stays open.
    pub fn write_record(&mut self, buf: &mut Vec<u8>, record: &[&[u8]]) -> (r: Result<(), Error>)
        requires
            old(self).wf(),
            old(self)@.fields_written + record@.len() <= u64::MAX,
            old(buf)@.len() + fields_room(record_fields(record@)) + 4 <= usize::MAX,
        ensures
            final(self).wf(),
            final(self)@ == record_step(old(self)@, record_fields(record@)).writer,
            final(buf)@ == old(buf)@ + record_step(old(self)@, record_fields(record@)).bytes,
            final(buf)@.len() <= old(buf)@.len() + fields_room(record_fields(record@)) + 4,
            ended_as(r, record_step(old(self)@, record_fields(record@))),
    {
        let ghost fs = record_fields(record@);
        let mut i: usize = 0;
        while i < record.len()
            invariant
                0 <= i <= record@.len(),
                fs == record_fields(record@),
                old(self)@.fields_written + record@.len() <= u64::MAX,
                old(buf)@.len() + fields_room(fs) + 4 <= usize::MAX,
                self.wf(),
                self@ == after_fields(old(self)@, fs.take(i as int)),
                buf@ == old(buf)@ + fields_bytes(old(self)@, fs.take(i as int)),
                buf@.len() <= old(buf)@.len() + fields_room(fs.take(i as int)),
            decreases record@.len() - i,
        {
            proof {
                lemma_after_fields(old(self)@, fs.take(i as int));
                lemma_fields_room_prefix(fs, i as int);
                assert(fs.take(i as int + 1).drop_last() =~= fs.take(i as int));
                assert(fs.take(i as int + 1).last() == record@[i as int]@);
            }
            self.write_field_impl(buf, record[i]);
            i = i + 1;
        }
        assert(fs.take(i as int) =~= fs);
        self.write_terminator(buf)
    }

    /// Write a single field: a delimiter first unless it opens the row, then
    /// the encoded field. It never fails.
    pub fn write_field(&mut self, buf: &mut Vec<u8>, field: &[u8]) -> (r: Result<(), Error>)
        requires
            old(self).wf(),
            old(self)@.fields_written < u64::MAX,
            old(buf)@.len() + 2 * field@.len() + 4 <= usize::MAX,
        ensures
            final(self).wf(),
            r is Ok,
            final(self)@ == after_field(old(self)@, field@),
            final(buf)@ == old(buf)@ + field_bytes(old(self)@, field@),
            final(buf)@.len() <= old(buf)@.len() + 2 * field@.len() + 4,
    {
        self.write_field_impl(buf, field);
        Ok(())
    }

    fn write_field_impl(&mut self, buf: &mut Vec<u8>, field: &[u8])
        requires
            old(self).wf(),
            old(self)@.fields_written < u64::MAX,
            old(buf)@.len() + 2 * field@.len() + 4 <= usize::MAX,
        ensures
            final(self).wf(),
            final(self)@ == after_field(old(self)@, field@),
            final(buf)@ == old(buf)@ + field_bytes(old(self)@, field@),
            final(buf)@.len() <= old(buf)@.len() + 2 * field@.len() + 4,
    {
        if self.state.fields_written > 0 {
            self.write_delimiter(buf);
        }
        extend(buf, 2 * field.len() + 2, &mut self.core, Piece::Field(field));
        self.state.fields_written += 1;
        assert(buf@ =~= old(buf)@ + field_bytes(old(self)@, field@));
    }

    fn write_delimiter(&mut self, buf: &mut Vec<u8>)
        requires
            old(self).wf(),
            old(buf)@.len() + 2 <= usize::MAX,
        ensures
            final(self).wf(),
            final(self)@ == (WriterView { core: delimiter_step(old(self)@.core).1, ..old(self)@ }),
            final(buf)@ == old(buf)@ + delimiter_step(old(self)@.core).0,
            final(buf)@.len() <= old(buf)@.len() + 2,
    {
        extend(buf, 2, &mut self.core, Piece::Delimiter);
    }

    fn write_terminator(&mut self, buf: &mut Vec<u8>) -> (r: Result<(), Error>)
        requires
            old(self).wf(),
            old(buf)@.len() + 4 <= usize::MAX,
        ensures
            final(self).wf(),
            final(self)@ == end_row(old(self)@).0,
            final(buf)@ == old(buf)@ + end_row(old(self)@).1,
            final(buf)@.len() <= old(buf)@.len() + 4,
            r is Ok <==> row_may_end(old(self)@),
            r is Err ==> reports(r->Err_0, unequal_lengths(old(self)@)),
    {
        self.check_field_count()?;
        extend(buf, 4, &mut self.core, Piece::Terminator);
        self.state.fields_written = 0;
        Ok(())
    }

    fn check_field_count(&mut self) -> (r: Result<(), Error>)
        requires
            old(self).wf(),
        ensures
            final(self).wf(),
            r is Ok <==> row_may_end(old(self)@),
            r is Err ==> reports(r->Err_0, unequal_lengths(old(self)@)) && final(self)@ == old(self)@,
            r is Ok ==> final(self)@ == (WriterView {
                first_field_count: end_row(old(self)@).0.first_field_count,
                ..old(self)@
            }),
    {
        if !self.state.flexible {
            match self.state.first_field_count {
                None => {
                    self.state.first_field_count = Some(self.state.fields_written);
                },
                Some(expected) => {
                    if expected != self.state.fields_written {
                        return Err(
                            Error::new(
                                ErrorKind::UnequalLengths {
                                    expected_len: expected,
                                    len: self.state.fields_written,
                                },
                            ),
                        );
                    }
                },
            }
        }
        Ok(())
    }
}

/// The room that writing `fields` reserves, where it is at most `limit`.
fn room_within(fields: &Vec<Vec<u8>>, limit: usize) -> (r: Option<usize>)
    ensures
        r is Some <==> fields_room(texts(fields@)) <= limit,
        r is Some ==> r->Some_0 == fields_room(texts(fields@)),
{
    let ghost fs = texts(fields@);
    let mut room: usize = 0;
    let mut i: usize = 0;
    while i < fields.len()
        invariant
            0 <= i <= fields@.len(),
            fs == texts(fields@),
            room == fields_room(fs.take(i as int)),
            room <= limit,
        decreases fields@.len() - i,
    {
        proof {
            lemma_fields_room_prefix(fs, i as int);
            assert(fs[i as int] == fields@[i as int]@);
        }
        let len = fields[i].len();
        if len > (limit - room) / 2 || limit - room - 2 * len < 4 {
            proof {
                lemma_fields_room_monotone(fs, i as int + 1);
            }
            return None;
        }
        room = room + 2 * len + 4;
        i = i + 1;
    }
    assert(fs.take(i as int) =~= fs);
    Some(room)
}

/// The room of the first `i` fields is at most that of all of them.
proof fn lemma_fields_room_monotone(fs: Seq<Seq<u8>>, i: int)
    requires
        0 <= i <= fs.len(),
    ensures
        fields_room(fs.take(i)) <= fields_room(fs),
    decreases fs.len() - i,
{
    if i < fs.len() {
        lemma_fields_room_prefix(fs, i);
        lemma_fields_room_monotone(fs, i + 1);
    } else {
        assert(fs.take(i) =~= fs);
    }
}

/// The room of the first `i` fields is at most that of all of them, and one
/// more field adds its own room.
proof fn lemma_fields_room_prefix(fs: Seq<Seq<u8>>, i: int)
    requires
        0 <= i < fs.len(),
    ensures
        fields_room(fs.take(i + 1)) == fields_room(fs.take(i)) + 2 * fs[i].len() + 4,
        fields_room(fs.take(i + 1)) <= fields_room(fs),
    decreases fs.len(),
{
    assert(fs.take(i + 1).drop_last() =~= fs.take(i));
    if i + 1 < fs.len() {
        lemma_fields_room_prefix(fs.drop_last(), i);
        assert(fs.drop_last().take(i + 1) =~= fs.take(i + 1));
        assert(fs.drop_last().take(i) =~= fs.take(i));
        lemma_fields_room_nonneg(fs.drop_last());
    } else {
        assert(fs.take(i + 1) =~= fs);
    }
}

proof fn lemma_fields_room_nonneg(fs: Seq<Seq<u8>>)
    ensures
        fields_room(fs) >= 0,
    decreases fs.len(),
{
    if fs.len() > 0 {
        lemma_fields_room_nonneg(fs.drop_last());
    }
}

} // verus!
