//! Facts about sequences of writes: field-count consistency, flexible mode,
//! header emission, and determinism of the configuration.
use crate::value::{
    flatten, flatten_all, flatten_fields, header_names, header_names_all, header_row, scalar_fields,
    Value,
};
use crate::writer::{
    after_fields, end_row, fields_bytes, initial_writer, lemma_after_fields, record_step,
    serialize_step, Failure, HeaderState, Step, WriterConfig, WriterView,
};
use vstd::prelude::*;

verus! {

/// Writing the records `rows` in order, one `write_record` call each, up to
/// the first that fails: the writer afterwards, all the bytes written, and
/// that failure.
pub open spec fn write_records(w: WriterView, rows: Seq<Seq<Seq<u8>>>) -> Step
    decreases rows.len(),
{
    if rows.len() == 0 {
        Step { writer: w, bytes: Seq::empty(), failure: None }
    } else {
        let s = write_records(w, rows.drop_last());
        if s.failure is Some {
            s
        } else {
            let t = record_step(s.writer, rows.last());
            Step { writer: t.writer, bytes: s.bytes + t.bytes, failure: t.failure }
        }
    }
}

/// Serializing the values `vs` in order, one `serialize` call each, up to the
/// first that fails.
pub open spec fn serialize_all(w: WriterView, vs: Seq<Value>) -> Step
    decreases vs.len(),
{
    if vs.len() == 0 {
        Step { writer: w, bytes: Seq::empty(), failure: None }
    } else {
        let s = serialize_all(w, vs.drop_last());
        if s.failure is Some {
            s
        } else {
            let t = serialize_step(s.writer, vs.last());
            Step { writer: t.writer, bytes: s.bytes + t.bytes, failure: t.failure }
        }
    }
}

/// Whether every row of `rows` has `n` fields.
pub open spec fn all_of_length(rows: Seq<Seq<Seq<u8>>>, n: nat) -> bool {
    forall|i: int| 0 <= i < rows.len() ==> (#[trigger] rows[i]).len() == n
}

/// A writer between rows that has taken `n` as the field count of every row.
pub open spec fn settled_on(w: WriterView, n: nat) -> bool {
    &&& !w.flexible
    &&& w.fields_written == 0
    &&& w.first_field_count == Some(n as u64)
}

/// A non-flexible writer between rows whose first row is still to come.
pub open spec fn unsettled(w: WriterView) -> bool {
    &&& !w.flexible
    &&& w.fields_written == 0
    &&& w.first_field_count is None
}

/// One record of `n` fields, written by a non-flexible writer between rows
/// that is fresh or settled on `n`, succeeds and leaves `n` as the baseline.
pub proof fn lemma_record_of_length(w: WriterView, fs: Seq<Seq<u8>>, n: nat)
    requires
        unsettled(w) || settled_on(w, n),
        fs.len() == n,
        n <= u64::MAX,
    ensures
        record_step(w, fs).failure is None,
        settled_on(record_step(w, fs).writer, n),
        record_step(w, fs).writer.header == w.header,
{
    lemma_after_fields(w, fs);
}

/// Records that all have one length, written by a non-flexible writer between
/// rows (fresh, or settled on that length), never fail.
pub proof fn lemma_equal_lengths_never_fail(w: WriterView, rows: Seq<Seq<Seq<u8>>>, n: nat)
    requires
        unsettled(w) || settled_on(w, n),
        all_of_length(rows, n),
        n <= u64::MAX,
    ensures
        write_records(w, rows).failure is None,
        rows.len() > 0 ==> settled_on(write_records(w, rows).writer, n),
    decreases rows.len(),
{
    if rows.len() > 0 {
        lemma_equal_lengths_never_fail(w, rows.drop_last(), n);
        assert(rows.last() == rows[rows.len() - 1]);
        lemma_record_of_length(write_records(w, rows.drop_last()).writer, rows.last(), n);
    }
}

/// Records written by a fresh non-flexible writer: where the row at `j` is the
/// first whose length differs from the first row's, the rows before it are
/// written, it fails with `UnequalLengths` carrying both lengths, and nothing
/// after it is written.
pub proof fn lemma_first_unequal_row_fails(w: WriterView, rows: Seq<Seq<Seq<u8>>>, j: int)
    requires
        unsettled(w),
        0 < j < rows.len(),
        all_of_length(rows.take(j), rows[0].len()),
        rows[j].len() != rows[0].len(),
        rows[0].len() <= u64::MAX,
        rows[j].len() <= u64::MAX,
    ensures
        write_records(w, rows.take(j)).failure is None,
        write_records(w, rows.take(j + 1)).failure == Some(
            Failure::UnequalLengths { expected_len: rows[0].len() as u64, len: rows[j].len() as u64 },
        ),
        write_records(w, rows) == write_records(w, rows.take(j + 1)),
{
    let n = rows[0].len();
    lemma_equal_lengths_never_fail(w, rows.take(j), n);
    let s = write_records(w, rows.take(j));
    assert(rows.take(j + 1).drop_last() =~= rows.take(j));
    assert(rows.take(j + 1).last() == rows[j]);
    lemma_after_fields(s.writer, rows[j]);
    lemma_stopped_stays(w, rows, j + 1);
}

/// Once a run of records fails, the records after it change nothing.
proof fn lemma_stopped_stays(w: WriterView, rows: Seq<Seq<Seq<u8>>>, k: int)
    requires
        0 <= k <= rows.len(),
        write_records(w, rows.take(k)).failure is Some,
    ensures
        write_records(w, rows) == write_records(w, rows.take(k)),
    decreases rows.len() - k,
{
    if k < rows.len() {
        assert(rows.take(k + 1).drop_last() =~= rows.take(k));
        lemma_stopped_stays(w, rows, k + 1);
    } else {
        assert(rows.take(k) =~= rows);
    }
}

proof fn lemma_flexible_stays(w: WriterView, fs: Seq<Seq<u8>>)
    ensures
        after_fields(w, fs).flexible == w.flexible,
    decreases fs.len(),
{
    if fs.len() > 0 {
        lemma_flexible_stays(w, fs.drop_last());
    }
}

/// A flexible writer never fails a record for its length, whatever the
/// lengths of the records.
pub proof fn lemma_flexible_never_fails(w: WriterView, rows: Seq<Seq<Seq<u8>>>)
    requires
        w.flexible,
    ensures
        write_records(w, rows).failure is None,
        write_records(w, rows).writer.flexible,
    decreases rows.len(),
{
    if rows.len() > 0 {
        lemma_flexible_never_fails(w, rows.drop_last());
        lemma_flexible_stays(write_records(w, rows.drop_last()).writer, rows.last());
    }
}

/// Two writers built from the same settings write the same bytes, end in the
/// same state and fail alike, for the same records and for the same values.
pub proof fn lemma_same_config_same_output(
    c1: WriterConfig,
    c2: WriterConfig,
    rows: Seq<Seq<Seq<u8>>>,
    vs: Seq<Value>,
)
    requires
        c1 == c2,
    ensures
        write_records(initial_writer(c1), rows) == write_records(initial_writer(c2), rows),
        serialize_all(initial_writer(c1), vs) == serialize_all(initial_writer(c2), vs),
{
}

/// The rows that serializing `vs` writes once a header row `names` leads
/// them: the header, then each value's fields.
pub open spec fn header_and_data(names: Seq<Seq<u8>>, vs: Seq<Value>) -> Seq<Seq<Seq<u8>>> {
    seq![names] + vs.map_values(|v: Value| flatten(v)->Ok_0)
}

/// Whether every value of `vs` has a flat form.
pub open spec fn all_flat(vs: Seq<Value>) -> bool {
    forall|i: int| 0 <= i < vs.len() ==> flatten(#[trigger] vs[i]) is Ok
}

/// A writer that differs from `w` only in its header state.
pub open spec fn with_header(w: WriterView, h: HeaderState) -> WriterView {
    WriterView { header: h, ..w }
}

proof fn lemma_fields_ignore_header(w: WriterView, fs: Seq<Seq<u8>>, h: HeaderState)
    ensures
        after_fields(with_header(w, h), fs) == with_header(after_fields(w, fs), h),
        fields_bytes(with_header(w, h), fs) == fields_bytes(w, fs),
    decreases fs.len(),
{
    if fs.len() > 0 {
        lemma_fields_ignore_header(w, fs.drop_last(), h);
    }
}

/// A record writes the same bytes and fails alike whatever the header state,
/// and leaves that state as it was.
proof fn lemma_record_ignores_header(w: WriterView, fs: Seq<Seq<u8>>, h: HeaderState)
    ensures
        record_step(with_header(w, h), fs).bytes == record_step(w, fs).bytes,
        record_step(with_header(w, h), fs).failure == record_step(w, fs).failure,
        record_step(with_header(w, h), fs).writer == with_header(record_step(w, fs).writer, h),
{
    lemma_fields_ignore_header(w, fs, h);
    let mid = after_fields(w, fs);
    assert(end_row(with_header(mid, h)).0 == with_header(end_row(mid).0, h));
}

/// Serializing values with a header row still to be decided, where the first
/// value admits a header row: the bytes and the failure are those of writing
/// exactly one header row, the first value's names, and then each value's
/// data row, with no header row before any later one.
pub proof fn lemma_header_written_once(w: WriterView, vs: Seq<Value>)
    requires
        w.header == HeaderState::Write,
        vs.len() > 0,
        header_row(vs[0]) is Some,
        all_flat(vs),
    ensures
        serialize_all(w, vs).bytes == write_records(w, header_and_data(header_row(vs[0])->Some_0, vs)).bytes,
        serialize_all(w, vs).failure == write_records(w, header_and_data(header_row(vs[0])->Some_0, vs)).failure,
        serialize_all(w, vs).failure is None ==> serialize_all(w, vs).writer == with_header(
            write_records(w, header_and_data(header_row(vs[0])->Some_0, vs)).writer,
            HeaderState::DidWrite,
        ),
    decreases vs.len(),
{
    let names = header_row(vs[0])->Some_0;
    let rows = header_and_data(names, vs);
    assert(rows.drop_last() =~= header_and_data(names, vs.drop_last()));
    assert(rows.last() == flatten(vs.last())->Ok_0);
    assert(flatten(vs.last()) is Ok);
    if vs.len() == 1 {
        let v = vs[0];
        let h = record_step(w, names);
        assert(rows.drop_last().drop_last() =~= Seq::<Seq<Seq<u8>>>::empty());
        assert(rows.drop_last().last() == names);
        assert(vs.drop_last() =~= Seq::<Value>::empty());
        assert(with_header(h.writer, HeaderState::DidWrite) == (WriterView {
            header: HeaderState::DidWrite,
            ..h.writer
        }));
        lemma_record_ignores_header(h.writer, flatten(v)->Ok_0, HeaderState::DidWrite);
        assert(Seq::<u8>::empty() + h.bytes =~= h.bytes);
        assert(Seq::<u8>::empty() + serialize_step(w, v).bytes =~= serialize_step(w, v).bytes);
        assert(write_records(w, rows.drop_last().drop_last()) == Step {
            writer: w,
            bytes: Seq::empty(),
            failure: None,
        });
        assert(write_records(w, rows.drop_last()) == Step {
            writer: h.writer,
            bytes: Seq::empty() + h.bytes,
            failure: h.failure,
        });
        assert(serialize_all(w, vs.drop_last()) == Step {
            writer: w,
            bytes: Seq::empty(),
            failure: None,
        });
    } else {
        assert(vs.drop_last()[0] == vs[0]);
        assert(all_flat(vs.drop_last())) by {
            assert forall|i: int| 0 <= i < vs.drop_last().len() implies flatten(
                #[trigger] vs.drop_last()[i],
            ) is Ok by {
                assert(vs.drop_last()[i] == vs[i]);
            }
        }
        lemma_header_written_once(w, vs.drop_last());
        let s = serialize_all(w, vs.drop_last());
        let r = write_records(w, rows.drop_last());
        if s.failure is None {
            assert(s.writer.header == HeaderState::DidWrite);
            lemma_record_ignores_header(r.writer, flatten(vs.last())->Ok_0, HeaderState::DidWrite);
        }
    }
}

/// A value that admits a header row has a flat form with one field per
/// header name: the header's column count is the data row's.
pub proof fn lemma_header_matches_fields(v: Value)
    requires
        header_names(v) is Some,
    ensures
        flatten(v) is Ok,
        header_names(v)->Some_0.len() == flatten(v)->Ok_0.len(),
    decreases v,
{
    match v {
        Value::Sequence(items) => {
            lemma_header_matches_fields_all(items@);
        },
        Value::Aggregate(fields) => {
            lemma_scalar_fields_flatten(fields@);
        },
        _ => {},
    }
}

proof fn lemma_header_matches_fields_all(items: Seq<Value>)
    requires
        header_names_all(items) is Some,
    ensures
        flatten_all(items) is Ok,
        header_names_all(items)->Some_0.len() == flatten_all(items)->Ok_0.len(),
    decreases items,
{
    if items.len() > 0 {
        lemma_header_matches_fields_all(items.drop_last());
        lemma_header_matches_fields(items.last());
    }
}

proof fn lemma_scalar_fields_flatten(fields: Seq<(Vec<u8>, Value)>)
    requires
        scalar_fields(fields),
    ensures
        flatten_fields(fields) is Ok,
        flatten_fields(fields)->Ok_0.len() == fields.len(),
    decreases fields.len(),
{
    if fields.len() > 0 {
        assert(scalar_fields(fields.drop_last())) by {
            assert forall|i: int| 0 <= i < fields.drop_last().len() implies (
            #[trigger] fields.drop_last()[i]).1 is Scalar by {
                assert(fields.drop_last()[i] == fields[i]);
            }
        }
        lemma_scalar_fields_flatten(fields.drop_last());
        assert(fields.last() == fields[fields.len() - 1]);
        assert(fields.last().1 is Scalar);
        assert(flatten(fields.last().1) is Ok && flatten(fields.last().1)->Ok_0.len() == 1);
    }
}

/// One record of `m` fields, written by a non-flexible writer between rows
/// that is settled on `n != m`, fails with `UnequalLengths` carrying `n` and
/// `m`, and leaves the baseline as it was.
pub proof fn lemma_record_of_other_length(w: WriterView, fs: Seq<Seq<u8>>, n: nat)
    requires
        settled_on(w, n),
        fs.len() != n,
        n <= u64::MAX,
        fs.len() <= u64::MAX,
    ensures
        record_step(w, fs).failure == Some(
            Failure::UnequalLengths { expected_len: n as u64, len: fs.len() as u64 },
        ),
        record_step(w, fs).writer.first_field_count == Some(n as u64),
{
    lemma_after_fields(w, fs);
}

/// One record written by a flexible writer succeeds, whatever its length and
/// whatever was written before.
pub proof fn lemma_flexible_record_succeeds(w: WriterView, fs: Seq<Seq<u8>>)
    requires
        w.flexible,
    ensures
        record_step(w, fs).failure is None,
        record_step(w, fs).writer.flexible,
{
    lemma_flexible_stays(w, fs);
}

/// Serializing with the header still to be decided, a value that admits a
/// header row: the header row is written as a record, then (if it could end)
/// the data row, and the header is then decided as written.
pub proof fn lemma_first_serialize_writes_header(w: WriterView, v: Value)
    requires
        w.header == HeaderState::Write,
        header_row(v) is Some,
    ensures
        flatten(v) is Ok,
        ({
            let h = record_step(w, header_row(v)->Some_0);
            let d = record_step(with_header(h.writer, HeaderState::DidWrite), flatten(v)->Ok_0);
            &&& h.failure is None ==> serialize_step(w, v) == (Step {
                writer: d.writer,
                bytes: h.bytes + d.bytes,
                failure: d.failure,
            })
            &&& h.failure is None ==> d.writer.header == HeaderState::DidWrite
            &&& h.failure is Some ==> serialize_step(w, v) == h
        }),
{
    lemma_header_matches_fields(v);
    let h = record_step(w, header_row(v)->Some_0);
    lemma_record_ignores_header(h.writer, flatten(v)->Ok_0, HeaderState::DidWrite);
}

/// Serializing once the header is decided (or disabled) writes the value's
/// data row only, and leaves the header state as it is.
pub proof fn lemma_later_serialize_writes_data_only(w: WriterView, v: Value)
    requires
        w.header != HeaderState::Write,
        flatten(v) is Ok,
    ensures
        serialize_step(w, v) == record_step(w, flatten(v)->Ok_0),
        serialize_step(w, v).writer.header == w.header,
{
    lemma_record_ignores_header(w, flatten(v)->Ok_0, w.header);
    assert(with_header(w, w.header) == w);
}

} // verus!
