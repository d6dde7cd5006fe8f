//! The flattening serializer: turns a structured value into the fields of a
//! data row, and into the names of a header row where its shape admits one.
use crate::error::{Error, ErrorKind};
use crate::value::{
    flatten, flatten_all, flatten_fields, header_names, header_names_all, scalar_fields,
    unsupported_message, Payload, Value,
};
use vstd::prelude::*;

verus! {

/// The texts of a run of fields.
pub open spec fn texts(fields: Seq<Vec<u8>>) -> Seq<Seq<u8>> {
    fields.map_values(|f: Vec<u8>| f@)
}

/// Whether `e` is the `Serialize` error with the message `m`.
pub open spec fn is_serialize_error(e: Error, m: Seq<char>) -> bool {
    match e@ {
        ErrorKind::Serialize(s) => s@ == m,
        _ => false,
    }
}

fn copy_bytes(text: &Vec<u8>) -> (r: Vec<u8>)
    ensures
        r@ == text@,
{
    let r = text.clone();
    assert(r@ =~= text@);
    r
}

/// The error for a value with no flat form.
fn unsupported(v: &Value) -> (e: Error)
    requires
        *v is Variant || *v is Keyed,
    ensures
        is_serialize_error(e, unsupported_message(*v)),
{
    let m = match v {
        Value::Variant(Payload::Tuple) => "serializing enum tuple variants is not supported".to_owned(),
        Value::Variant(Payload::Struct) => "serializing enum struct variants is not supported".to_owned(),
        _ => "serializing maps is not supported".to_owned(),
    };
    Error::new(ErrorKind::Serialize(m))
}

/// Appends the fields of `v` to `out`, depth first and left to right: one per
/// scalar. A variant with a payload, or a map, is a `Serialize` error.
pub fn flatten_into(v: &Value, out: &mut Vec<Vec<u8>>) -> (r: Result<(), Error>)
    ensures
        r is Ok <==> flatten(*v) is Ok,
        r is Ok ==> texts(final(out)@) == texts(old(out)@) + flatten(*v)->Ok_0,
        r is Err ==> is_serialize_error(r->Err_0, flatten(*v)->Err_0),
    decreases v,
{
    match v {
        Value::Scalar(text) => {
            out.push(copy_bytes(text));
            assert(texts(out@) =~= texts(old(out)@) + flatten(*v)->Ok_0);
            Ok(())
        },
        Value::Sequence(items) => {
            let mut i: usize = 0;
            while i < items.len()
                invariant
                    0 <= i <= items@.len(),
                    *v == Value::Sequence(*items),
                    flatten_all(items@.take(i as int)) is Ok,
                    texts(out@) == texts(old(out)@) + flatten_all(items@.take(i as int))->Ok_0,
                decreases items@.len() - i,
            {
                assert(items@.take(i as int + 1).drop_last() =~= items@.take(i as int));
                assert(items@.take(i as int + 1).last() == items@[i as int]);
                let r = flatten_into(&items[i], out);
                if r.is_err() {
                    proof {
                        lemma_flatten_all_err(items@, i as int + 1);
                    }
                    return r;
                }
                i = i + 1;
                assert(texts(out@) =~= texts(old(out)@) + flatten_all(items@.take(i as int))->Ok_0);
            }
            assert(items@.take(i as int) =~= items@);
            Ok(())
        },
        Value::Aggregate(fields) => {
            let mut i: usize = 0;
            while i < fields.len()
                invariant
                    0 <= i <= fields@.len(),
                    *v == Value::Aggregate(*fields),
                    flatten_fields(fields@.take(i as int)) is Ok,
                    texts(out@) == texts(old(out)@) + flatten_fields(fields@.take(i as int))->Ok_0,
                decreases fields@.len() - i,
            {
                assert(fields@.take(i as int + 1).drop_last() =~= fields@.take(i as int));
                assert(fields@.take(i as int + 1).last() == fields@[i as int]);
                let r = flatten_into(&fields[i].1, out);
                if r.is_err() {
                    proof {
                        lemma_flatten_fields_err(fields@, i as int + 1);
                    }
                    return r;
                }
                i = i + 1;
                assert(texts(out@) =~= texts(old(out)@) + flatten_fields(fields@.take(i as int))->Ok_0);
            }
            assert(fields@.take(i as int) =~= fields@);
            Ok(())
        },
        _ => Err(unsupported(v)),
    }
}

/// An error in the first `j` values is the error of them all.
proof fn lemma_flatten_all_err(items: Seq<Value>, j: int)
    requires
        0 <= j <= items.len(),
        flatten_all(items.take(j)) is Err,
    ensures
        flatten_all(items) == flatten_all(items.take(j)),
    decreases items.len() - j,
{
    if j < items.len() {
        assert(items.take(j + 1).drop_last() =~= items.take(j));
        lemma_flatten_all_err(items, j + 1);
    } else {
        assert(items.take(j) =~= items);
    }
}

/// An error in the first `j` named fields is the error of them all.
proof fn lemma_flatten_fields_err(fields: Seq<(Vec<u8>, Value)>, j: int)
    requires
        0 <= j <= fields.len(),
        flatten_fields(fields.take(j)) is Err,
    ensures
        flatten_fields(fields) == flatten_fields(fields.take(j)),
    decreases fields.len() - j,
{
    if j < fields.len() {
        assert(fields.take(j + 1).drop_last() =~= fields.take(j));
        lemma_flatten_fields_err(fields, j + 1);
    } else {
        assert(fields.take(j) =~= fields);
    }
}

/// Appends the header names of `v` to `out`, depth first and left to right,
/// and returns whether its shape admits a header row (see `header_names`).
/// Where it does not, what was appended is to be dropped.
pub fn header_into(v: &Value, out: &mut Vec<Vec<u8>>) -> (r: bool)
    ensures
        r == header_names(*v) is Some,
        r ==> texts(final(out)@) == texts(old(out)@) + header_names(*v)->Some_0,
    decreases v,
{
    match v {
        Value::Sequence(items) => {
            let mut i: usize = 0;
            while i < items.len()
                invariant
                    0 <= i <= items@.len(),
                    *v == Value::Sequence(*items),
                    header_names_all(items@.take(i as int)) is Some,
                    texts(out@) == texts(old(out)@) + header_names_all(items@.take(i as int))->Some_0,
                decreases items@.len() - i,
            {
                assert(items@.take(i as int + 1).drop_last() =~= items@.take(i as int));
                assert(items@.take(i as int + 1).last() == items@[i as int]);
                if !header_into(&items[i], out) {
                    proof {
                        lemma_header_names_all_none(items@, i as int + 1);
                    }
                    return false;
                }
                i = i + 1;
                assert(texts(out@) =~= texts(old(out)@) + header_names_all(
                    items@.take(i as int),
                )->Some_0);
            }
            assert(items@.take(i as int) =~= items@);
            true
        },
        Value::Aggregate(fields) => {
            let ghost names = fields@.map_values(|f: (Vec<u8>, Value)| f.0@);
            let mut i: usize = 0;
            while i < fields.len()
                invariant
                    0 <= i <= fields@.len(),
                    *v == Value::Aggregate(*fields),
                    names == fields@.map_values(|f: (Vec<u8>, Value)| f.0@),
                    forall|j: int| 0 <= j < i ==> (#[trigger] fields@[j]).1 is Scalar,
                    texts(out@) == texts(old(out)@) + names.take(i as int),
                decreases fields@.len() - i,
            {
                if !matches!(fields[i].1, Value::Scalar(_)) {
                    assert(!scalar_fields(fields@)) by {
                        assert(!(fields@[i as int].1 is Scalar));
                    }
                    return false;
                }
                assert(names.take(i as int + 1) =~= names.take(i as int).push(fields@[i as int].0@));
                let ghost prev = out@;
                let name = copy_bytes(&fields[i].0);
                out.push(name);
                assert(texts(out@) =~= texts(prev).push(name@));
                i = i + 1;
                assert(texts(out@) =~= texts(old(out)@) + names.take(i as int));
            }
            assert(names.take(i as int) =~= names);
            true
        },
        _ => false,
    }
}

/// A run of values whose first `j` admit no header admits none.
proof fn lemma_header_names_all_none(items: Seq<Value>, j: int)
    requires
        0 <= j <= items.len(),
        header_names_all(items.take(j)) is None,
    ensures
        header_names_all(items) is None,
    decreases items.len() - j,
{
    if j < items.len() {
        assert(items.take(j + 1).drop_last() =~= items.take(j));
        lemma_header_names_all_none(items, j + 1);
    } else {
        assert(items.take(j) =~= items);
    }
}

} // verus!
