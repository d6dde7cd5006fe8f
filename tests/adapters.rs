use csv_stream::{Iter, Stream, Terminator, Value, WriterBuilder};
use std::task::Poll;

fn scalar(text: &str) -> Value {
    Value::Scalar(text.as_bytes().to_vec())
}

fn row(city: &str, country: &str, population: u64) -> Value {
    Value::Aggregate(vec![
        (b"city".to_vec(), scalar(city)),
        (b"country".to_vec(), scalar(country)),
        (b"popcount".to_vec(), scalar(&population.to_string())),
    ])
}

fn rows() -> Vec<Value> {
    vec![
        row("Boston", "United States", 4628910),
        row("Concord", "United States", 42695),
    ]
}

fn collect_iter(mut i: Iter) -> Vec<u8> {
    let mut buf = vec![];
    while let Some(r) = i.next() {
        buf.extend(r.unwrap());
    }
    buf
}

fn collect_stream(values: Vec<Value>, mut s: Stream<Vec<Value>>) -> Vec<u8> {
    let mut buf = vec![];
    let mut polls = vec![Poll::Ready(None)];
    for v in values.into_iter().rev() {
        polls.push(Poll::Ready(Some(v)));
        polls.push(Poll::Pending);
    }
    while let Some(polled) = polls.pop() {
        match s.poll_step(polled) {
            Poll::Pending => {}
            Poll::Ready(None) => break,
            Poll::Ready(Some(r)) => buf.extend(r.unwrap()),
        }
    }
    buf
}

#[test]
fn iter_serialize() {
    let writer = WriterBuilder::default().build();

    let i = Iter::new(rows(), writer);

    let buf = String::from_utf8(collect_iter(i)).unwrap();

    assert_eq!(
        buf,
        r#"city,country,popcount
Boston,United States,4628910
Concord,United States,42695
"#
    )
}

#[test]
fn iter_config() {
    let writer = WriterBuilder::default()
        .has_headers(false)
        .delimiter(b';')
        .terminator(Terminator::CRLF)
        .build();

    let i = Iter::new(rows(), writer);

    let buf = String::from_utf8(collect_iter(i)).unwrap();

    assert_eq!(
        buf,
        r#"Boston;United States;4628910
Concord;United States;42695
"#
        .replace("\n", "\r\n")
    )
}

#[test]
fn iter_is_exhausted_for_good() {
    let mut i = Iter::new(vec![], WriterBuilder::default().build());
    assert!(i.next().is_none());
    assert!(i.next().is_none());
}

#[test]
fn iter_yields_errors_as_items() {
    let values = vec![row("Boston", "United States", 1), Value::Keyed, row("Concord", "United States", 2)];
    let mut i = Iter::new(values, WriterBuilder::default().build());
    assert_eq!(
        String::from_utf8(i.next().unwrap().unwrap()).unwrap(),
        "city,country,popcount\nBoston,United States,1\n"
    );
    assert!(i.next().unwrap().is_err());
    assert_eq!(
        String::from_utf8(i.next().unwrap().unwrap()).unwrap(),
        "Concord,United States,2\n"
    );
    assert!(i.next().is_none());
}

#[test]
fn stream_serialize() {
    let writer = WriterBuilder::default().build();

    let csv_stream = Stream::new(vec![], writer);

    let buf = String::from_utf8(collect_stream(rows(), csv_stream)).unwrap();

    assert_eq!(
        buf,
        r#"city,country,popcount
Boston,United States,4628910
Concord,United States,42695
"#
    )
}

#[test]
fn stream_config() {
    let writer = WriterBuilder::default()
        .has_headers(false)
        .delimiter(b';')
        .terminator(Terminator::CRLF)
        .build();

    let csv_stream = Stream::new(vec![], writer);

    let buf = String::from_utf8(collect_stream(rows(), csv_stream)).unwrap();

    assert_eq!(
        buf,
        r#"Boston;United States;4628910
Concord;United States;42695
"#
        .replace("\n", "\r\n")
    )
}

#[test]
fn stream_passes_through_pending_and_completion() {
    let mut s = Stream::new(0u8, WriterBuilder::default().build());
    assert!(matches!(s.poll_step(Poll::Pending), Poll::Pending));
    assert!(matches!(s.poll_step(Poll::Ready(None)), Poll::Ready(None)));
    *s.source() = 7;
    assert_eq!(*s.source(), 7);
}

#[test]
fn stream_yields_errors_as_items() {
    let mut s = Stream::new((), WriterBuilder::default().build());
    match s.poll_step(Poll::Ready(Some(Value::Variant(csv_stream::Payload::Tuple)))) {
        Poll::Ready(Some(Err(e))) => assert_eq!(
            e.message(),
            "CSV write error: serializing enum tuple variants is not supported"
        ),
        _ => panic!("expected an error item"),
    }
}

#[test]
fn iter_exposes_its_writer_for_the_room_check() {
    let i = Iter::new(rows(), WriterBuilder::default().build());
    assert!(i.writer().can_serialize(0, &row("Boston", "United States", 1)));
}
