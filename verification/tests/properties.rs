use join_string::{join, join_str, ByteSink, Cursor, DisplayIter, SinkError, TextSink};

#[test]
fn separator_strictly_between() {
    let s = join(vec!["ab", "cd", "ef"], "--").into_string();
    assert_eq!(s, "ab--cd--ef");
    assert_eq!(s.matches("--").count(), 2);
    assert!(!s.starts_with("--"));
    assert!(!s.ends_with("--"));
}

#[test]
fn display_replay_idempotent() {
    let items = vec!["foo", "bar"];
    let joiner = join(&items, ", ");
    let first = joiner.display_string();
    let second = joiner.display_string();
    assert_eq!(first, second);
    assert_eq!(joiner.into_string(), first);
}

#[test]
fn split_round_trip() {
    let text = "alpha, beta, gamma";
    let tokens: Vec<&str> = text.split(", ").collect();
    assert_eq!(join(tokens, ", ").into_string(), text);

    let dashed = "a-b--c";
    let tokens: Vec<&str> = dashed.split('-').collect();
    assert_eq!(join(tokens, "-").into_string(), dashed);
}

#[test]
fn decimal_rendering() {
    let values: Vec<u64> = vec![0, 7, 10, 99, 1000, 18446744073709551615];
    assert_eq!(
        join(values, " ").into_string(),
        "0 7 10 99 1000 18446744073709551615"
    );
}

#[test]
fn signed_decimal_rendering() {
    let values: Vec<i64> = vec![-1, 0, 5, i64::MIN, i64::MAX];
    assert_eq!(
        join(values, ", ").into_string(),
        "-1, 0, 5, -9223372036854775808, 9223372036854775807"
    );
}

#[test]
fn char_rendering() {
    assert_eq!(join(vec!['x'], "?").into_string(), "x");
    assert_eq!(join(vec!['x', 'y'], "").into_string(), "xy");
}

#[test]
fn string_capability_scenario() {
    assert_eq!(join_str(&vec!["foo", "bar"], ", ").into_string(), "foo, bar");
}

#[test]
fn byte_sink_matches_utf8() {
    let mut buffer: Vec<u8> = Vec::new();
    let result = join(vec!["foo", "bar"], ", ").write_io(&mut buffer);
    assert!(result.is_ok());
    assert_eq!(buffer, "foo, bar".as_bytes());

    let chars: Vec<char> = "äüö".chars().collect();
    let mut buffer: Vec<u8> = Vec::new();
    let result = join(chars, ' ').write_io(&mut buffer);
    assert!(result.is_ok());
    assert_eq!(buffer, "ä ü ö".as_bytes());
}

#[test]
fn write_display_does_not_consume() {
    let items = vec!["foo", "bar", "baz"];
    let joiner = join(&items, ", ");
    let mut sink = String::from("<");
    let result = joiner.write_display(&mut sink);
    assert!(result.is_ok());
    sink.push('>');
    assert_eq!(sink, "<foo, bar, baz>");
    assert_eq!(joiner.into_string(), "foo, bar, baz"); // the original is untouched
}

#[test]
fn joiner_duplicate_replays() {
    let items = vec!["foo", "bar"];
    let joiner = join(&items, ", ");
    let copy = joiner.duplicate();
    assert_eq!(copy.into_string(), "foo, bar");
    assert_eq!(joiner.into_string(), "foo, bar"); // the original is untouched
}

#[test]
fn adapter_reports_size() {
    let items = vec!["a", "b", "c"];
    let mut iter = DisplayIter::new(&items);
    assert_eq!(iter.len(), 3);
    assert!(!iter.is_empty());
    iter.next();
    assert_eq!(iter.len(), 2);
    while iter.next().is_some() {}
    assert!(iter.is_empty());
}

struct FailingTextSink {
    written: String,
    budget: usize,
}

impl TextSink for FailingTextSink {
    // The specification-level items are ghost code: they are erased from
    // compiled code and never called at run time.
    fn content(&self) -> vstd::seq::Seq<char> {
        panic!()
    }

    fn infallible() -> bool {
        panic!()
    }

    fn put_str(&mut self, piece: &str) -> Result<(), SinkError> {
        if self.budget >= piece.len() {
            self.budget -= piece.len();
            self.written.push_str(piece);
            Ok(())
        } else {
            let cut = self.budget;
            self.budget = 0;
            self.written.push_str(&piece[..cut]);
            Err(SinkError)
        }
    }
}

#[test]
fn text_write_failure_short_circuits() {
    let mut sink = FailingTextSink {
        written: String::new(),
        budget: 4,
    };
    let result = join(vec!["foo", "bar", "baz"], ", ").write_fmt(&mut sink);
    assert_eq!(result, Err(SinkError));
    assert_eq!(sink.written, "foo,");
    assert!("foo, bar, baz".starts_with(&sink.written));
}

struct FailingByteSink {
    written: Vec<u8>,
    budget: usize,
}

impl ByteSink for FailingByteSink {
    fn content(&self) -> vstd::seq::Seq<u8> {
        panic!()
    }

    fn infallible() -> bool {
        panic!()
    }

    fn put_bytes(&mut self, piece: &[u8]) -> Result<(), SinkError> {
        if self.budget >= piece.len() {
            self.budget -= piece.len();
            self.written.extend_from_slice(piece);
            Ok(())
        } else {
            let cut = self.budget;
            self.budget = 0;
            self.written.extend_from_slice(&piece[..cut]);
            Err(SinkError)
        }
    }
}

#[test]
fn byte_write_failure_short_circuits() {
    let mut sink = FailingByteSink {
        written: Vec::new(),
        budget: 5,
    };
    let result = join(vec!["foo", "bar", "baz"], ", ").write_io(&mut sink);
    assert_eq!(result, Err(SinkError));
    assert_eq!(sink.written, b"foo, ");
    assert!(b"foo, bar, baz".starts_with(&sink.written[..]));
}
