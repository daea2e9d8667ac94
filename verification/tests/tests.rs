use join_string::{
    join, join_str, Cursor, DisplayIter, DisplayWrapper, Join, Joiner, Render, SliceCursor,
    StrLike, VecCursor,
};

#[test]
fn basic() {
    let empty: Vec<&str> = vec![];
    assert_eq!(join(empty, ", ").into_string(), "");
    assert_eq!(join(vec![""], ", ").into_string(), "");
    assert_eq!(join(vec!["foo"], ", ").into_string(), "foo");
    assert_eq!(join(vec!["", ""], ", ").into_string(), ", ");
    assert_eq!(
        join(vec!["foo", "bar", "baz"], ", ").into_string(),
        "foo, bar, baz"
    );
}

fn join_as_ref_str(elements: &Vec<impl StrLike>, sep: impl StrLike) -> String {
    join_str(elements, sep).into_string()
}

fn join_map_as_ref_str(elements: &Vec<impl StrLike>, sep: impl Render) -> String {
    DisplayIter::new(elements).join(sep).into_string()
}

fn join_sep_as_ref_str(elements: &Vec<impl Render>, sep: impl StrLike) -> String {
    join(elements, DisplayWrapper::new(sep)).into_string()
}

#[test]
fn types() {
    assert_eq!(
        join(vec!['a', 'b', 'c'], ", ".to_owned()).into_string(),
        "a, b, c"
    );
    let array: Vec<u64> = vec![1, 2, 3];
    assert_eq!(join(&array, "").into_string(), "123");
    assert_eq!(join(&array, "").into_string(), "123"); // borrowing does not consume the elements
    assert_eq!(
        join(
            vec!["foo".to_owned(), "bar".to_owned(), "baz".to_owned()],
            ", "
        )
        .into_string(),
        "foo, bar, baz"
    );
    assert_eq!(
        join_map_as_ref_str(&vec!["foo", "bar", "baz"], ", "),
        "foo, bar, baz"
    );
    assert_eq!(
        join_sep_as_ref_str(&vec!["foo", "bar", "baz"], ", "),
        "foo, bar, baz"
    );

    let e1: Vec<char> = "".chars().collect();
    let e2: Vec<char> = "".chars().collect();
    let ab: Vec<char> = "ab".chars().collect();
    let nested = vec![join(&e1, ""), join(&e2, "bla")];
    assert_eq!(join(&nested, join(&ab, ',')).into_string(), "a,b");

    assert_eq!(join(Some("foo"), ", ").into_string(), "foo");
    assert_eq!(join(None::<&str>, ", ").into_string(), "");

    let ok: Result<&str, &str> = Ok("ok");
    assert_eq!(join(ok, ", ").into_string(), "ok");

    let err: Result<&str, &str> = Err("err");
    assert_eq!(join(err, ", ").into_string(), "");
}

#[test]
fn test_join_str() {
    assert_eq!(
        join_as_ref_str(&vec!["foo", "bar", "baz"], ", "),
        "foo, bar, baz"
    );
    assert_eq!(
        join_str(&vec!["foo", "bar", "baz"], ", ").into_string(),
        "foo, bar, baz"
    );
    let owned = vec!["foo".to_owned(), "bar".to_owned(), "baz".to_owned()];
    assert_eq!(join_str(&owned, ", ").into_string(), "foo, bar, baz");
}

#[test]
fn joinable() {
    assert_eq!(
        join(vec!["foo", "bar", "baz"], ", ").into_string(),
        "foo, bar, baz"
    );
    let items = vec!["foo", "bar", "baz"];
    let cur = SliceCursor::new(&items);
    assert_eq!(join(cur, ", ").into_string(), "foo, bar, baz");
    assert_eq!(join(&items, ", ").into_string(), "foo, bar, baz");

    let mut consumed = VecCursor::new(vec!["foo", "bar", "baz"]);
    while consumed.next().is_some() {}
    assert_eq!(join(consumed, ", ").into_string(), ""); // cursor is consumed
}

#[test]
fn complex_exprs() {
    let lens: Vec<u64> = "a bcd ef"
        .split_whitespace()
        .map(|s| s.len() as u64)
        .collect();
    assert_eq!(join(lens, ", ").into_string(), "1, 3, 2");

    let reversed: Vec<String> = "foo bar baz"
        .split_whitespace()
        .map(|s| s.chars().rev().collect())
        .collect();
    assert_eq!(join(reversed, " ").into_string(), "oof rab zab");
}

#[test]
fn into_impl() {
    let str: String = join(vec![1u64, 2, 3], " + ").into();
    assert_eq!(str, "1 + 2 + 3");
    let chars: Vec<char> = "äüö".chars().collect();
    assert_eq!(
        <Joiner<_, _> as Into<String>>::into(join(chars, ' ')),
        "ä ü ö"
    );
}

#[test]
fn from_impl() {
    let str = String::from(join(vec![1u64, 2, 3], " + "));
    assert_eq!(str, "1 + 2 + 3");
    let chars: Vec<char> = "äüö".chars().collect();
    assert_eq!(String::from(join(chars, ' ')), "ä ü ö");
}

#[test]
fn display_impl() {
    let items = vec!["foo", "bar", "baz"];
    assert_eq!(
        format!("<{}>", join(&items, ", ").display_string()),
        "<foo, bar, baz>"
    );
    let base: Vec<u64> = vec![1, 2, 3];
    let mut cycled: Vec<u64> = Vec::new();
    for i in 0..5 {
        cycled.push(base[i % 3]);
    }
    assert_eq!(
        format!("<{}>", join(&cycled, ", ").display_string()),
        "<1, 2, 3, 1, 2>"
    );
}

#[test]
fn write_fmt() {
    let mut buffer = String::new();
    let result = join(vec!["foo", "bar", "baz"], ", ").write_fmt(&mut buffer);
    assert!(result.is_ok());
    assert_eq!(buffer, "foo, bar, baz");
}

#[test]
fn write_io() {
    let mut buffer: Vec<u8> = Vec::new();
    let result = join(vec!["foo", "bar", "baz"], ", ").write_io(&mut buffer);
    assert!(result.is_ok());
    assert_eq!(buffer, b"foo, bar, baz");
}

#[derive(Debug)]
struct MyItem(String);

impl Render for MyItem {
    // The specification-level text is ghost code: it is erased from
    // compiled code and never called at run time.
    fn text(&self) -> vstd::seq::Seq<char> {
        panic!()
    }

    fn render(&self) -> String {
        self.0.clone()
    }
}

struct MyContainer {
    items: Vec<MyItem>,
}

impl Join for MyContainer {
    type Cur = VecCursor<MyItem>;

    fn elem_texts(&self) -> vstd::seq::Seq<vstd::seq::Seq<char>> {
        panic!()
    }

    fn join<S: Render>(self, sep: S) -> Joiner<VecCursor<MyItem>, S> {
        Joiner::new(VecCursor::new(self.items), sep)
    }
}

#[test]
fn custom_impl() {
    let cont = MyContainer {
        items: vec![
            MyItem("foo".to_string()),
            MyItem("bar".to_string()),
            MyItem("baz".to_string()),
        ],
    };

    assert_eq!(cont.join(", ").into_string(), "foo, bar, baz");
}

struct MyOtherContainer {
    items: Vec<MyItem>,
}

impl MyOtherContainer {
    fn join<S: Render>(&self, sep: S) -> Joiner<SliceCursor<'_, MyItem>, S> {
        Joiner::new(SliceCursor::new(&self.items), sep)
    }
}

#[test]
fn joiner_new() {
    let cont = MyOtherContainer {
        items: vec![
            MyItem("foo".to_string()),
            MyItem("bar".to_string()),
            MyItem("baz".to_string()),
        ],
    };

    assert_eq!(cont.join(", ").into_string(), "foo, bar, baz");
}
