use rust_server::buffer::Buffer;

fn text_of(buf: &Buffer) -> String {
    let mut out = String::new();
    let mut it = buf.chars();
    while let Some(c) = it.next() {
        out.push(c);
    }
    out
}

#[test]
fn test() {
    let mut buf = Buffer::new_empty();
    buf.update((0, 0), (0, 0), "hello");
    assert_eq!(buf.lines(), vec!["hello"]);
    buf.update((0, 0), (0, 0), ":)");
    assert_eq!(buf.lines(), vec![":)hello"]);
    buf.update((0, 7), (0, 7), " world!");
    assert_eq!(buf.lines(), vec![":)hello world!"]);
    buf.update((0, 7), (0, 8), "");
    assert_eq!(buf.lines(), vec![":)helloworld!"]);
    buf.update((0, 7), (0, 7), "\n");
    assert_eq!(buf.lines(), vec![":)hello\n", "world!"]);
    buf.update((0, 0), (0, 2), "a\nb\r\nc\r\r");
    assert_eq!(
        buf.lines(),
        vec!["a\n", "b\r\n", "c\r", "\r", "hello\n", "world!"]
    );
    buf.update((0, 0), (4, 0), "");
    assert_eq!(buf.lines(), vec!["hello\n", "world!"]);

    assert_eq!(text_of(&buf), "hello\nworld!");
}

#[test]
fn chars_yield_whole_text() {
    let buf = Buffer::from_text("hello\nworld!");
    assert_eq!(text_of(&buf), "hello\nworld!");
    assert_eq!(buf.contents(), "hello\nworld!");
}

#[test]
fn chars_restart_from_the_beginning() {
    let buf = Buffer::from_text("ab\ncd");
    let mut it = buf.chars();
    assert_eq!(it.next(), Some('a'));
    let mut again = buf.chars();
    assert_eq!(again.next(), Some('a'));
    assert_eq!(text_of(&buf), "ab\ncd");
}

#[test]
fn chars_skip_empty_fragments() {
    let mut buf = Buffer::from_text("a\nb");
    buf.delete_range((0, 0), (0, 2));
    assert_eq!(buf.lines(), vec!["", "b"]);
    assert_eq!(text_of(&buf), "b");
    let empty = Buffer::new_empty();
    assert_eq!(empty.chars().next(), None);
}

#[test]
fn from_text_splits_every_terminator() {
    let buf = Buffer::from_text("a\nb\r\nc\r\r");
    assert_eq!(buf.lines(), vec!["a\n", "b\r\n", "c\r", "\r", ""]);
    assert_eq!(buf.contents(), "a\nb\r\nc\r\r");
}

#[test]
fn round_trip_keeps_text() {
    for t in ["", "x", "a\n", "a\r", "a\r\n", "\r\n\r\n", "one\rtwo\nthree\r\nfour", "tail\r"] {
        let buf = Buffer::from_text(t);
        assert_eq!(text_of(&buf), t);
        assert_eq!(buf.contents(), t);
    }
}

#[test]
fn lone_trailing_cr_is_its_own_terminator() {
    let buf = Buffer::from_text("x\r");
    assert_eq!(buf.lines(), vec!["x\r", ""]);
    let buf = Buffer::from_text("x\ry");
    assert_eq!(buf.lines(), vec!["x\r", "y"]);
}

#[test]
fn empty_text_is_one_empty_fragment() {
    let buf = Buffer::from_text("");
    assert_eq!(buf.lines(), vec![""]);
    assert_eq!(buf.line_count(), 1);
    assert_eq!(Buffer::new_empty().lines(), vec![""]);
}

#[test]
fn inserting_nothing_changes_nothing() {
    let mut buf = Buffer::from_text("ab\ncd");
    buf.insert((1, 1), "");
    assert_eq!(buf.lines(), vec!["ab\n", "cd"]);
    assert_eq!(text_of(&buf), "ab\ncd");
}

#[test]
fn empty_update_changes_nothing() {
    let mut buf = Buffer::from_text("ab\r\ncd\n");
    for p in [(0, 0), (0, 2), (1, 1), (2, 0)] {
        buf.update(p, p, "");
        assert_eq!(buf.lines(), vec!["ab\r\n", "cd\n", ""]);
    }
}

#[test]
fn delete_then_insert_equals_update() {
    let start = (0, 1);
    let end = (1, 2);
    let text = "X\nY\r\nZ";
    let mut a = Buffer::from_text("abc\ndef\nghi");
    a.update(start, end, "");
    a.update(start, start, text);
    let mut b = Buffer::from_text("abc\ndef\nghi");
    b.update(start, end, text);
    assert_eq!(a.lines(), b.lines());
    assert_eq!(b.lines(), vec!["aX\n", "Y\r\n", "Zf\n", "ghi"]);
}

#[test]
fn insert_then_delete_restores() {
    let original = vec!["first\n", "second\n", "third"];
    let mut buf = Buffer::from_text("first\nsecond\nthird");
    buf.insert((1, 3), "one\ntwo\r\nthree");
    assert_eq!(
        buf.lines(),
        vec!["first\n", "secone\n", "two\r\n", "threeond\n", "third"]
    );
    buf.delete_range((1, 3), (3, 5));
    assert_eq!(buf.lines(), original);

    buf.insert((2, 5), "\n");
    assert_eq!(buf.lines(), vec!["first\n", "second\n", "third\n", ""]);
    buf.delete_range((2, 5), (3, 0));
    assert_eq!(buf.lines(), original);

    buf.insert((0, 2), "mid");
    buf.delete_range((0, 2), (0, 5));
    assert_eq!(buf.lines(), original);
}

#[test]
fn single_line_delete() {
    let mut buf = Buffer::from_text("hello world");
    buf.delete_range((0, 5), (0, 11));
    assert_eq!(buf.lines(), vec!["hello"]);
}

#[test]
fn multi_line_delete_drops_lines_between() {
    let mut buf = Buffer::from_text("a\nb\nc\nd");
    buf.delete_range((0, 1), (2, 0));
    assert_eq!(buf.lines(), vec!["ac\n", "d"]);
    assert_eq!(buf.line_count(), 2);
}

#[test]
fn checked_update_refuses_bad_ranges() {
    let mut buf = Buffer::from_text("ab\ncd");
    assert!(!buf.checked_update((2, 0), (2, 0), "x"));
    assert!(!buf.checked_update((0, 4), (0, 4), "x"));
    assert!(!buf.checked_update((1, 0), (0, 1), "x"));
    assert!(!buf.checked_update((0, 2), (0, 1), "x"));
    assert_eq!(buf.lines(), vec!["ab\n", "cd"]);
    assert!(buf.checked_update((0, 1), (1, 1), "Z"));
    assert_eq!(buf.lines(), vec!["aZd"]);
    assert!(buf.is_valid_pos((0, 3)));
    assert!(!buf.is_valid_pos((0, 4)));
}
