use toku::point::Point;
use toku::rope::Rope;
use toku::slab::SlabAllocator;
use toku::util::Bounds;

fn rope_of(parts: &[&[u8]]) -> Rope {
    let mut alloc = SlabAllocator::new();
    let mut rope = Rope::empty();
    for part in parts {
        let (slab, written) = alloc.append(part);
        assert_eq!(written, part.len());
        let at = rope.len();
        rope = rope.insert(at, slab).expect("insert");
    }
    rope
}

#[test]
fn chars_decode_in_order_with_ranges() {
    let rope = rope_of(&["héllo\nwörld".as_bytes()]);
    let mut range = rope.char_range(Bounds::full(), 0);
    assert_eq!(range.next(), Some(('h', 0..1)));
    assert_eq!(range.next(), Some(('é', 1..3)));
    assert_eq!(range.offset(), 3);
    let mut chars = rope.chars(Bounds::full(), 0);
    let mut out = String::new();
    while let Some(c) = chars.next() {
        out.push(c);
    }
    assert_eq!(out, "héllo\nwörld");
    assert_eq!(chars.next(), None);
}

#[test]
fn chars_step_back_and_read_again() {
    let rope = rope_of(&[b"abc"]);
    let mut range = rope.char_range(Bounds::full(), 0);
    assert_eq!(range.next(), Some(('a', 0..1)));
    assert_eq!(range.next(), Some(('b', 1..2)));
    assert_eq!(range.offset(), 2);
    assert_eq!(range.prev(), Some(('b', 1..2)));
    assert_eq!(range.offset(), 1);
    assert_eq!(range.prev(), Some(('a', 0..1)));
    assert_eq!(range.offset(), 0);
    assert_eq!(range.next(), Some(('a', 0..1)));
    assert_eq!(range.next(), Some(('b', 1..2)));
    assert_eq!(range.next(), Some(('c', 2..3)));
    assert_eq!(range.next(), None);
}

#[test]
fn chars_from_an_offset_and_within_a_range() {
    let rope = rope_of(&[b"hello ", b"world"]);
    let mut chars = rope.chars(Bounds::full(), 6);
    assert_eq!(chars.next(), Some('w'));
    assert_eq!(chars.offset(), 7);
    let mut range = rope.char_range(Bounds::range(2, 4), 0);
    assert_eq!(range.next(), Some(('l', 2..3)));
    assert_eq!(range.next(), Some(('l', 3..4)));
    assert_eq!(range.next(), None);
}

#[test]
fn chars_split_across_chunks_decode_lossily() {
    let rope = rope_of(&[b"h\xc3", b"\xa9!"]);
    let mut chars = rope.chars(Bounds::full(), 0);
    assert_eq!(chars.next(), Some('h'));
    assert_eq!(chars.next(), Some('\u{FFFD}'));
    assert_eq!(chars.next(), Some('\u{FFFD}'));
    assert_eq!(chars.next(), Some('!'));
    assert_eq!(chars.next(), None);
}

#[test]
fn char_at_a_point() {
    let rope = rope_of(&["ab\ncé\n".as_bytes()]);
    assert_eq!(rope.char_at(Point { line: 0, column: 1 }), Some('b'));
    assert_eq!(rope.char_at(Point { line: 1, column: 1 }), Some('é'));
    assert_eq!(rope.char_at(Point { line: 1, column: 9 }), None);
    assert_eq!(rope.char_at(Point { line: 5, column: 0 }), None);
}
