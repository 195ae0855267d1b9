use bstr::ByteSlice;
use rand::SeedableRng;
use toku::point::Point;
use std::sync::Arc;

use toku::rope::Rope;
use toku::slab::SlabAllocator;
use toku::tree::{Node, NodeColour};
use toku::util::{bound_range, Bounds};

const PARTS: [(usize, &str); 35] = [
    (0, "Some "),
    (5, "people "),
    (0, "It "),
    (15, "not "),
    (3, "just "),
    (24, "knowing "),
    (8, "goes and"),
    (28, "started "),
    (13, "'round "),
    (23, " 'round "),
    (51, "singing "),
    (71, "what was;\n"),
    (75, " it"),
    (30, ", my"),
    (63, "it\n"),
    (35, "frends.\n"),
    (37, "i"),
    (100, " forever"),
    (0, "This "),
    (113, "because..."),
    (5, " the"),
    (5, "is"),
    (111, "and "),
    (115, "they"),
    (11, "ends.\n"),
    (11, " never "),
    (133, "continue "),
    (11, " that"),
    (146, " singing"),
    (12, "song "),
    (159, " t"),
    (160, "i"),
    (170, " jt "),
    (172, "us"),
    (186, "\n"),
];

const CONTENTS: &str = "This is the song that never ends.\n\
It just goes 'round and 'round, my friends.\n\
Some people started singing it\n\
not knowing what it was;\n\
and they continue singing it forever just because...\n";

const CHUNKS: [&str; 44] = [
    "This ", "is", " the", " ", "song ", "that", " never ", "ends.\n",
    "It ", "just ", "goes ", "'round ", "and", " 'round", ", my", " ", "fr", "i", "ends.\n",
    "Some ", "people ", "started ", "singing ", "it\n",
    "not ", "knowing ", "what", " it", " was;\n",
    "and ", "they", " ", "continue", " singing", " ", "i", "t", " ", "forever", " j", "us", "t ", "because...", "\n",
];

fn build_song() -> Rope {
    let mut rope = Rope::empty();
    assert!(rope.is_balanced());
    let mut buffer = SlabAllocator::new();
    for (at, p) in PARTS.iter() {
        let (block, w) = buffer.append(p.as_bytes());
        assert_eq!(w, p.len());
        rope = rope.insert(*at, block).unwrap();
        assert!(rope.is_balanced());
    }
    rope
}

fn text_lines() -> Vec<&'static [u8]> {
    let mut lines: Vec<&[u8]> = CONTENTS.as_bytes().split(|b| *b == b'\n').collect();
    // `split` leaves an empty piece after the final terminator, as the last line.
    assert_eq!(lines.pop(), Some(&b""[..]));
    lines.push(b"");
    lines
}

fn collect_chunks(mut chunks: toku::iter::Chunks) -> Vec<Vec<u8>> {
    let mut out = vec![];
    while let Some(c) = chunks.next() {
        out.push(c.as_bytes().to_vec());
    }
    out
}

#[test]
fn rope_basic_tests() {
    let rope = build_song();
    assert!(rope.is_balanced());
    assert_eq!(rope.to_bstring(), CONTENTS.as_bytes());

    let line_offsets = [0, 34, 78, 109, 134, 187];
    let mut lines = rope.lines(Bounds::full());
    let mut line_num = 0;
    while let Some(line) = lines.next() {
        assert_eq!(line.range().start, line_offsets[line_num], "line num={}", line_num);
        line_num += 1;
    }
    assert_eq!(line_num, 5);

    let mut line_number = 0;
    let mut line_start = 0;
    let mut next_offsets = line_offsets.iter();
    let mut maybe_next_offset = next_offsets.next();
    for idx in 0..rope.len() {
        if let Some(next_offset) = maybe_next_offset {
            if *next_offset == idx {
                maybe_next_offset = next_offsets.next();
                line_number += 1;
                line_start = *next_offset;
            }
        }
        let res = rope.line_at_offset(idx).expect("line at offset");
        assert_eq!(res, (line_number - 1, line_start), "offset={}", idx);
    }

    let all = collect_chunks(rope.chunks(Bounds::full(), 0));
    for (i, actual) in all.iter().enumerate() {
        let expected = CHUNKS.get(i).unwrap_or(&"");
        assert_eq!(actual.as_slice(), expected.as_bytes(), "part={}", i);
    }
    let from11 = collect_chunks(rope.chunks(Bounds::range_from(11), 0));
    for (i, actual) in from11.iter().enumerate() {
        let expected = CHUNKS.get(i + 3).unwrap_or(&"");
        assert_eq!(actual.as_slice(), expected.as_bytes(), "part={}", i);
    }
    let to172 = collect_chunks(rope.chunks(Bounds::range_to(172), 0));
    for (i, actual) in to172.iter().enumerate() {
        let expected = CHUNKS.get(i).unwrap_or(&"");
        assert_eq!(actual.as_slice(), expected.as_bytes(), "part={}", i);
    }

    assert_eq!(rope.num_lines(), 6);
    let expected_lines = text_lines();
    let mut lines = rope.lines(Bounds::full());
    let mut i = 0;
    while let Some(line) = lines.next() {
        let mut text: Vec<u8> = Vec::with_capacity(64);
        for part in collect_chunks(line.chunks(0)) {
            text.extend_from_slice(&part);
        }
        assert_eq!(text.as_slice(), expected_lines[i], "line={}", i);
        i += 1;
    }

    let contents = CONTENTS.as_bytes();
    for at in 0..rope.len() {
        let (split_left, split_right) = rope.split(at).expect("split rope");
        assert_eq!(split_left.to_bstring(), &contents[..at]);
        assert_eq!(split_right.to_bstring(), &contents[at..]);
        assert!(split_left.is_balanced(), "unbalanced left; split at {}", at);
        assert!(split_right.is_balanced(), "unbalaced right; split at {}", at);
    }

    // delete from the start of the rope
    (1..=rope.len()).fold(rope.clone(), |rope, i| {
        let (updated, deleted) = rope.delete(Bounds::range(0, 1)).expect("delete rope");
        assert_eq!(updated.to_bstring(), &contents[i..]);
        assert_eq!(deleted.to_bstring(), &[contents[i - 1]]);
        assert!(updated.is_balanced());
        assert!(deleted.is_balanced());
        updated
    });

    // delete from the end of the rope
    (1..=rope.len()).fold(rope.clone(), |rope, i| {
        let (updated, deleted) = rope.delete(Bounds::range_from(rope.len() - 1)).expect("delete rope");
        assert_eq!(updated.to_bstring(), &contents[..(rope.len() - 1)]);
        assert_eq!(deleted.to_bstring(), &[contents[rope.len() - 1]]);
        assert!(updated.is_balanced(), "unbalanced left node; delete end {}", i);
        assert!(deleted.is_balanced(), "unbalanced right node; delete end {}", i);
        updated
    });

    // delete from the middle of the rope
    (1..=rope.len()).fold(rope.clone(), |rope, i| {
        let middle = rope.len() / 2;
        let (updated, deleted) = rope.delete(Bounds::range(middle, middle + 1)).expect("delete rope");
        let updated_str = updated.to_bstring();
        assert_eq!(&updated_str[..middle], &contents[..middle]);
        assert_eq!(&updated_str[middle..], &contents[(middle + i)..]);
        assert!(updated.is_balanced(), "unbalanced left node; delete middle {}", i);
        assert!(deleted.is_balanced(), "unbalanced right node; delete middle {}", i);
        updated
    });
}

fn leaf_e(buf: &mut SlabAllocator, size: usize) -> Arc<Node> {
    let mut i = 0;
    loop {
        i += 1;
        let zeros = vec![0u8; size];
        let (block, written) = buf.append(&zeros);
        if written == size {
            break Arc::new(Node::new_leaf(block));
        }
        if i == 10 {
            unreachable!()
        }
    }
}

fn branch_b(left: Arc<Node>, right: Arc<Node>) -> Arc<Node> {
    Arc::new(Node::new_branch(NodeColour::Black, left, right))
}

fn branch_r(left: Arc<Node>, right: Arc<Node>) -> Arc<Node> {
    Arc::new(Node::new_branch(NodeColour::Red, left, right))
}

#[test]
fn regression_1() {
    let mut buf = SlabAllocator::new();

    let tree = Rope::new(branch_b(
        branch_b(
            branch_b(leaf_e(&mut buf, 58), leaf_e(&mut buf, 802)),
            branch_r(
                branch_b(branch_r(leaf_e(&mut buf, 896), leaf_e(&mut buf, 10)), leaf_e(&mut buf, 53)),
                branch_b(leaf_e(&mut buf, 1048), leaf_e(&mut buf, 249)),
            ),
        ),
        branch_b(
            branch_r(
                branch_b(branch_r(leaf_e(&mut buf, 927), leaf_e(&mut buf, 448)), leaf_e(&mut buf, 365)),
                branch_b(leaf_e(&mut buf, 138), leaf_e(&mut buf, 269)),
            ),
            branch_b(leaf_e(&mut buf, 3), leaf_e(&mut buf, 7)),
        ),
    ));
    _ = tree.split(151);
}

#[test]
fn to_range() {
    assert_eq!(bound_range(&Bounds::range(0, 0), 0..10), 0..0);
    assert_eq!(bound_range(&Bounds::range(0, 5), 0..10), 0..5);
    assert_eq!(bound_range(&Bounds::range(0, 10), 0..10), 0..10);
    assert_eq!(bound_range(&Bounds::range(0, 20), 0..10), 0..10);
    assert_eq!(bound_range(&Bounds::range(5, 10), 0..10), 5..10);
    assert_eq!(bound_range(&Bounds::range(10, 10), 0..10), 10..10);
    assert_eq!(bound_range(&Bounds::range(20, 10), 0..10), 10..10);

    assert_eq!(bound_range(&Bounds::range_from(0), 0..10), 0..10);
    assert_eq!(bound_range(&Bounds::range_from(5), 0..10), 5..10);
    assert_eq!(bound_range(&Bounds::range_from(10), 0..10), 10..10);

    assert_eq!(bound_range(&Bounds::range_to(0), 0..10), 0..0);
    assert_eq!(bound_range(&Bounds::range_to(5), 0..10), 0..5);
    assert_eq!(bound_range(&Bounds::range_to(10), 0..10), 0..10);

    assert_eq!(bound_range(&Bounds::full(), 0..10), 0..10);

    assert_eq!(bound_range(&Bounds::range_inclusive(0, 5), 0..10), 0..6);
    assert_eq!(bound_range(&Bounds::range_inclusive(0, 9), 0..10), 0..10);
    assert_eq!(bound_range(&Bounds::range_inclusive(0, 20), 0..10), 0..10);

    assert_eq!(bound_range(&Bounds::range_from(5), 0..10), 5..10);
    assert_eq!(bound_range(&Bounds::range_to(8), 0..10), 0..8);
    assert_eq!(bound_range(&Bounds::full(), 0..10), 0..10);
}

fn build_rope(parts: Vec<&str>) -> Rope {
    let mut rope = Rope::empty();
    let mut buffer = SlabAllocator::new();
    for p in parts.iter() {
        let (block, w) = buffer.append(p.as_bytes());
        assert_eq!(w, p.len());
        rope = rope.insert(rope.len(), block).unwrap();
        assert!(rope.is_balanced());
    }
    rope
}

#[test]
fn cursor_cursor_next_prev() {
    let variants = vec![
        build_rope(vec!["0123456789\n"]),
        build_rope(vec!["01", "2345", "6", "789\n"]),
    ];

    const LINE_LEN: usize = 11;
    let line = "0123456789\n".as_bytes();
    for rope in variants.iter() {
        let mut cursor = rope.cursor();
        let bstr = rope.to_bstring();
        for i in 0..LINE_LEN {
            let next = cursor.next();
            assert_eq!(next, Some((i, i + 1)));
            assert_eq!(bstr[i], line[i]);

            assert_eq!(cursor.prev(), next);
            assert_eq!(cursor.next(), next);
        }
        assert_eq!(cursor.next(), None);

        for i in 0..LINE_LEN {
            let i = LINE_LEN - i - 1;
            let prev = cursor.prev();
            assert_eq!(prev, Some((i, i + 1)));
            assert_eq!(bstr[i], line[i]);

            assert_eq!(cursor.next(), prev);
            assert_eq!(cursor.prev(), prev);
        }
        assert_eq!(cursor.prev(), None);
    }
}

enum RandomOperation {
    Insert { at: usize, buf: Vec<u8> },
    Delete { at: usize, len: usize },
}

impl RandomOperation {
    const GEN_BLOCK_SIZE: usize = 8192;

    fn gen_valid_insert(rng: &mut impl rand::Rng, tree: &Rope) -> Self {
        let at = if tree.len() == 0 { 0 } else { rng.gen_range(0..tree.len()) };
        let mut buf: Vec<u8> = vec![0; rng.gen_range(0..Self::GEN_BLOCK_SIZE)];
        rng.fill_bytes(&mut buf);
        RandomOperation::Insert { at, buf }
    }

    fn gen_valid_delete(rng: &mut impl rand::Rng, tree: &Rope) -> Self {
        let at = rng.gen_range(0..tree.len());
        let len = rng.gen_range(0..(tree.len() - at));
        RandomOperation::Delete { at, len }
    }

    fn gen_valid(rng: &mut impl rand::Rng, tree: &Rope) -> Self {
        if tree.len() == 0 {
            Self::gen_valid_insert(rng, tree)
        } else {
            match rng.gen_range(0..2) {
                0 => Self::gen_valid_insert(rng, tree),
                1 => Self::gen_valid_delete(rng, tree),
                _ => unreachable!(),
            }
        }
    }
}

#[test]
fn rope_random_tests() {
    let tree = Rope::empty();
    let mut buffer = SlabAllocator::new();
    let mut rng = rand::rngs::SmallRng::from_entropy();

    (0..1_000).fold(tree, |rope, i| {
        let op = RandomOperation::gen_valid(&mut rng, &rope);
        match op {
            RandomOperation::Insert { at, buf } => {
                let mut rope = rope;
                let mut buf = &buf[..];
                let mut at = at;
                while buf.len() > 0 {
                    let (block, written) = buffer.append(buf);
                    rope = rope.insert(at, block).expect("insert rope");
                    buf = &buf[written..];
                    at += written;
                }
                assert!(rope.is_balanced(), "unbalanced left node; delete middle {}", i);
                rope
            }
            RandomOperation::Delete { at, len } => {
                let (updated, deleted) =
                    rope.delete(Bounds::range(at, at + len)).expect("delete rope");
                let deleted_str = deleted.to_bstring();
                let updated_str = updated.to_bstring();
                let original_str = rope.to_bstring();
                assert_eq!(updated_str[..at], original_str[..at]);
                assert_eq!(updated_str[at..], original_str[(at + len)..]);
                assert_eq!(deleted_str[..], original_str[at..(at + len)]);
                assert!(updated.is_balanced(), "unbalanced left node; delete middle {}", i);
                assert!(deleted.is_balanced(), "unbalanced right node; delete middle {}", i);
                updated
            }
        }
    });
}

fn rope_from(alloc: &mut SlabAllocator, text: &[u8]) -> Rope {
    let (slab, written) = alloc.append(text);
    assert_eq!(written, text.len());
    Rope::empty().insert(0, slab).expect("insert")
}

#[test]
fn delete_undoes_insert() {
    let mut alloc = SlabAllocator::new();
    let rope = rope_from(&mut alloc, b"hello world");
    let (text, _) = alloc.append(b"XYZ");
    let inserted = rope.insert(3, text).expect("insert");
    assert_eq!(inserted.to_bstring(), b"helXYZlo world".to_vec());
    assert!(inserted.is_balanced());
    let (updated, deleted) = inserted.delete_at(3, 3).expect("delete");
    assert_eq!(updated.to_bstring(), rope.to_bstring());
    assert_eq!(deleted.to_bstring(), b"XYZ".to_vec());
    assert!(updated.is_balanced() && deleted.is_balanced());
}

#[test]
fn split_partitions_the_bytes() {
    let mut alloc = SlabAllocator::new();
    let mut rope = rope_from(&mut alloc, b"0123456789");
    for _ in 0..5 {
        let (more, _) = alloc.append(b"abcdefghij");
        rope = rope.append(more).expect("append");
    }
    let (left, right) = rope.split(23).expect("split");
    let mut joined = left.to_bstring();
    joined.extend(right.to_bstring());
    assert_eq!(joined, rope.to_bstring());
    assert_eq!(left.len(), 23);
    assert!(left.is_balanced() && right.is_balanced());
    assert!(rope.split(61).is_err());
}

#[test]
fn lib_basic_tests() {
    let contents = CONTENTS.as_bytes();
    let mut lines: Vec<&[u8]> = contents.lines().collect();
    lines.push(b"");

    let rope = build_song();
    assert!(rope.is_balanced());
    assert_eq!(rope.to_bstring(), contents);

    let mut chars = rope.char_range(Bounds::full(), 0);
    let mut lookback: Vec<(char, std::ops::Range<usize>)> = vec![];
    for (start, end, c) in contents.char_indices() {
        assert_eq!(chars.next(), Some((c, start..end)));
        assert_eq!(chars.offset(), end);
        lookback.insert(0, (c, start..end));
        lookback.truncate(2);

        assert_eq!(chars.prev().as_ref(), lookback.get(0));
        if start > 1 {
            assert_eq!(chars.prev().as_ref(), lookback.get(1));
            _ = chars.next();
        }

        assert_eq!(chars.next(), Some((c, start..end)));
    }
    assert_eq!(chars.next(), None);
    assert_eq!(chars.prev().as_ref(), lookback.get(0));
    assert_eq!(chars.prev().as_ref(), lookback.get(1));

    let line_offsets = [0, 34, 78, 109, 134, 187];
    let mut rope_lines = rope.lines(Bounds::full());
    let mut line_num = 0;
    while let Some(line) = rope_lines.next() {
        assert_eq!(line.range().start, line_offsets[line_num], "line num={}", line_num);
        line_num += 1;
    }

    for (linenum, (line, offset)) in lines.iter().zip(line_offsets.iter()).enumerate() {
        for (start, end, _) in line.char_indices() {
            let point = Point { line: linenum, column: start };
            let actual = rope.point_to_offset(point);
            assert_eq!(actual, Some(offset + start), "{:?}", point);

            let actual = rope.offset_to_point(offset + start);
            assert_eq!(actual, Some(point), "{:?}", point);

            for column in (start + 1)..end {
                let actual = rope.point_to_offset(Point { line: linenum, column });
                assert_eq!(actual, None);
            }
        }
    }

    let all = collect_chunks(rope.chunks(Bounds::full(), 0));
    for (i, actual) in all.iter().enumerate() {
        let expected = CHUNKS.get(i).unwrap_or(&"");
        assert_eq!(actual.as_slice(), expected.as_bytes(), "part={}", i);
    }
    let from11 = collect_chunks(rope.chunks(Bounds::range_from(11), 0));
    for (i, actual) in from11.iter().enumerate() {
        let expected = CHUNKS.get(i + 3).unwrap_or(&"");
        assert_eq!(actual.as_slice(), expected.as_bytes(), "part={}", i);
    }
    let to172 = collect_chunks(rope.chunks(Bounds::range_to(172), 0));
    for (i, actual) in to172.iter().enumerate() {
        let expected = CHUNKS.get(i).unwrap_or(&"");
        assert_eq!(actual.as_slice(), expected.as_bytes(), "part={}", i);
    }

    assert_eq!(rope.len_lines(), 5);
}

#[test]
fn a_column_inside_a_char_has_no_offset() {
    // "aé€\n" is a (1 byte), é (2 bytes), € (3 bytes), then the terminator.
    let rope = build_rope(vec!["a\u{e9}", "\u{20ac}\nb"]);
    let line = "a\u{e9}\u{20ac}\n".as_bytes();
    for (start, end, _) in line.char_indices() {
        assert_eq!(rope.point_to_offset(Point { line: 0, column: start }), Some(start));
        for column in (start + 1)..end {
            assert_eq!(rope.point_to_offset(Point { line: 0, column }), None);
        }
    }
    assert_eq!(rope.point_to_offset(Point { line: 0, column: line.len() }), None);
    assert_eq!(rope.point_to_offset(Point { line: 1, column: 0 }), None);
}

#[test]
fn inserting_into_a_red_rooted_rope_can_unbalance_it() {
    // A red-black tree whose root is red: insertion rebalances only below black
    // branches, so a red pair made under the red root stays after the root turns black.
    let mut buf = SlabAllocator::new();
    let rope = Rope::new(branch_r(leaf_e(&mut buf, 2), leaf_e(&mut buf, 1)));
    assert!(rope.is_balanced());
    let (x, _) = buf.append(b"x");
    let updated = rope.insert(1, x).unwrap();
    assert_eq!(updated.len(), 4);
    assert!(!updated.is_balanced());
}
