use toku::sumtree::cursor::Direction;
use toku::sumtree::{Colour, Item, SumTree, Summary};

#[derive(Debug, Clone, PartialEq)]
struct V(u32);

impl Item for V {
    type Summary = Sum;

    // The compiled trait keeps the slot of its specification function.
    fn spec_summary(&self) -> Self::Summary {
        Sum(self.0)
    }

    fn summary(&self) -> Self::Summary {
        Sum(self.0)
    }
}

#[derive(Debug, Default, Clone, Copy, PartialEq)]
struct Sum(u32);

impl Summary for Sum {
    // The compiled trait keeps the slot of its specification function.
    fn spec_combine(self, rhs: Self) -> Self {
        Sum(self.0 + rhs.0)
    }

    fn combine(&self, rhs: &Self) -> Self {
        Sum(self.0 + rhs.0)
    }

    fn scan_branch(&mut self, lhs: &Self) {
        self.0 += lhs.0;
    }

    fn scan_leaf(&mut self, lhs: &Self) {
        self.0 += lhs.0;
    }
}

fn leaf(v: V) -> SumTree<V> {
    SumTree::new_leaf(v)
}

fn branch_b(left: SumTree<V>, right: SumTree<V>) -> SumTree<V> {
    SumTree::new_branch(Colour::Black, left, right)
}

fn branch_r(left: SumTree<V>, right: SumTree<V>) -> SumTree<V> {
    SumTree::new_branch(Colour::Red, left, right)
}

fn items(tree: &SumTree<V>) -> Vec<u32> {
    let mut out = vec![];
    let mut cursor = tree.cursor();
    while let Some(n) = cursor.next() {
        out.push(n.deref_item().0);
    }
    out
}

#[test]
fn build_tree() {
    let tree = leaf(V(5));
    assert!(tree.is_balanced());
    assert_eq!(tree.summary(), Sum(5));

    let mut cursor = tree.cursor();
    assert_eq!(cursor.next().map(|n| n.0.deref_item()), Some(&V(5)));

    let tree = cursor.into_position().insert_left(V(4));
    assert!(tree.is_balanced());
    assert_eq!(tree.summary(), Sum(9));

    let mut cursor = tree.cursor();
    assert_eq!(cursor.next().map(|n| n.0.deref_item()), Some(&V(4)));
    assert_eq!(cursor.next().map(|n| n.0.deref_item()), Some(&V(5)));

    cursor.reset();
    let tree = cursor.into_position().insert_left(V(1));
    assert!(tree.is_balanced());
    assert_eq!(tree.summary(), Sum(10));

    let mut cursor = tree.cursor();
    assert_eq!(cursor.next().map(|n| n.0.deref_item()), Some(&V(1)));
    assert_eq!(cursor.next().map(|n| n.0.deref_item()), Some(&V(4)));
    assert_eq!(cursor.next().map(|n| n.0.deref_item()), Some(&V(5)));

    let tree = cursor.into_position().insert_right(V(9));
    assert!(tree.is_balanced());
    assert_eq!(tree.summary(), Sum(19));

    let mut cursor = tree.cursor();
    assert_eq!(cursor.next().map(|n| n.0.deref_item()), Some(&V(1)));
    assert_eq!(cursor.next().map(|n| n.0.deref_item()), Some(&V(4)));
    assert_eq!(cursor.next().map(|n| n.0.deref_item()), Some(&V(5)));
    assert_eq!(cursor.next().map(|n| n.0.deref_item()), Some(&V(9)));
}

#[test]
fn iterate_tests() {
    // single node tree
    let v1 = leaf(V(1));
    let tree = v1.clone();
    let mut cursor = tree.cursor();
    assert_eq!(cursor.next(), Some(&v1));
    assert_eq!(cursor.next(), None);

    let mut cursor = tree.cursor();
    assert_eq!(cursor.next(), Some(&v1));
    assert_eq!(cursor.next(), None);

    // complex tree
    let v2 = leaf(V(2));
    let b1 = branch_b(v1.clone(), v2.clone());
    let v3 = leaf(V(3));
    let v4 = leaf(V(4));
    let b2 = branch_b(v3.clone(), v4.clone());
    let b3 = branch_b(b1.clone(), b2.clone());
    let v5 = leaf(V(5));
    let v6 = leaf(V(6));
    let b4 = branch_b(v5.clone(), v6.clone());
    let v7 = leaf(V(7));
    let b5 = branch_b(b4.clone(), v7.clone());
    let b6 = branch_b(b3.clone(), b5.clone());
    let tree = b6.clone();
    {
        let mut cursor = tree.cursor();
        assert_eq!(cursor.next(), Some(&v1));
        assert_eq!(cursor.next(), Some(&v2));
        assert_eq!(cursor.next(), Some(&v3));
        assert_eq!(cursor.next(), Some(&v4));
        assert_eq!(cursor.next(), Some(&v5));
        assert_eq!(cursor.next(), Some(&v6));
        assert_eq!(cursor.next(), Some(&v7));
        assert_eq!(cursor.next(), None);
    }
}

#[test]
fn seek_tests() {
    // complex tree
    let v1 = leaf(V(1));
    let v2 = leaf(V(2));
    let b1 = branch_b(v1.clone(), v2.clone());
    let v3 = leaf(V(3));
    let v4 = leaf(V(4));
    let b2 = branch_b(v3.clone(), v4.clone());
    let b3 = branch_b(b1.clone(), b2.clone());
    let v5 = leaf(V(5));
    let v6 = leaf(V(6));
    let b4 = branch_b(v5.clone(), v6.clone());
    let v7 = leaf(V(7));
    let b5 = branch_b(b4.clone(), v7.clone());
    let b6 = branch_b(b3.clone(), b5.clone());
    let tree = b6.clone();
    {
        let mut directions =
            vec![(&b2, Direction::Right), (&b3, Direction::Right), (&b6, Direction::Left)];
        let mut cursor = tree.cursor();
        assert_eq!(
            cursor.seek(|node| {
                let (expected, direction) = directions.pop().unwrap();
                assert_eq!(node, expected);
                direction
            }),
            Some(&v4)
        );
    }
    {
        let mut directions = vec![(&b5, Direction::Right), (&b6, Direction::Right)];
        let mut cursor = tree.cursor();
        assert_eq!(
            cursor.seek(|node| {
                let (expected, direction) = directions.pop().unwrap();
                assert_eq!(node, expected);
                direction
            }),
            Some(&v7)
        );
    }
}

#[test]
fn seek_then_next_continues_in_order() {
    let tree = branch_b(branch_b(leaf(V(1)), leaf(V(2))), branch_b(leaf(V(3)), leaf(V(4))));
    let mut cursor = tree.cursor();
    let found = cursor.seek(|_| Direction::Right).map(|n| n.deref_item().0);
    assert_eq!(found, Some(4));
    assert_eq!(cursor.next(), None);
    assert_eq!(cursor.next().map(|n| n.deref_item().0), Some(1));
}

#[test]
fn seek_at_leaf_stays() {
    let tree = branch_b(leaf(V(1)), leaf(V(2)));
    let mut cursor = tree.cursor();
    assert_eq!(cursor.next().map(|n| n.deref_item().0), Some(1));
    let found = cursor.seek(|_| Direction::Right).map(|n| n.deref_item().0);
    assert_eq!(found, Some(1));
}

#[test]
fn inserts_keep_order_and_balance() {
    let mut tree = leaf(V(0));
    for i in 1..50u32 {
        let mut cursor = tree.cursor();
        // walk to the last leaf
        let mut count = 0;
        while count < i {
            cursor.next();
            count += 1;
        }
        tree = cursor.into_position().insert_right(V(i));
        assert!(tree.is_balanced());
    }
    assert_eq!(items(&tree), (0..50).collect::<Vec<u32>>());
    assert_eq!(tree.summary(), Sum((0..50).sum()));
    let mut cursor = tree.cursor();
    cursor.next();
    let tree = cursor.into_position().insert_left(V(100));
    assert!(tree.is_balanced());
    assert_eq!(items(&tree)[0], 100);
}

#[test]
fn unbalanced_trees_are_detected() {
    let consecutive_red = branch_b(branch_r(branch_r(leaf(V(1)), leaf(V(2))), leaf(V(3))), leaf(V(4)));
    assert!(!consecutive_red.is_balanced());
    let differing = branch_b(branch_b(leaf(V(1)), leaf(V(2))), leaf(V(3)));
    assert!(!differing.is_balanced());
    assert_eq!(Colour::Red.black_height(), 0);
    assert_eq!(Colour::Black.black_height(), 1);
}
