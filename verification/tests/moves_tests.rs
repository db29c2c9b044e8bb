use std::cmp::Ordering;

use falling_sand::moves::Move;
use falling_sand::sorting::sort_by_destination;

fn mv(source: (usize, usize), destination: (usize, usize)) -> Move {
    Move { source, destination }
}

#[test]
fn moves_are_equal_by_destination_alone() {
    assert!(mv((0, 1), (1, 0)) == mv((2, 1), (1, 0)));
    assert!(mv((0, 1), (1, 0)) != mv((0, 1), (0, 0)));
    assert!(mv((0, 1), (1, 0)) != mv((0, 1), (1, 1)));
    assert!(mv((5, 5), (5, 4)) == mv((5, 5), (5, 4)));
}

#[test]
fn moves_are_ordered_by_column_then_row() {
    assert_eq!(mv((9, 9), (1, 5)).cmp(&mv((0, 0), (2, 0))), Ordering::Less);
    assert_eq!(mv((0, 0), (2, 0)).cmp(&mv((9, 9), (1, 5))), Ordering::Greater);
    assert_eq!(mv((0, 0), (2, 3)).cmp(&mv((9, 9), (2, 4))), Ordering::Less);
    assert_eq!(mv((0, 0), (2, 4)).cmp(&mv((9, 9), (2, 3))), Ordering::Greater);
    assert_eq!(mv((0, 0), (2, 3)).cmp(&mv((9, 9), (2, 3))), Ordering::Equal);
}

#[test]
fn partial_order_agrees_with_the_order() {
    let a = mv((1, 1), (0, 7));
    let b = mv((2, 2), (1, 0));
    let c = mv((3, 3), (1, 0));
    assert_eq!(a.partial_cmp(&b), Some(Ordering::Less));
    assert_eq!(b.partial_cmp(&a), Some(Ordering::Greater));
    assert_eq!(b.partial_cmp(&c), Some(Ordering::Equal));
    assert!(a < b);
    assert!(b > a);
    assert!(b <= c);
    assert!(b >= c);
    assert!(!(b < c));
}

#[test]
fn precedes_is_the_strict_order() {
    assert!(mv((0, 0), (0, 9)).precedes(&mv((0, 0), (1, 0))));
    assert!(mv((0, 0), (1, 0)).precedes(&mv((0, 0), (1, 1))));
    assert!(!mv((0, 0), (1, 1)).precedes(&mv((5, 5), (1, 1))));
    assert!(!mv((0, 0), (1, 1)).precedes(&mv((0, 0), (1, 0))));
    assert!(!mv((0, 0), (1, 0)).precedes(&mv((0, 0), (0, 9))));
}

#[test]
fn sort_orders_by_destination() {
    let mut moves = vec![
        mv((3, 3), (3, 2)),
        mv((1, 1), (0, 0)),
        mv((2, 5), (2, 4)),
        mv((0, 2), (0, 1)),
        mv((2, 1), (2, 0)),
    ];
    sort_by_destination(&mut moves);
    let destinations: Vec<(usize, usize)> = moves.iter().map(|m| m.destination).collect();
    assert_eq!(destinations, vec![(0, 0), (0, 1), (2, 0), (2, 4), (3, 2)]);
    let sources: Vec<(usize, usize)> = moves.iter().map(|m| m.source).collect();
    assert_eq!(sources, vec![(1, 1), (0, 2), (2, 1), (2, 5), (3, 3)]);
}

#[test]
fn sort_keeps_contenders_in_their_order() {
    let mut moves = vec![
        mv((2, 1), (1, 0)),
        mv((0, 3), (0, 2)),
        mv((0, 1), (1, 0)),
        mv((1, 1), (1, 0)),
        mv((1, 3), (0, 2)),
    ];
    sort_by_destination(&mut moves);
    let sources: Vec<(usize, usize)> = moves.iter().map(|m| m.source).collect();
    assert_eq!(sources, vec![(0, 3), (1, 3), (2, 1), (0, 1), (1, 1)]);
    let destinations: Vec<(usize, usize)> = moves.iter().map(|m| m.destination).collect();
    assert_eq!(destinations, vec![(0, 2), (0, 2), (1, 0), (1, 0), (1, 0)]);
}

#[test]
fn sort_of_nothing_and_of_one() {
    let mut none: Vec<Move> = Vec::new();
    sort_by_destination(&mut none);
    assert!(none.is_empty());
    let mut one = vec![mv((4, 4), (4, 3))];
    sort_by_destination(&mut one);
    assert_eq!(one.len(), 1);
    assert_eq!(one[0].source, (4, 4));
    assert_eq!(one[0].destination, (4, 3));
}

#[test]
fn sort_of_a_reversed_list() {
    let mut moves: Vec<Move> = (0..20).rev().map(|k| mv((k, 1), (k / 2, k % 2))).collect();
    sort_by_destination(&mut moves);
    for k in 0..20 {
        assert_eq!(moves[k].source, (k, 1));
        assert_eq!(moves[k].destination, (k / 2, k % 2));
    }
}
