use bangladesh::rings::{is_outer_role, stitch_relation_outer_rings};
use bangladesh::sorted::{insert_sorted_i32, insert_sorted_u32};
use std::collections::HashMap;

fn refs(ways: &[(i64, &[i64])]) -> HashMap<i64, Vec<i64>> {
    ways.iter().map(|(id, nodes)| (*id, nodes.to_vec())).collect()
}

#[test]
fn two_ways_joined_forwards() {
    let m = refs(&[(10, &[1, 2, 3]), (11, &[3, 4, 1])]);
    assert_eq!(stitch_relation_outer_rings(&[10, 11], &m), vec![vec![3, 4, 1, 2, 3]]);
}

#[test]
fn a_way_is_walked_backwards_when_it_ends_at_the_tail() {
    let m = refs(&[(10, &[1, 2, 3]), (11, &[1, 4, 3])]);
    assert_eq!(stitch_relation_outer_rings(&[10, 11], &m), vec![vec![1, 4, 3, 2, 1]]);
}

#[test]
fn unknown_and_one_node_ways_are_ignored() {
    let m = refs(&[(10, &[1, 2, 3]), (11, &[3, 4, 1]), (12, &[5])]);
    assert_eq!(stitch_relation_outer_rings(&[10, 99, 11, 12], &m), vec![vec![3, 4, 1, 2, 3]]);
}

#[test]
fn open_or_tiny_rings_are_dropped() {
    let m = refs(&[(20, &[1, 2]), (21, &[5, 6]), (30, &[7, 8, 7])]);
    assert!(stitch_relation_outer_rings(&[20, 21], &m).is_empty());
    assert!(stitch_relation_outer_rings(&[30], &m).is_empty());
    assert!(stitch_relation_outer_rings(&[], &m).is_empty());
}

#[test]
fn closed_ways_are_rings_of_their_own() {
    let m = refs(&[(1, &[1, 2, 3, 1]), (2, &[4, 5, 6, 4])]);
    assert_eq!(stitch_relation_outer_rings(&[1, 2], &m), vec![vec![4, 5, 6, 4], vec![1, 2, 3, 1]]);
}

#[test]
fn every_stitched_ring_is_closed() {
    let m = refs(&[(1, &[1, 2]), (2, &[2, 3]), (3, &[3, 1]), (4, &[9, 8]), (5, &[8, 7, 9])]);
    let rings = stitch_relation_outer_rings(&[1, 2, 3, 4, 5], &m);
    assert_eq!(rings.len(), 2);
    for r in &rings {
        assert!(r.len() >= 4);
        assert_eq!(r.first(), r.last());
    }
}

#[test]
fn ordered_sets_stay_increasing() {
    let mut v: Vec<u32> = Vec::new();
    for x in [5u32, 1, 9, 5, 0, 9] {
        insert_sorted_u32(&mut v, x);
    }
    assert_eq!(v, vec![0, 1, 5, 9]);
    let mut w: Vec<i32> = Vec::new();
    for x in [3i32, -2, 3, 7, -9] {
        insert_sorted_i32(&mut w, x);
    }
    assert_eq!(w, vec![-9, -2, 3, 7]);
}

#[test]
fn outer_members_have_outer_or_no_role() {
    assert!(is_outer_role("outer"));
    assert!(is_outer_role(""));
    assert!(!is_outer_role("inner"));
    assert!(!is_outer_role("Outer"));
}

#[test]
fn rings_use_only_nodes_of_the_outer_ways() {
    let m = refs(&[(1, &[1, 2, 3]), (2, &[3, 4, 1]), (3, &[7, 8, 9, 7]), (4, &[5]), (5, &[20, 21])]);
    let ids = [1, 2, 3, 4, 5, 6];
    let rings = stitch_relation_outer_rings(&ids, &m);
    let usable = ids.iter().filter(|id| m.get(id).map_or(false, |n| n.len() >= 2)).count();
    assert!(rings.len() <= usable);
    for ring in &rings {
        for node in ring {
            assert!(ids.iter().any(|id| m.get(id).map_or(false, |n| n.contains(node))));
        }
    }
    assert_eq!(rings.len(), 2);
}
