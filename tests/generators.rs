use hedgehog_rs::gen::{one_of, triple, u64, usize, vec_of};
use hedgehog_rs::random::Random;
use hedgehog_rs::tree::{force_to_depth_go, Gen, Tree, TreePath};

fn seed_where<G: Gen>(g: &G, want: impl Fn(&G::Value) -> bool) -> u128 {
    for seed in 0..100_000u128 {
        let t = Tree::root(g, Random::new_from_seed(seed), 0);
        if want(&t.value) {
            return seed;
        }
    }
    panic!("no seed gives the wanted root");
}

fn child_values<'g, G: Gen>(t: &Tree<'g, G>) -> Vec<G::Value>
where
    G::Value: Clone,
{
    t.children().into_iter().map(|c| c.value.clone()).collect()
}

#[test]
fn int_range_root_five_has_midpoint_and_decrement() {
    let g = u64(0, 10);
    let seed = seed_where(&g, |v| *v == 5);
    let t = Tree::root(&g, Random::new_from_seed(seed), 0);
    assert_eq!(t.value, 5);
    assert_eq!(child_values(&t), vec![2, 4]);
}

#[test]
fn int_range_three_has_one_child() {
    let g = u64(0, 10);
    assert_eq!(g.children(&3), vec![(2, 2)]);
}

#[test]
fn int_range_zero_is_terminal() {
    let g = u64(0, 10);
    assert_eq!(g.children(&0), vec![]);
}

#[test]
fn int_range_shrinks_toward_lo() {
    let g = u64(7, 100);
    assert_eq!(g.children(&57), vec![(32, 32), (56, 56)]);
    assert_eq!(g.children(&11), vec![(10, 10)]);
    assert_eq!(g.children(&7), vec![]);
}

#[test]
fn int_range_roots_stay_in_range() {
    let g = u64(3, 9);
    for seed in 0..200u128 {
        let t = Tree::root(&g, Random::new_from_seed(seed), 0);
        assert!(3 <= t.value && t.value < 9);
    }
}

#[test]
fn decrement_path_reaches_floor_in_delta_steps() {
    let g = u64(2, 50);
    let mut v = 40u64;
    let mut steps = 0;
    loop {
        let cs = g.children(&v);
        match cs.last() {
            Some(&(c, _)) => {
                assert!(c < v);
                assert_eq!(c, v - 1);
                v = c;
                steps += 1;
            }
            None => break,
        }
    }
    assert_eq!(v, 2);
    assert_eq!(steps, 38);
}

#[test]
fn one_of_shrinks_toward_first() {
    let g = one_of(vec!["a", "b", "c"]);
    let seed = seed_where(&g, |v| *v == "c");
    let mut t = Tree::root(&g, Random::new_from_seed(seed), 0);
    assert_eq!(t.value, "c");
    let mut seen = vec![t.value];
    loop {
        let mut cs = t.children();
        if cs.is_empty() {
            break;
        }
        t = cs.remove(0);
        seen.push(t.value);
    }
    assert_eq!(seen, vec!["c", "b", "a"]);
}

#[test]
fn vec_of_shrinks_by_length_and_in_place() {
    let g = vec_of(u64(0, 5), usize(0, 3));
    let seed = seed_where(&g, |v| *v == vec![4, 1]);
    let t = Tree::root(&g, Random::new_from_seed(seed), 0);
    assert_eq!(t.value, vec![4, 1]);
    let shrinks = child_values(&t);
    assert!(shrinks.contains(&vec![4]));
    assert!(shrinks.contains(&vec![3, 1]));
    assert!(shrinks.contains(&vec![4, 0]));
}

#[test]
fn usize_generator_stays_in_range() {
    let g = usize(4, 6);
    for seed in 0..100u128 {
        let t = Tree::root(&g, Random::new_from_seed(seed), 0);
        assert!(t.value == 4 || t.value == 5);
    }
}

#[test]
fn runs_are_deterministic() {
    let g = vec_of(u64(0, 100), usize(0, 10));
    for seed in 0..20u128 {
        let a = Tree::root(&g, Random::new_from_seed(seed), 5);
        let b = Tree::root(&g, Random::new_from_seed(seed), 5);
        assert_eq!(a.value, b.value);
        assert_eq!(a.children().len(), b.children().len());
        assert_eq!(child_values(&a), child_values(&b));
    }
}

#[test]
fn path_resolution_falls_back_to_deepest_node() {
    let g = u64(0, 100);
    let seed = seed_where(&g, |v| *v == 20);
    let root = || Tree::root(&g, Random::new_from_seed(seed), 0);

    let empty = root().get_path_or_closest(&TreePath::empty());
    assert_eq!(empty.value, 20);

    let exact = root().get_path_or_closest(&TreePath { indices: vec![0, 1] });
    assert_eq!(exact.value, 9);

    let out_of_range = root().get_path_or_closest(&TreePath { indices: vec![1, 9, 0] });
    assert_eq!(out_of_range.value, 19);

    let too_long = root().get_path_or_closest(&TreePath { indices: vec![0; 200] });
    assert_eq!(too_long.value, 0);
}

#[test]
fn split_gives_a_different_stream() {
    let mut r = Random::new_from_seed(7);
    let before = r.state();
    let child = r.split();
    assert_ne!(child.state().1, before.1);
    assert_eq!(child.state().1, before.1.wrapping_add(2));
    assert_eq!(r.state().1, before.1);
    assert_ne!(r.state().0, before.0);
    assert_eq!(child.state().1 % 2, 1);
    let child2 = r.split();
    assert_ne!(child.state(), child2.state());
}

#[test]
fn same_seed_same_draws() {
    let mut a = Random::new_from_seed(99);
    let mut b = Random::new_from_seed(99);
    for _ in 0..10 {
        let x = a.u64_range(10, 20);
        assert_eq!(x, b.u64_range(10, 20));
        assert!(10 <= x && x < 20);
    }
    assert_eq!(Random::new_from_seed(1).state(), Random::new_from_seed(1).state());
}

#[test]
fn force_to_depth_counts_nodes() {
    let g = u64(0, 10);
    let seed = seed_where(&g, |v| *v == 3);
    let t = Tree::root(&g, Random::new_from_seed(seed), 0);
    assert_eq!(force_to_depth_go(&t, 0, 0), 1);
    assert_eq!(force_to_depth_go(&t, 2, 0), 3);
    assert_eq!(force_to_depth_go(&t, 10, 0), 4);
    assert_eq!(force_to_depth_go(&t, 3, 5), 1);
}

#[test]
fn triple_shrinks_one_part_at_a_time() {
    let g = triple(u64(0, 10), u64(0, 10), u64(0, 10));
    let seed = seed_where(&g, |v| v.0 == 3 && v.1 == 0 && v.2 == 6);
    let t = Tree::root(&g, Random::new_from_seed(seed), 0);
    assert_eq!(child_values(&t), vec![(2, 0, 6), (3, 0, 3), (3, 0, 5)]);
}

#[test]
fn seeding_moves_away_from_the_seed() {
    let (state, inc) = Random::new_from_seed(5).state();
    assert_ne!(state, 5);
    assert_eq!(inc % 2, 1);
    assert_ne!(Random::new_from_seed(5).state(), Random::new_from_seed(6).state());
}

#[test]
fn single_value_range_is_terminal() {
    let g = u64(41, 42);
    for seed in 0..20u128 {
        let t = Tree::root(&g, Random::new_from_seed(seed), 0);
        assert_eq!(t.value, 41);
        assert!(t.children().is_empty());
    }
}

#[test]
fn empty_length_range_gives_empty_vectors() {
    let g = vec_of(u64(0, 5), usize(0, 1));
    let t = Tree::root(&g, Random::new_from_seed(3), 0);
    assert!(t.value.is_empty());
    assert!(t.children().is_empty());
}

#[test]
fn shrinking_length_drops_trailing_elements() {
    let g = vec_of(u64(0, 1000), usize(0, 8));
    let seed = seed_where(&g, |v| v.len() == 6);
    let t = Tree::root(&g, Random::new_from_seed(seed), 0);
    let mut cs = t.children();
    let second = cs.remove(1);
    let first = cs.remove(0);
    assert_eq!(first.value[..], t.value[..3]);
    assert_eq!(second.value[..], t.value[..5]);
}

const MUL: u128 = 47026247687942121848144207491837523525;
const SEED_INC: u128 = 0x5fc1c2d3ff7a0dc6b7860f7a9a5f029f;
const OFFSET: u128 = 0x9e3779b97f4a7c15f39cc0605cedc835;

#[test]
fn seeding_follows_the_pcg_steps() {
    for seed in [0u128, 1, 12345, u128::MAX] {
        let expected = SEED_INC.wrapping_add(seed).wrapping_mul(MUL).wrapping_add(SEED_INC);
        assert_eq!(Random::new_from_seed(seed).state(), (expected, SEED_INC));
    }
}

#[test]
fn split_steps_parent_and_offsets_child() {
    let mut r = Random::new_from_seed(11);
    let (s0, inc) = r.state();
    let c1 = r.split();
    let s1 = s0.wrapping_mul(MUL).wrapping_add(inc);
    assert_eq!(r.state(), (s1, inc));
    assert_eq!(c1.state(), (s1.wrapping_add(OFFSET), inc.wrapping_add(2)));
    let c2 = r.split();
    assert_ne!(c1.state(), c2.state());
    assert_ne!(c2.state(), r.state());
    assert_ne!(s1 % 2, r.state().0 % 2);
}
