use hedgehog_rs::nondet::{combine, incr_choice_indices, NonDet};
use hedgehog_rs::nonempty::NonEmpty;

fn nondet<A: Clone>(zero: A, vec: Vec<A>) -> NonDet<impl Fn() -> NonEmpty<A>> {
    let nonempty = NonEmpty { zero, vec };
    NonDet::new(move || nonempty.clone())
}

#[test]
fn ok() {
    let numbers = combine(|c| {
        let u100 = nondet(0, vec![1, 2, 3]);
        let u10 = nondet(0, vec![1, 2]);
        let u1 = nondet(0, vec![1]);

        c.of(u100) * 100 + c.of(u10) * 10 + c.of(u1) * 1
    });

    let result = (*numbers.run)();
    assert_eq!(
        result.to_vec(),
        vec![
            000, 001, 010, 011, 020, 021, 100, 101, 110, 111, 120, 121, 200, 201, 210, 211, 220,
            221, 300, 301, 310, 311, 320, 321
        ]
    );
}

#[test]
fn incr_choice_indices_counts_like_an_odometer() {
    let bounds = vec![3, 2, 1];
    let mut seen = Vec::new();
    let mut cur = vec![0, 0, 0];
    while let Some(next) = incr_choice_indices(&cur, &bounds) {
        seen.push(next.clone());
        cur = next;
    }
    assert_eq!(
        seen,
        vec![vec![0, 1, 0], vec![1, 0, 0], vec![1, 1, 0], vec![2, 0, 0], vec![2, 1, 0]]
    );
}

#[test]
fn incr_choice_indices_pads_and_cuts() {
    assert_eq!(incr_choice_indices(&vec![], &vec![2, 2]), Some(vec![0, 1]));
    assert_eq!(incr_choice_indices(&vec![1, 1, 7], &vec![2, 2]), None);
    assert_eq!(incr_choice_indices(&vec![], &vec![]), None);
}

#[test]
fn single_outcome_when_nothing_is_chosen() {
    let m = combine(|_c| 42);
    assert_eq!((*m.run)().to_vec(), vec![42]);
}

#[test]
fn nonempty_index_and_len() {
    let n = NonEmpty { zero: 'a', vec: vec!['b', 'c'] };
    assert_eq!(n.len(), 3);
    assert_eq!(*n.index(0), 'a');
    assert_eq!(*n.index(2), 'c');
    assert_eq!(n.to_vec(), vec!['a', 'b', 'c']);
}
