use hedgehog_rs::state::{combine, State};

#[test]
fn state_threads_through_calls() {
    let m = combine(|w| {
        let a = w.of(State::new(|s: u32| (s + 1, s * 10)));
        let b = w.of(State::new(|s: u32| (s * 2, s)));
        a + b
    });
    let (s, v) = (*m.run)(3);
    assert_eq!(s, 8);
    assert_eq!(v, 34);
}
