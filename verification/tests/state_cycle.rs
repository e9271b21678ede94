use lights_out::State;

#[test]
fn next_follows_the_cycle() {
    assert_eq!(State::Red.next(), State::Green);
    assert_eq!(State::Green.next(), State::Blue);
    assert_eq!(State::Blue.next(), State::Red);
}

#[test]
fn three_advances_close_the_cycle() {
    for s in State::all() {
        assert_eq!(s.next().next().next(), s);
        assert_ne!(s.next(), s);
        assert_ne!(s.next().next(), s);
    }
}

#[test]
fn all_lists_every_state_once() {
    assert_eq!(State::all(), [State::Red, State::Green, State::Blue]);
}
