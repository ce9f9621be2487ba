use raio::Future;

#[test]
fn get_returns_once_the_future_is_set() {
    let mut future = Future::new();
    future.set();
    future.get();
}

#[test]
fn set_can_be_repeated() {
    let mut future = Future::new();
    future.set();
    future.set();
    future.get();
}

#[test]
fn clones_share_the_flag() {
    let future = Future::new();
    let mut clone = future.clone();
    let second = clone.clone();
    clone.set();
    future.get();
    second.get();
}

#[test]
fn a_future_that_was_got_stays_set() {
    let mut future = Future::new();
    let before = future.clone();
    future.set();
    before.get();
    let after = future.clone();
    after.get();
    future.clone().get();
    future.get();
}
