use axvm::timer::VmmTimers;

#[test]
fn timers_expire_earliest_first_and_cancel_by_token() {
    let mut timers = VmmTimers::new();
    let a = timers.register_timer(300);
    let b = timers.register_timer(100);
    let c = timers.register_timer(200);
    assert_eq!((a, b, c), (0, 1, 2));
    assert_eq!(timers.expire_one(50), None);
    assert_eq!(timers.expire_one(250), Some((100, b)));
    timers.cancel_timer(c);
    assert_eq!(timers.expire_one(250), None);
    assert_eq!(timers.expire_one(1000), Some((300, a)));
    assert_eq!(timers.expire_one(1000), None);
}
