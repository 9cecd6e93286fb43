use sparse_ecs::observer::ValueObserver;

#[test]
fn change_is_reported_one_tick_late() {
    // The component holds 0, 0, 1, 1 in successive ticks. Each tick samples
    // the value left by the tick before, then the tick's new value is checked.
    let values = [0, 0, 1, 1];
    let mut observer = ValueObserver::new(0i32, |c: &i32| *c);
    let mut component = 0i32;
    let mut reported = Vec::new();
    for v in values.iter() {
        observer.set(&component);
        reported.push(observer.is_changed());
        component = *v;
        observer.check(&component);
    }
    observer.set(&component);
    reported.push(observer.is_changed());
    assert_eq!(reported, vec![false, false, false, true, false]);
}

#[test]
fn check_compares_with_the_sample() {
    let mut observer = ValueObserver::new(5u8, |c: &(u8, bool)| c.0);
    assert_eq!(observer.value(), 5);
    assert!(observer.check(&(6, true)));
    assert_eq!(observer.value(), 5);
    assert!(!observer.is_changed());
    observer.set(&(6, false));
    assert!(observer.is_changed());
    assert_eq!(observer.value(), 6);
    assert!(!observer.check(&(6, true)));
    observer.set(&(9, true));
    assert!(!observer.is_changed());
}
