use sparse_ecs::animator::{Animation, Animator};

#[test]
fn looped_animation_wraps_and_never_ends() {
    let mut a: Animator<char, char> = Animator::new();
    a.register('W', Animation::new(true, vec!['a', 'b', 'c']));
    a.play('W');
    let mut seen = Vec::new();
    for _ in 0..5 {
        seen.push(*a.value().unwrap());
        assert!(!a.is_end());
        a.update();
    }
    assert_eq!(seen, vec!['a', 'b', 'c', 'a', 'b']);
    assert!(!a.is_end());
}

#[test]
fn non_looped_animation_ends_after_last_update() {
    let mut a: Animator<char, i32> = Animator::new();
    a.register('X', Animation::new(false, vec![1, 2, 3]));
    a.play('X');
    a.update();
    assert_eq!(a.value(), Some(&2));
    assert!(!a.is_end());
    a.update();
    assert_eq!(a.value(), Some(&3));
    assert!(!a.is_end());
    a.update();
    assert_eq!(a.value(), None);
    assert!(a.is_end());
    a.update();
    assert_eq!(a.value(), None);
    assert!(a.is_end());
}

#[test]
fn idle_animator_has_no_value() {
    let mut a: Animator<u8, i32> = Animator::new();
    assert_eq!(a.value(), None);
    assert_eq!(a.playing_id(), None);
    assert!(!a.is_end());
    a.update();
    assert_eq!(a.value(), None);
}

#[test]
fn play_of_unknown_key_changes_nothing() {
    let mut a: Animator<u8, i32> = Animator::new();
    a.register(1, Animation::new(true, vec![10, 20]));
    a.play(1);
    a.update();
    a.play(2);
    assert_eq!(a.playing_id(), Some(1));
    assert_eq!(a.value(), Some(&20));
}

#[test]
fn play_restarts_from_first_frame() {
    let mut a: Animator<u8, i32> = Animator::new();
    a.register(1, Animation::new(false, vec![10, 20, 30]));
    a.register(2, Animation::new(true, vec![5]));
    a.play(1);
    a.update();
    a.update();
    a.play(1);
    assert_eq!(a.value(), Some(&10));
    a.play(2);
    assert_eq!(a.playing_id(), Some(2));
    assert_eq!(a.value(), Some(&5));
    a.update();
    assert_eq!(a.value(), Some(&5));
}

#[test]
fn register_replaces_an_entry() {
    let mut a: Animator<u8, i32> = Animator::new();
    a.register(1, Animation::new(false, vec![1]));
    a.register(1, Animation::new(false, vec![7, 8]));
    a.play(1);
    assert_eq!(a.value(), Some(&7));
    assert_eq!(Animation::new(true, vec![1, 2, 3]).len(), 3);
}

#[test]
fn empty_animation_has_no_value() {
    let mut a: Animator<u8, i32> = Animator::new();
    a.register(1, Animation::new(false, Vec::new()));
    a.register(2, Animation::new(true, Vec::new()));
    a.play(1);
    assert!(a.is_end());
    assert_eq!(a.value(), None);
    a.play(2);
    a.update();
    assert!(!a.is_end());
    assert_eq!(a.value(), None);
}
