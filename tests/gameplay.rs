use sparse_ecs::animator::{Animation, Animator};
use sparse_ecs::components::Health;
use sparse_ecs::gameplay::{react_to_attack, react_to_hit, step_toward, CharacterAnimID};

fn character() -> Animator<CharacterAnimID, u8> {
    let mut a = Animator::new();
    a.register(CharacterAnimID::Wait, Animation::new(true, vec![0, 1]));
    a.register(CharacterAnimID::Attack, Animation::new(false, vec![5, 6]));
    a.register(CharacterAnimID::Damaged, Animation::new(false, vec![9]));
    a.play(CharacterAnimID::Wait);
    a
}

#[test]
fn hit_takes_ten_points() {
    let mut h = Health::new(100);
    h.apply_hit(true);
    assert_eq!((h.max_health, h.current_health), (100, 90));
    h.apply_hit(false);
    assert_eq!(h.current_health, 90);
}

#[test]
fn attack_starts_and_returns_to_wait() {
    let mut a = character();
    a.update();
    react_to_attack(&mut a, true);
    assert_eq!(a.playing_id(), Some(CharacterAnimID::Attack));
    assert_eq!(a.value(), Some(&5));
    react_to_attack(&mut a, true);
    assert_eq!(a.value(), Some(&5));
    a.update();
    a.update();
    assert!(a.is_end());
    react_to_attack(&mut a, true);
    assert_eq!(a.playing_id(), Some(CharacterAnimID::Wait));
    assert_eq!(a.value(), Some(&0));
}

#[test]
fn no_attack_keeps_waiting() {
    let mut a = character();
    a.update();
    react_to_attack(&mut a, false);
    assert_eq!(a.playing_id(), Some(CharacterAnimID::Wait));
    assert_eq!(a.value(), Some(&1));
}

#[test]
fn hit_plays_damaged_once() {
    let mut a = character();
    react_to_hit(&mut a, true);
    assert_eq!(a.playing_id(), Some(CharacterAnimID::Damaged));
    a.update();
    assert!(a.is_end());
    react_to_hit(&mut a, true);
    assert_eq!(a.playing_id(), Some(CharacterAnimID::Wait));
    let mut idle: Animator<CharacterAnimID, u8> = Animator::new();
    react_to_hit(&mut idle, true);
    assert_eq!(idle.playing_id(), None);
    assert_eq!(CharacterAnimID::default(), CharacterAnimID::Wait);
}

#[test]
fn status_bar_moves_one_unit() {
    assert_eq!(step_toward(24, 20), 23);
    assert_eq!(step_toward(3, 10), 4);
    assert_eq!(step_toward(7, 7), 7);
    assert_eq!(step_toward(i32::MIN, i32::MAX), i32::MIN + 1);
}
