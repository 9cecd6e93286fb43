use sparse_ecs::animator::{Animation, Animator};
use sparse_ecs::components::{Health, Input, Team};
use sparse_ecs::observer::ValueObserver;
use sparse_ecs::store::ComponentContainer;
use sparse_ecs::systems::{
    animator_update_system, observer_check_system, observer_set_system, ForObserverCheck,
    ForObserverSet, SystemProcess,
};

fn health_of(h: &Health) -> i32 {
    h.current_health
}

#[test]
fn observer_systems_follow_health_changes() {
    let mut healths: ComponentContainer<Health> = ComponentContainer::new();
    healths.push(1, Health::new(100)).unwrap();
    healths.push(2, Health::new(50)).unwrap();
    let mut observers = ComponentContainer::new();
    observers.push(1, ValueObserver::new(100, health_of as fn(&Health) -> i32)).unwrap();
    observers.push(2, ValueObserver::new(50, health_of as fn(&Health) -> i32)).unwrap();
    observers.push(3, ValueObserver::new(0, health_of as fn(&Health) -> i32)).unwrap();

    observers.process((&healths, ForObserverSet));
    healths.get_mut(1).unwrap().current_health -= 10;
    observers.process((&healths, ForObserverCheck));
    observer_set_system(&mut observers, &healths);

    assert!(observers.get(1).unwrap().is_changed());
    assert!(!observers.get(2).unwrap().is_changed());
    assert!(!observers.get(3).unwrap().is_changed());
    assert_eq!(observers.get(1).unwrap().value(), 90);
    assert_eq!(observers.get(3).unwrap().value(), 0);

    observer_check_system(&mut observers, &healths);
    observer_set_system(&mut observers, &healths);
    assert!(!observers.get(1).unwrap().is_changed());
}

#[test]
fn animator_system_moves_every_animator() {
    let mut animators: ComponentContainer<Animator<u8, i32>> = ComponentContainer::new();
    let mut a = Animator::new();
    a.register(0, Animation::new(true, vec![1, 2]));
    a.play(0);
    let mut b = Animator::new();
    b.register(0, Animation::new(false, vec![5]));
    b.play(0);
    animators.push(10, a).unwrap();
    animators.push(20, b).unwrap();

    animators.process(());
    assert_eq!(animators.get(10).unwrap().value(), Some(&2));
    assert!(animators.get(20).unwrap().is_end());
    animator_update_system(&mut animators);
    assert_eq!(animators.get(10).unwrap().value(), Some(&1));
    assert!(animators.get(20).unwrap().is_end());
}

#[test]
fn components_keep_their_values() {
    let t = Team::new(3);
    assert_eq!(t.team_id(), 3);
    assert_eq!(Team::default().team_id(), 0);
    let h = Health::new(100);
    assert_eq!((h.max_health, h.current_health), (100, 100));
    let i = Input::default();
    assert!(!i.left && !i.right && !i.up && !i.down && !i.attack);
}
