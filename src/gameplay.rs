use crate::animator::Animator;
use crate::components::Health;
use vstd::prelude::*;

verus! {

/// The animations a character can play.
#[derive(Clone, Copy, Debug, Hash, PartialEq, Eq, Structural)]
pub enum CharacterAnimID {
    Wait,
    Attack,
    Damaged,
}

impl Default for CharacterAnimID {
    fn default() -> (r: Self)
        ensures
            r == CharacterAnimID::Wait,
    {
        CharacterAnimID::Wait
    }
}

/// Damage dealt by one hit.
pub const HIT_DAMAGE: i32 = 10;

impl Health {
    /// Takes one hit's damage when `hit` is set.
    pub fn apply_hit(&mut self, hit: bool)
        requires
            hit ==> old(self).current_health >= i32::MIN + HIT_DAMAGE,
        ensures
            final(self).max_health == old(self).max_health,
            final(self).current_health == if hit {
                old(self).current_health - HIT_DAMAGE
            } else {
                old(self).current_health as int
            },
    {
        if hit {
            self.current_health = self.current_health - HIT_DAMAGE;
        }
    }
}

/// Switches a character's animation on an event: a finished `done` animation
/// gives way to `Wait`; otherwise, when `event` is set and `trigger` is not
/// already playing, `trigger` starts. An idle animator is left alone.
pub open spec fn reacted<V>(
    before: Animator<CharacterAnimID, V>,
    after: Animator<CharacterAnimID, V>,
    trigger: CharacterAnimID,
    event: bool,
) -> bool {
    &&& after.wf()
    &&& after.library() == before.library()
    &&& match before.playing() {
        Some(id) => if event && id != trigger && before.library().contains_key(trigger) {
            after.playing() == Some(trigger) && after.frame() == 0
        } else if id == trigger && before.ended() && before.library().contains_key(
            CharacterAnimID::Wait,
        ) {
            after.playing() == Some(CharacterAnimID::Wait) && after.frame() == 0
        } else {
            after == before
        },
        None => after == before,
    }
}

/// Starts the attack animation when the attack control is held, and goes
/// back to waiting once an attack has played out.
pub fn react_to_attack<V>(animator: &mut Animator<CharacterAnimID, V>, attack: bool)
    requires
        old(animator).wf(),
    ensures
        reacted(*old(animator), *final(animator), CharacterAnimID::Attack, attack),
{
    react(animator, CharacterAnimID::Attack, attack);
}

/// Starts the damaged animation when the character was hit, and goes back
/// to waiting once it has played out.
pub fn react_to_hit<V>(animator: &mut Animator<CharacterAnimID, V>, hit: bool)
    requires
        old(animator).wf(),
    ensures
        reacted(*old(animator), *final(animator), CharacterAnimID::Damaged, hit),
{
    react(animator, CharacterAnimID::Damaged, hit);
}

fn react<V>(animator: &mut Animator<CharacterAnimID, V>, trigger: CharacterAnimID, event: bool)
    requires
        old(animator).wf(),
    ensures
        reacted(*old(animator), *final(animator), trigger, event),
{
    if let Some(id) = animator.playing_id() {
        if id == trigger && animator.is_end() {
            animator.play(CharacterAnimID::Wait);
        }
        if event && id != trigger {
            animator.play(trigger);
        }
    }
}

/// The length a status bar shows one tick later: one unit closer to `current`.
pub fn step_toward(animated: i32, current: i32) -> (r: i32)
    ensures
        animated < current ==> r == animated + 1,
        animated > current ==> r == animated - 1,
        animated == current ==> r == animated,
{
    if animated < current {
        animated + 1
    } else if animated > current {
        animated - 1
    } else {
        animated
    }
}

} // verus!
