use std::collections::HashMap;
use std::hash::Hash;
use vstd::prelude::*;
use vstd::std_specs::hash::obeys_key_model;

verus! {

broadcast use vstd::std_specs::hash::group_hash_axioms;

/// An immutable sequence of frame values, played once or in a loop.
pub struct Animation<T> {
    looped: bool,
    values: Vec<T>,
}

impl<T> Animation<T> {
    pub closed spec fn looped(&self) -> bool {
        self.looped
    }

    pub closed spec fn frames(&self) -> Seq<T> {
        self.values@
    }

    pub fn new(looped: bool, values: Vec<T>) -> (r: Self)
        ensures
            r.looped() == looped,
            r.frames() == values@,
    {
        Animation { looped, values }
    }

    /// Number of frames.
    pub fn len(&self) -> (r: usize)
        ensures
            r == self.frames().len(),
    {
        self.values.len()
    }
}

/// The frame that follows `frame` in an animation of `len` frames: one step on,
/// held at `len` (the end) when not looped, back to 0 on reaching `len` when looped.
pub open spec fn next_frame(frame: nat, len: nat, looped: bool) -> nat {
    let f = if frame < len {
        frame + 1
    } else {
        len
    };
    if looped && f >= len {
        0
    } else {
        f
    }
}

/// A keyed frame player: a library of animations, at most one of them playing.
pub struct Animator<K, V> {
    playing_id: Option<K>,
    current_frame: usize,
    animations: HashMap<K, Animation<V>>,
}

impl<K: Hash + Eq + Copy, V> Animator<K, V> {
    /// The key of the animation being played, if any.
    pub closed spec fn playing(&self) -> Option<K> {
        self.playing_id
    }

    /// Index of the current frame.
    pub closed spec fn frame(&self) -> nat {
        self.current_frame as nat
    }

    /// The registered animations by key.
    pub closed spec fn library(&self) -> Map<K, Animation<V>> {
        self.animations@
    }

    /// The key type is one whose hashing vstd models, and a playing key is registered.
    pub open spec fn wf(&self) -> bool {
        &&& obeys_key_model::<K>()
        &&& self.playing() is Some ==> self.library().contains_key(self.playing()->0)
    }

    /// The animation being played, if any.
    pub open spec fn current(&self) -> Option<Animation<V>> {
        match self.playing() {
            Some(k) => Some(self.library()[k]),
            None => None,
        }
    }

    /// A non-looped animation is playing and stands at its end.
    pub open spec fn ended(&self) -> bool {
        match self.current() {
            Some(a) => !a.looped() && self.frame() == a.frames().len(),
            None => false,
        }
    }

    /// The value of the current frame; none when idle or past the last frame.
    pub open spec fn current_value(&self) -> Option<V> {
        match self.current() {
            Some(a) => if self.frame() < a.frames().len() {
                Some(a.frames()[self.frame() as int])
            } else {
                None
            },
            None => None,
        }
    }

    /// `next` is this player one `update` later: the playing animation, if
    /// any, has moved on by `next_frame`; nothing else has changed.
    pub open spec fn updated_to(&self, next: Self) -> bool {
        &&& next.wf()
        &&& next.library() == self.library()
        &&& next.playing() == self.playing()
        &&& next.frame() == match self.current() {
            Some(a) => next_frame(self.frame(), a.frames().len(), a.looped()),
            None => self.frame(),
        }
    }

    /// An idle player with an empty library.
    pub fn new() -> (r: Self)
        requires
            obeys_key_model::<K>(),
        ensures
            r.wf(),
            r.playing() is None,
            r.frame() == 0,
            r.library() == Map::<K, Animation<V>>::empty(),
    {
        Animator { playing_id: None, current_frame: 0, animations: HashMap::new() }
    }

    /// Starts the animation registered under `animation_id` from frame 0, even
    /// when it is already playing; an unknown key changes nothing.
    pub fn play(&mut self, animation_id: K)
        requires
            old(self).wf(),
        ensures
            final(self).wf(),
            final(self).library() == old(self).library(),
            old(self).library().contains_key(animation_id) ==> final(self).playing() == Some(
                animation_id,
            ) && final(self).frame() == 0,
            !old(self).library().contains_key(animation_id) ==> *final(self) == *old(self),
    {
        if self.animations.contains_key(&animation_id) {
            self.playing_id = Some(animation_id);
            self.current_frame = 0;
        }
    }

    /// Whether a non-looped animation has played to its end.
    pub fn is_end(&self) -> (r: bool)
        requires
            self.wf(),
        ensures
            r == self.ended(),
    {
        match self.playing_id {
            Some(id) => match self.animations.get(&id) {
                Some(anim) => !anim.looped && self.current_frame == anim.values.len(),
                None => false,
            },
            None => false,
        }
    }

    /// Moves the playing animation one frame on (see `next_frame`); idle, it
    /// changes nothing.
    pub fn update(&mut self)
        requires
            old(self).wf(),
        ensures
            old(self).updated_to(*final(self)),
    {
        if let Some(id) = self.playing_id {
            if let Some(anim) = self.animations.get(&id) {
                let len = anim.values.len();
                let mut next = if self.current_frame < len {
                    self.current_frame + 1
                } else {
                    len
                };
                if anim.looped && next >= len {
                    next = 0;
                }
                self.current_frame = next;
            }
        }
    }

    /// Adds `anim` to the library under `id`, replacing any earlier entry.
    pub fn register(&mut self, id: K, anim: Animation<V>)
        requires
            old(self).wf(),
        ensures
            final(self).wf(),
            final(self).library() == old(self).library().insert(id, anim),
            final(self).playing() == old(self).playing(),
            final(self).frame() == old(self).frame(),
    {
        self.animations.insert(id, anim);
    }

    /// The value of the current frame, or `None` when idle or past the last
    /// frame (a non-looped animation at its end).
    pub fn value(&self) -> (r: Option<&V>)
        requires
            self.wf(),
        ensures
            r.is_some() == self.current_value().is_some(),
            r.is_some() ==> *r.unwrap() == self.current_value().unwrap(),
    {
        match self.playing_id {
            Some(id) => match self.animations.get(&id) {
                Some(anim) => {
                    if self.current_frame < anim.values.len() {
                        Some(&anim.values[self.current_frame])
                    } else {
                        None
                    }
                },
                None => None,
            },
            None => None,
        }
    }

    /// The key of the animation being played, if any.
    pub fn playing_id(&self) -> (r: Option<K>)
        ensures
            r == self.playing(),
    {
        self.playing_id
    }
}

} // verus!
