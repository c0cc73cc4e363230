//! A keyed collection of instanced objects.

use vstd::prelude::*;
use crate::backend::ShaderError;
use crate::instanced::{Frame, InstancedShader};

verus! {

/// What drawing a whole container came to: the frames of the objects that
/// were drawn, in the order they were drawn in, and the first failure, if
/// one stopped the pass.
pub struct Pass {
    pub frames: Vec<Frame>,
    pub outcome: Result<(), ShaderError>,
}

/// Objects under names. A name holds at most one object; objects are drawn
/// in the order in which their names first came in.
pub struct ComponentContainer {
    names: Vec<String>,
    objects: Vec<InstancedShader>,
}

impl ComponentContainer {
    /// The names, in the order in which they came in.
    pub closed spec fn keys(&self) -> Seq<Seq<char>> {
        self.names@.map_values(|name: String| name@)
    }

    /// The objects, each at the place of its name.
    pub closed spec fn values(&self) -> Seq<InstancedShader> {
        self.objects@
    }

    /// Every name has its object, no name occurs twice, and every object is
    /// well formed.
    pub open spec fn wf(&self) -> bool {
        &&& self.keys().len() == self.values().len()
        &&& forall|i: int, j: int|
            0 <= i < j < self.keys().len() ==> self.keys()[i] != self.keys()[j]
        &&& forall|i: int| 0 <= i < self.values().len() ==> (#[trigger] self.values()[i]).wf()
    }

    /// Whether `key` names an object.
    pub open spec fn contains(&self, key: Seq<char>) -> bool {
        exists|i: int| 0 <= i < self.keys().len() && self.keys()[i] == key
    }

    /// The place of the first object that is not loaded, or the number of
    /// objects where all are loaded.
    pub open spec fn first_unloaded(objects: Seq<InstancedShader>) -> int
        decreases objects.len(),
    {
        if objects.len() == 0 {
            0
        } else {
            let before = Self::first_unloaded(objects.drop_last());
            if before < objects.len() - 1 {
                before
            } else if objects.last().spec_state() is NotLoaded {
                objects.len() - 1
            } else {
                objects.len() as int
            }
        }
    }

    /// An empty container.
    pub fn new() -> (res: ComponentContainer)
        ensures
            res.wf(),
            res.keys() == Seq::<Seq<char>>::empty(),
            res.values() == Seq::<InstancedShader>::empty(),
    {
        let res = ComponentContainer { names: Vec::new(), objects: Vec::new() };
        assert(res.keys() =~= Seq::<Seq<char>>::empty());
        res
    }

    /// How many objects there are.
    pub fn len(&self) -> (res: usize)
        requires
            self.wf(),
        ensures
            res == self.values().len(),
    {
        self.objects.len()
    }

    fn position(&self, key: &str) -> (res: Option<usize>)
        requires
            self.wf(),
        ensures
            match res {
                Some(i) => i < self.keys().len() && self.keys()[i as int] == key@,
                None => !self.contains(key@),
            },
    {
        let wanted = key.to_owned();
        let mut i: usize = 0;
        while i < self.names.len()
            invariant
                i <= self.names.len(),
                wanted@ == key@,
                forall|j: int| 0 <= j < i ==> self.keys()[j] != key@,
            decreases self.names.len() - i,
        {
            if self.names[i] == wanted {
                return Some(i);
            }
            i = i + 1;
        }
        None
    }

    /// Puts `value` under `key`. An object that was there before is
    /// replaced, at its place; a new name goes behind the others.
    pub fn insert(&mut self, key: &str, value: InstancedShader)
        requires
            old(self).wf(),
            value.wf(),
        ensures
            final(self).wf(),
            final(self).contains(key@),
            forall|i: int|
                0 <= i < old(self).keys().len() && old(self).keys()[i] == key@ ==> final(self).keys()
                    == old(self).keys() && final(self).values() == old(self).values().update(
                    i,
                    value,
                ),
            !old(self).contains(key@) ==> final(self).keys() == old(self).keys().push(key@)
                && final(self).values() == old(self).values().push(value),
    {
        match self.position(key) {
            Some(i) => {
                self.objects[i] = value;
                assert(self.keys()[i as int] == key@);
            },
            None => {
                self.names.push(key.to_owned());
                self.objects.push(value);
                assert(self.keys() =~= old(self).keys().push(key@));
                assert(self.keys()[self.keys().len() - 1] == key@);
            },
        }
    }

    /// The object under `key`.
    pub fn get(&self, key: &str) -> (res: Option<&InstancedShader>)
        requires
            self.wf(),
        ensures
            match res {
                Some(object) => exists|i: int|
                    0 <= i < self.keys().len() && self.keys()[i] == key@ && self.values()[i]
                        == *object,
                None => !self.contains(key@),
            },
    {
        match self.position(key) {
            Some(i) => Some(&self.objects[i]),
            None => None,
        }
    }

    /// The object under `key`, to be changed in place. The container holds
    /// whatever the caller leaves in it.
    pub fn get_mut(&mut self, key: &str) -> (res: Option<&mut InstancedShader>)
        requires
            old(self).wf(),
        ensures
            final(self).keys() == old(self).keys(),
            match res {
                Some(object) => exists|i: int|
                    0 <= i < old(self).keys().len() && old(self).keys()[i] == key@ && old(
                        self
                    ).values()[i] == *object && final(self).values() == old(self).values().update(
                        i,
                        *final(object),
                    ),
                None => !old(self).contains(key@) && final(self).values() == old(self).values(),
            },
    {
        match self.position(key) {
            Some(i) => Some(&mut self.objects[i]),
            None => None,
        }
    }

    /// Draws the objects one after another, in the order of their names,
    /// and stops at the first that fails. The objects before it were drawn
    /// and are clean; it and those behind it are untouched.
    pub fn draw(&mut self) -> (res: Pass)
        requires
            old(self).wf(),
        ensures
            final(self).wf(),
            final(self).keys() == old(self).keys(),
            res.frames@.len() == Self::first_unloaded(old(self).values()),
            res.outcome is Ok <==> res.frames@.len() == old(self).values().len(),
            res.outcome is Err ==> res.outcome == Err::<(), ShaderError>(ShaderError::NotLoaded),
            forall|i: int|
                0 <= i < res.frames@.len() ==> (#[trigger] final(self).values()[i]).drawn(
                    &old(self).values()[i],
                    res.frames@[i],
                ),
            forall|i: int|
                res.frames@.len() <= i < old(self).values().len() ==> final(self).values()[i]
                    == old(self).values()[i],
    {
        let mut frames: Vec<Frame> = Vec::new();
        let mut i: usize = 0;
        while i < self.objects.len()
            invariant
                self.wf(),
                self.keys() == old(self).keys(),
                self.values().len() == old(self).values().len(),
                i <= self.values().len(),
                frames@.len() == i,
                i == Self::first_unloaded(old(self).values().take(i as int)),
                forall|k: int|
                    0 <= k < i ==> (#[trigger] self.values()[k]).drawn(
                        &old(self).values()[k],
                        frames@[k],
                    ),
                forall|k: int|
                    i <= k < self.values().len() ==> self.values()[k] == old(self).values()[k],
            decreases self.values().len() - i,
        {
            let ghost prefix = old(self).values().take(i as int);
            let ghost longer = old(self).values().take(i + 1);
            assert(longer.drop_last() == prefix);
            assert(longer.last() == old(self).values()[i as int]);
            let ghost before = self.values();
            let ghost drawn = frames@;
            match self.objects[i].draw() {
                Ok(frame) => {
                    frames.push(frame);
                    assert forall|k: int| 0 <= k < i implies (#[trigger] self.values()[k]).drawn(
                        &old(self).values()[k],
                        frames@[k],
                    ) by {
                        assert(self.values()[k] == before[k]);
                        assert(frames@[k] == drawn[k]);
                    }
                },
                Err(error) => {
                    proof {
                        Self::lemma_first_unloaded_extends(old(self).values(), i + 1);
                    }
                    return Pass { frames, outcome: Err(error) };
                },
            }
            i = i + 1;
        }
        assert(old(self).values().take(i as int) == old(self).values());
        Pass { frames, outcome: Ok(()) }
    }

    /// Once a prefix holds an object that is not loaded, the first such
    /// object of the whole sequence is the first of the prefix.
    proof fn lemma_first_unloaded_extends(objects: Seq<InstancedShader>, n: int)
        requires
            0 <= n <= objects.len(),
            Self::first_unloaded(objects.take(n)) < n,
        ensures
            Self::first_unloaded(objects) == Self::first_unloaded(objects.take(n)),
        decreases objects.len() - n,
    {
        if n < objects.len() {
            let longer = objects.take(n + 1);
            assert(longer.drop_last() == objects.take(n));
            Self::lemma_first_unloaded_extends(objects, n + 1);
        } else {
            assert(objects.take(n) == objects);
        }
    }
}

} // verus!
