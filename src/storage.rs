use vstd::prelude::*;

use crate::skeleton::{Joint, Skeleton};

verus! {

/// One recorded frame: the compressed image, the skeleton seen in it, the
/// exercise logic's metadata (opaque bytes) and the repetitions so far.
#[derive(Debug)]
pub struct StorageFrame {
    pub frame: Vec<u8>,
    pub skeleton: Skeleton,
    pub metadata: Option<Vec<u8>>,
    pub repetitions: u32,
}

/// One recorded exercise, frames in capture order.
#[derive(Debug)]
pub struct Exercise {
    pub frames: Vec<StorageFrame>,
    pub repetitions_target: u32,
    pub id: String,
}

/// A recorded session.
#[derive(Debug)]
pub struct Storage {
    pub exercises: Vec<Exercise>,
    pub resolution: (u32, u32),
    pub frame_rate: u32,
}

/// Repetition counts never decrease along the frames.
pub open spec fn reps_monotone(frames: Seq<StorageFrame>) -> bool {
    forall|i: int, j: int|
        0 <= i <= j < frames.len() ==> (#[trigger] frames[i]).repetitions <= (#[trigger] frames[j]).repetitions
}

pub(crate) fn copy_bytes(v: &Vec<u8>) -> (r: Vec<u8>)
    ensures
        r@ == v@,
{
    let mut r: Vec<u8> = Vec::with_capacity(v.len());
    let mut i: usize = 0;
    while i < v.len()
        invariant
            i <= v.len(),
            r@ =~= v@.subrange(0, i as int),
        decreases v.len() - i,
    {
        r.push(v[i]);
        i = i + 1;
    }
    r
}

pub(crate) fn copy_metadata(m: &Option<Vec<u8>>) -> (r: Option<Vec<u8>>)
    ensures
        r is Some <==> m is Some,
        r matches Some(b) ==> b@ == m->Some_0@,
{
    match m {
        Some(b) => Some(copy_bytes(b)),
        None => None,
    }
}

pub(crate) fn copy_skeleton(s: &Skeleton) -> (r: Skeleton)
    ensures
        r.joints@ == s.joints@,
{
    let mut joints: Vec<Joint> = Vec::with_capacity(s.joints.len());
    let mut i: usize = 0;
    while i < s.joints.len()
        invariant
            i <= s.joints.len(),
            joints@ =~= s.joints@.subrange(0, i as int),
        decreases s.joints.len() - i,
    {
        joints.push(s.joints[i]);
        i = i + 1;
    }
    Skeleton { joints }
}

impl Exercise {
    /// An exercise with no frames yet.
    pub fn new(id: String, repetitions_target: u32) -> (r: Exercise)
        ensures
            r.id == id,
            r.repetitions_target == repetitions_target,
            r.frames@.len() == 0,
    {
        Exercise { frames: Vec::new(), repetitions_target, id }
    }

    pub open spec fn reps_spec(&self) -> u32 {
        if self.frames@.len() == 0 {
            0
        } else {
            self.frames@.last().repetitions
        }
    }

    /// Repetitions counted so far: those of the last frame, or zero.
    pub fn repetitions(&self) -> (r: u32)
        ensures
            r == self.reps_spec(),
    {
        if self.frames.len() == 0 {
            0
        } else {
            self.frames[self.frames.len() - 1].repetitions
        }
    }

    /// Appends a captured frame; its repetition count is the previous one,
    /// plus one when the exercise logic reported a repetition in this frame
    /// (saturating at the largest count).
    pub fn record_frame(
        &mut self,
        frame: Vec<u8>,
        skeleton: Skeleton,
        metadata: Option<Vec<u8>>,
        repetition: bool,
    )
        ensures
            final(self).id == old(self).id,
            final(self).repetitions_target == old(self).repetitions_target,
            final(self).frames@ == old(self).frames@.push(
                StorageFrame {
                    frame,
                    skeleton,
                    metadata,
                    repetitions: if repetition && old(self).reps_spec() < u32::MAX {
                        (old(self).reps_spec() + 1) as u32
                    } else {
                        old(self).reps_spec()
                    },
                },
            ),
    {
        let prev = self.repetitions();
        let repetitions = if repetition && prev < u32::MAX {
            prev + 1
        } else {
            prev
        };
        self.frames.push(StorageFrame { frame, skeleton, metadata, repetitions });
    }
}

/// Recording frames keeps the repetition counts of an exercise non-decreasing.
pub proof fn lemma_record_keeps_monotone(before: Exercise, after: Exercise, frame: StorageFrame)
    requires
        reps_monotone(before.frames@),
        after.frames@ == before.frames@.push(frame),
        frame.repetitions >= before.reps_spec(),
    ensures
        reps_monotone(after.frames@),
{
    let s = after.frames@;
    assert forall|i: int, j: int| 0 <= i <= j < s.len() implies (#[trigger] s[i]).repetitions
        <= (#[trigger] s[j]).repetitions by {
        if j == s.len() - 1 && i < j {
            assert(s[i] == before.frames@[i]);
            assert(before.frames@[i].repetitions <= before.frames@.last().repetitions);
        } else if j < s.len() - 1 {
            assert(s[i] == before.frames@[i] && s[j] == before.frames@[j]);
        }
    }
}

impl Storage {
    /// A session with no exercises yet.
    pub fn new(resolution: (u32, u32), frame_rate: u32) -> (r: Storage)
        ensures
            r.exercises@.len() == 0,
            r.resolution == resolution,
            r.frame_rate == frame_rate,
    {
        Storage { exercises: Vec::new(), resolution, frame_rate }
    }

    /// Seals a completed exercise into the session.
    pub fn push_exercise(&mut self, exercise: Exercise)
        ensures
            final(self).exercises@ == old(self).exercises@.push(exercise),
            final(self).resolution == old(self).resolution,
            final(self).frame_rate == old(self).frame_rate,
    {
        self.exercises.push(exercise);
    }
}

/// A recording run: the exercises still to record, in order, the session
/// recorded so far and the exercise being recorded.
#[derive(Debug)]
pub struct Recording {
    pub targets: Vec<(String, u32)>,
    pub storage: Storage,
    pub current: usize,
    pub exercise: Option<Exercise>,
}

impl Recording {
    /// Exercises before `current` are sealed into the session; the one at
    /// `current`, if any, is being recorded.
    pub open spec fn wf(&self) -> bool {
        &&& self.current <= self.targets@.len()
        &&& self.storage.exercises@.len() == self.current
        &&& (self.exercise is Some <==> self.current < self.targets@.len())
        &&& (self.exercise matches Some(e) ==> e.id@ == self.targets@[self.current as int].0@
            && e.repetitions_target == self.targets@[self.current as int].1)
    }

    fn start(targets: &Vec<(String, u32)>, i: usize) -> (r: Option<Exercise>)
        ensures
            r is Some <==> i < targets@.len(),
            r matches Some(e) ==> e.id@ == targets@[i as int].0@ && e.repetitions_target
                == targets@[i as int].1 && e.frames@.len() == 0,
    {
        if i < targets.len() {
            Some(Exercise::new(targets[i].0.clone(), targets[i].1))
        } else {
            None
        }
    }

    /// Starts recording the exercises `targets` (id and repetition target) in order.
    pub fn new(targets: Vec<(String, u32)>, resolution: (u32, u32), frame_rate: u32) -> (r: Recording)
        ensures
            r.wf(),
            r.targets@ == targets@,
            r.current == 0,
            r.storage.resolution == resolution,
            r.storage.frame_rate == frame_rate,
            r.exercise matches Some(e) ==> e.frames@.len() == 0,
    {
        let exercise = Recording::start(&targets, 0);
        Recording { targets, storage: Storage::new(resolution, frame_rate), current: 0, exercise }
    }

    /// Every exercise has been recorded.
    pub fn is_finished(&self) -> (r: bool)
        requires
            self.wf(),
        ensures
            r == (self.current == self.targets@.len()),
    {
        self.exercise.is_none()
    }

    /// Records one frame into the current exercise; when the exercise logic
    /// reports completion, the exercise is sealed into the session and the
    /// next one starts.
    pub fn on_frame(
        &mut self,
        frame: Vec<u8>,
        skeleton: Skeleton,
        metadata: Option<Vec<u8>>,
        repetition: bool,
        completed: bool,
    )
        requires
            old(self).wf(),
            old(self).current < old(self).targets@.len(),
        ensures
            final(self).wf(),
            final(self).targets@ == old(self).targets@,
            final(self).storage.resolution == old(self).storage.resolution,
            final(self).storage.frame_rate == old(self).storage.frame_rate,
            ({
                let e = old(self).exercise->Some_0;
                let f = StorageFrame {
                    frame,
                    skeleton,
                    metadata,
                    repetitions: if repetition && e.reps_spec() < u32::MAX {
                        (e.reps_spec() + 1) as u32
                    } else {
                        e.reps_spec()
                    },
                };
                if completed {
                    &&& final(self).current == old(self).current + 1
                    &&& final(self).storage.exercises@.len() == old(self).storage.exercises@.len() + 1
                    &&& forall|i: int| 0 <= i < old(self).storage.exercises@.len()
                        ==> #[trigger] final(self).storage.exercises@[i] == old(self).storage.exercises@[i]
                    &&& final(self).storage.exercises@.last().frames@ == e.frames@.push(f)
                    &&& final(self).storage.exercises@.last().id == e.id
                    &&& final(self).storage.exercises@.last().repetitions_target == e.repetitions_target
                    &&& (final(self).exercise matches Some(n) ==> n.frames@.len() == 0)
                } else {
                    &&& final(self).current == old(self).current
                    &&& final(self).storage.exercises@ == old(self).storage.exercises@
                    &&& final(self).exercise matches Some(n) && n.frames@ == e.frames@.push(f)
                        && n.id == e.id && n.repetitions_target == e.repetitions_target
                }
            }),
    {
        let cur = self.current;
        let n = self.targets.len();
        assert(cur < n);
        let mut exercise = self.exercise.take().unwrap();
        exercise.record_frame(frame, skeleton, metadata, repetition);
        if completed {
            self.storage.push_exercise(exercise);
            self.current = cur + 1;
            self.exercise = Recording::start(&self.targets, self.current);
        } else {
            self.exercise = Some(exercise);
        }
    }

    /// The recorded session.
    pub fn finish(self) -> (r: Storage)
        ensures
            r == self.storage,
    {
        self.storage
    }
}

} // verus!
