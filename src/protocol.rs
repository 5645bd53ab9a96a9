use vstd::prelude::*;

use crate::skeleton::Skeleton;
use crate::storage::{copy_bytes, copy_metadata, copy_skeleton, Storage};

verus! {

/// Pause after the end of each exercise, in milliseconds.
pub const EXERCISE_PAUSE_MS: u64 = 2000;

/// A command of the replay protocol.
#[derive(Debug)]
pub enum GUICommand {
    SessionStart {
        /// Number of exercises
        exercises_count: u32,
        /// Ids of the exercises in the session
        exercise_ids: Vec<String>,
        /// Resolution of the screen
        resolution: (u32, u32),
        /// Framerate of the camera
        frame_rate: u32,
    },
    ExerciseStart {
        /// Id of the current exercise
        exercise_id: String,
        /// Repetitions number to reach
        repetitions_target: u32,
    },
    ExerciseUpdate {
        /// Exercise logic metadata
        metadata: Option<Vec<u8>>,
        /// Current 2D skeleton
        skeleton: Skeleton,
        /// Current number of repetitions
        repetitions: u32,
        /// Current compressed frame
        frame: Vec<u8>,
    },
    ExerciseEnd,
    SessionEnd,
}

/// A command to send, and how long to wait after sending it.
#[derive(Debug)]
pub struct ReplayStep {
    pub command: GUICommand,
    pub delay_ms: u64,
}

/// Position of a command in a replay: which exercise and which frame it is about.
#[derive(Debug, Clone, Copy, PartialEq, Eq, Structural)]
pub enum PlanItem {
    SessionStart,
    ExerciseStart(usize),
    Update(usize, usize),
    ExerciseEnd(usize),
    SessionEnd,
}

pub open spec fn exercise_items(e: nat, frames: nat) -> Seq<PlanItem> {
    seq![PlanItem::ExerciseStart(e as usize)] + Seq::new(frames, |f: int| PlanItem::Update(e as usize, f as usize))
        + seq![PlanItem::ExerciseEnd(e as usize)]
}

/// The items for the first `m` exercises of a session, in order.
pub open spec fn exercises_items(s: Storage, m: nat) -> Seq<PlanItem>
    decreases m,
{
    if m == 0 {
        Seq::empty()
    } else {
        exercises_items(s, (m - 1) as nat) + exercise_items(
            (m - 1) as nat,
            s.exercises@[m - 1].frames@.len(),
        )
    }
}

/// The order of a replay: the session start, each exercise with its start, its
/// frames and its end, then the session end.
pub open spec fn session_items(s: Storage) -> Seq<PlanItem> {
    seq![PlanItem::SessionStart] + exercises_items(s, s.exercises@.len()) + seq![PlanItem::SessionEnd]
}

pub open spec fn frame_delay_spec(frame_rate: u32) -> u64 {
    (1000int / (frame_rate as int)) as u64
}

/// The replay step `st` is the command that `item` calls for in session `s`.
pub open spec fn describes(st: ReplayStep, item: PlanItem, s: Storage) -> bool {
    match item {
        PlanItem::SessionStart => st.delay_ms == 0 && match st.command {
            GUICommand::SessionStart { exercises_count, exercise_ids, resolution, frame_rate } => {
                &&& exercises_count == s.exercises@.len()
                &&& exercise_ids@.len() == s.exercises@.len()
                &&& forall|i: int| 0 <= i < exercise_ids@.len() ==> (#[trigger] exercise_ids@[i])@ == s.exercises@[i].id@
                &&& resolution == s.resolution
                &&& frame_rate == s.frame_rate
            },
            _ => false,
        },
        PlanItem::ExerciseStart(e) => st.delay_ms == 0 && match st.command {
            GUICommand::ExerciseStart { exercise_id, repetitions_target } => {
                &&& exercise_id@ == s.exercises@[e as int].id@
                &&& repetitions_target == s.exercises@[e as int].repetitions_target
            },
            _ => false,
        },
        PlanItem::Update(e, f) => st.delay_ms == frame_delay_spec(s.frame_rate) && match st.command {
            GUICommand::ExerciseUpdate { metadata, skeleton, repetitions, frame } => {
                let fr = s.exercises@[e as int].frames@[f as int];
                &&& frame@ == fr.frame@
                &&& skeleton.joints@ == fr.skeleton.joints@
                &&& repetitions == fr.repetitions
                &&& (metadata is Some <==> fr.metadata is Some)
                &&& (metadata matches Some(m) ==> m@ == fr.metadata->Some_0@)
            },
            _ => false,
        },
        PlanItem::ExerciseEnd(_) => st.delay_ms == EXERCISE_PAUSE_MS && st.command is ExerciseEnd,
        PlanItem::SessionEnd => st.delay_ms == 0 && st.command is SessionEnd,
    }
}

/// Milliseconds to wait between two frames at `frame_rate` frames per second.
pub fn frame_delay_ms(frame_rate: u32) -> (r: u64)
    requires
        frame_rate > 0,
    ensures
        r == frame_delay_spec(frame_rate),
{
    1000 / (frame_rate as u64)
}

/// The commands of a full replay of `storage`, in the order of
/// `session_items`, each with the pause that follows it.
pub fn replay_plan(storage: &Storage) -> (r: Vec<ReplayStep>)
    requires
        storage.frame_rate > 0,
        storage.exercises.len() <= u32::MAX,
    ensures
        r@.len() == session_items(*storage).len(),
        forall|k: int| 0 <= k < r@.len() ==> describes(#[trigger] r@[k], session_items(*storage)[k], *storage),
{
    let ghost s = *storage;
    let n = storage.exercises.len();
    let mut ids: Vec<String> = Vec::new();
    let mut i: usize = 0;
    while i < n
        invariant
            i <= n,
            n == s.exercises@.len(),
            s == *storage,
            ids@.len() == i,
            forall|j: int| 0 <= j < i ==> (#[trigger] ids@[j])@ == s.exercises@[j].id@,
        decreases n - i,
    {
        ids.push(storage.exercises[i].id.clone());
        i = i + 1;
    }
    let mut out: Vec<ReplayStep> = Vec::new();
    out.push(
        ReplayStep {
            command: GUICommand::SessionStart {
                exercises_count: n as u32,
                exercise_ids: ids,
                resolution: storage.resolution,
                frame_rate: storage.frame_rate,
            },
            delay_ms: 0,
        },
    );
    let delay = frame_delay_ms(storage.frame_rate);
    let ghost mut plan: Seq<PlanItem> = seq![PlanItem::SessionStart];
    assert(plan =~= seq![PlanItem::SessionStart] + exercises_items(s, 0));
    let mut e: usize = 0;
    while e < n
        invariant
            e <= n,
            n == s.exercises@.len(),
            s == *storage,
            delay == frame_delay_spec(s.frame_rate),
            plan == seq![PlanItem::SessionStart] + exercises_items(s, e as nat),
            out@.len() == plan.len(),
            forall|k: int| 0 <= k < out@.len() ==> describes(#[trigger] out@[k], plan[k], s),
        decreases n - e,
    {
        let ex = &storage.exercises[e];
        let ghost base = plan;
        out.push(
            ReplayStep {
                command: GUICommand::ExerciseStart {
                    exercise_id: ex.id.clone(),
                    repetitions_target: ex.repetitions_target,
                },
                delay_ms: 0,
            },
        );
        proof {
            plan = plan.push(PlanItem::ExerciseStart(e));
        }
        let nf = ex.frames.len();
        let mut f: usize = 0;
        while f < nf
            invariant
                f <= nf,
                e < n,
                n == s.exercises@.len(),
                s == *storage,
                ex == s.exercises@[e as int],
                nf == ex.frames@.len(),
                delay == frame_delay_spec(s.frame_rate),
                plan == base + seq![PlanItem::ExerciseStart(e)] + Seq::new(
                    f as nat,
                    |g: int| PlanItem::Update(e, g as usize),
                ),
                out@.len() == plan.len(),
                forall|k: int| 0 <= k < out@.len() ==> describes(#[trigger] out@[k], plan[k], s),
            decreases nf - f,
        {
            let fr = &ex.frames[f];
            out.push(
                ReplayStep {
                    command: GUICommand::ExerciseUpdate {
                        metadata: copy_metadata(&fr.metadata),
                        skeleton: copy_skeleton(&fr.skeleton),
                        repetitions: fr.repetitions,
                        frame: copy_bytes(&fr.frame),
                    },
                    delay_ms: delay,
                },
            );
            proof {
                let ghost prev = plan;
                plan = plan.push(PlanItem::Update(e, f));
                assert(plan =~= base + seq![PlanItem::ExerciseStart(e)] + Seq::new(
                    (f + 1) as nat,
                    |g: int| PlanItem::Update(e, g as usize),
                ));
            }
            f = f + 1;
        }
        out.push(ReplayStep { command: GUICommand::ExerciseEnd, delay_ms: EXERCISE_PAUSE_MS });
        proof {
            plan = plan.push(PlanItem::ExerciseEnd(e));
            assert(exercise_items(e as nat, nf as nat) =~= seq![PlanItem::ExerciseStart(e)] + Seq::new(
                nf as nat,
                |g: int| PlanItem::Update(e, g as usize),
            ) + seq![PlanItem::ExerciseEnd(e)]);
            assert(exercises_items(s, (e + 1) as nat) == exercises_items(s, e as nat) + exercise_items(
                e as nat,
                nf as nat,
            ));
            assert(plan =~= seq![PlanItem::SessionStart] + exercises_items(s, (e + 1) as nat));
        }
        e = e + 1;
    }
    out.push(ReplayStep { command: GUICommand::SessionEnd, delay_ms: 0 });
    proof {
        plan = plan.push(PlanItem::SessionEnd);
        assert(plan =~= session_items(s));
    }
    out
}

/// A session of two exercises with two frames each replays as: session start;
/// start, two updates and end of the first exercise; the same for the second;
/// session end.
pub proof fn lemma_two_by_two_order(s: Storage)
    requires
        s.exercises@.len() == 2,
        s.exercises@[0].frames@.len() == 2,
        s.exercises@[1].frames@.len() == 2,
    ensures
        session_items(s) == seq![
            PlanItem::SessionStart,
            PlanItem::ExerciseStart(0),
            PlanItem::Update(0, 0),
            PlanItem::Update(0, 1),
            PlanItem::ExerciseEnd(0),
            PlanItem::ExerciseStart(1),
            PlanItem::Update(1, 0),
            PlanItem::Update(1, 1),
            PlanItem::ExerciseEnd(1),
            PlanItem::SessionEnd,
        ],
{
    reveal_with_fuel(exercises_items, 3);
    assert(exercise_items(0, 2) =~= seq![
        PlanItem::ExerciseStart(0),
        PlanItem::Update(0, 0),
        PlanItem::Update(0, 1),
        PlanItem::ExerciseEnd(0),
    ]);
    assert(exercise_items(1, 2) =~= seq![
        PlanItem::ExerciseStart(1),
        PlanItem::Update(1, 0),
        PlanItem::Update(1, 1),
        PlanItem::ExerciseEnd(1),
    ]);
    assert(session_items(s) =~= seq![
        PlanItem::SessionStart,
        PlanItem::ExerciseStart(0),
        PlanItem::Update(0, 0),
        PlanItem::Update(0, 1),
        PlanItem::ExerciseEnd(0),
        PlanItem::ExerciseStart(1),
        PlanItem::Update(1, 0),
        PlanItem::Update(1, 1),
        PlanItem::ExerciseEnd(1),
        PlanItem::SessionEnd,
    ]);
}

proof fn lemma_exercises_items_inner(s: Storage, m: nat)
    requires
        m <= s.exercises@.len(),
    ensures
        forall|k: int|
            0 <= k < exercises_items(s, m).len() ==> !((#[trigger] exercises_items(s, m)[k]) is SessionStart)
                && !(exercises_items(s, m)[k] is SessionEnd),
    decreases m,
{
    if m > 0 {
        let m1 = (m - 1) as nat;
        lemma_exercises_items_inner(s, m1);
        let a = exercises_items(s, m1);
        let b = exercise_items(m1, s.exercises@[m1 as int].frames@.len());
        assert forall|k: int| 0 <= k < b.len() implies !((#[trigger] b[k]) is SessionStart) && !(b[k] is SessionEnd) by {
            let nf = s.exercises@[m1 as int].frames@.len();
            let mid = Seq::new(nf, |f: int| PlanItem::Update(m1 as usize, f as usize));
            if k == 0 {
            } else if k <= nf {
                assert(b[k] == mid[k - 1]);
            } else {
            }
        }
        assert forall|k: int| 0 <= k < (a + b).len() implies !((#[trigger] (a + b)[k]) is SessionStart)
            && !((a + b)[k] is SessionEnd) by {
            if k < a.len() {
                assert((a + b)[k] == a[k]);
            } else {
                assert((a + b)[k] == b[k - a.len()]);
            }
        }
    }
}

/// Every replay starts with the one session start and ends with the one
/// session end; no other command of a replay is either of them.
pub proof fn lemma_session_bracketed(s: Storage)
    ensures
        session_items(s).len() >= 2,
        session_items(s)[0] == PlanItem::SessionStart,
        session_items(s).last() == PlanItem::SessionEnd,
        forall|k: int|
            0 < k < session_items(s).len() - 1 ==> !((#[trigger] session_items(s)[k]) is SessionStart)
                && !(session_items(s)[k] is SessionEnd),
{
    let e = exercises_items(s, s.exercises@.len());
    lemma_exercises_items_inner(s, s.exercises@.len());
    let r = session_items(s);
    assert(r == seq![PlanItem::SessionStart] + e + seq![PlanItem::SessionEnd]);
    assert(r[0] == PlanItem::SessionStart);
    assert(r[r.len() - 1] == PlanItem::SessionEnd);
    assert forall|k: int| 0 < k < r.len() - 1 implies !((#[trigger] r[k]) is SessionStart) && !(r[k] is SessionEnd) by {
        assert(r[k] == e[k - 1]);
    }
}

} // verus!
