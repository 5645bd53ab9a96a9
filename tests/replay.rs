use actionq::protocol::{frame_delay_ms, replay_plan, GUICommand, EXERCISE_PAUSE_MS};
use actionq::skeleton::{Joint, Skeleton};
use actionq::storage::{Exercise, Recording, Storage};

fn kind(c: &GUICommand) -> &'static str {
    match c {
        GUICommand::SessionStart { .. } => "SessionStart",
        GUICommand::ExerciseStart { .. } => "ExerciseStart",
        GUICommand::ExerciseUpdate { .. } => "ExerciseUpdate",
        GUICommand::ExerciseEnd => "ExerciseEnd",
        GUICommand::SessionEnd => "SessionEnd",
    }
}

fn session(frames: &[usize]) -> Storage {
    let mut s = Storage::new((640, 480), 25);
    for (e, n) in frames.iter().enumerate() {
        let mut ex = Exercise::new(format!("ex{e}"), 3);
        for f in 0..*n {
            let sk = Skeleton { joints: vec![Joint { part: 0, x: f as i32, y: e as i32 }] };
            ex.record_frame(vec![e as u8, f as u8], sk, Some(vec![1, 2]), f % 2 == 1);
        }
        s.push_exercise(ex);
    }
    s
}

#[test]
fn two_exercises_of_two_frames_replay_in_order() {
    let plan = replay_plan(&session(&[2, 2]));
    let kinds: Vec<&str> = plan.iter().map(|s| kind(&s.command)).collect();
    assert_eq!(
        kinds,
        vec![
            "SessionStart",
            "ExerciseStart",
            "ExerciseUpdate",
            "ExerciseUpdate",
            "ExerciseEnd",
            "ExerciseStart",
            "ExerciseUpdate",
            "ExerciseUpdate",
            "ExerciseEnd",
            "SessionEnd"
        ]
    );
}

#[test]
fn replay_carries_session_and_frame_contents() {
    let plan = replay_plan(&session(&[1, 2]));
    match &plan[0].command {
        GUICommand::SessionStart { exercises_count, exercise_ids, resolution, frame_rate } => {
            assert_eq!(*exercises_count, 2);
            assert_eq!(exercise_ids, &vec!["ex0".to_string(), "ex1".to_string()]);
            assert_eq!(*resolution, (640, 480));
            assert_eq!(*frame_rate, 25);
        }
        other => panic!("unexpected {other:?}"),
    }
    match &plan[6].command {
        GUICommand::ExerciseUpdate { metadata, skeleton, repetitions, frame } => {
            assert_eq!(frame, &vec![1, 1]);
            assert_eq!(skeleton.joints, vec![Joint { part: 0, x: 1, y: 1 }]);
            assert_eq!(*repetitions, 1);
            assert_eq!(metadata, &Some(vec![1, 2]));
        }
        other => panic!("unexpected {other:?}"),
    }
    assert_eq!(plan[6].delay_ms, 40);
    assert_eq!(plan[7].delay_ms, EXERCISE_PAUSE_MS);
    assert_eq!(plan[0].delay_ms, 0);
}

#[test]
fn pacing_at_25_frames_per_second_is_40_ms() {
    let d = frame_delay_ms(25);
    assert_eq!(d, 40);
    assert!((20..=80).contains(&d));
    assert_eq!(frame_delay_ms(30), 33);
    assert_eq!(frame_delay_ms(1), 1000);
}

#[test]
fn every_connection_gets_a_full_replay_from_the_start() {
    let s = session(&[1]);
    let first = replay_plan(&s);
    let second = replay_plan(&s);
    assert_eq!(first.len(), second.len());
    assert!(matches!(second[0].command, GUICommand::SessionStart { .. }));
    assert!(matches!(second[second.len() - 1].command, GUICommand::SessionEnd));
}

#[test]
fn empty_session_replays_start_and_end() {
    let plan = replay_plan(&session(&[]));
    let kinds: Vec<&str> = plan.iter().map(|s| kind(&s.command)).collect();
    assert_eq!(kinds, vec!["SessionStart", "SessionEnd"]);
}

#[test]
fn recorded_repetitions_never_decrease() {
    let mut ex = Exercise::new("squat".to_string(), 2);
    assert_eq!(ex.repetitions(), 0);
    let events = [false, true, false, true, true];
    for e in events {
        ex.record_frame(vec![], Skeleton { joints: vec![] }, None, e);
    }
    let reps: Vec<u32> = ex.frames.iter().map(|f| f.repetitions).collect();
    assert_eq!(reps, vec![0, 1, 1, 2, 3]);
    assert_eq!(ex.repetitions(), 3);
    assert_eq!(ex.id, "squat");
    assert_eq!(ex.repetitions_target, 2);
}

#[test]
fn recording_seals_exercises_on_completion() {
    let targets = vec![("squat".to_string(), 1), ("lunge".to_string(), 2)];
    let mut r = Recording::new(targets, (640, 480), 30);
    assert!(!r.is_finished());
    assert_eq!(r.exercise.as_ref().unwrap().id, "squat");
    r.on_frame(vec![1], Skeleton { joints: vec![] }, None, false, false);
    r.on_frame(vec![2], Skeleton { joints: vec![] }, None, true, true);
    assert_eq!(r.current, 1);
    assert_eq!(r.storage.exercises.len(), 1);
    assert_eq!(r.storage.exercises[0].frames.len(), 2);
    assert_eq!(r.storage.exercises[0].frames[1].repetitions, 1);
    let next = r.exercise.as_ref().unwrap();
    assert_eq!((next.id.as_str(), next.repetitions_target, next.frames.len()), ("lunge", 2, 0));
    r.on_frame(vec![3], Skeleton { joints: vec![] }, Some(vec![9]), true, true);
    assert!(r.is_finished());
    assert!(r.exercise.is_none());
    let s = r.finish();
    assert_eq!(s.exercises.len(), 2);
    assert_eq!(s.exercises[1].id, "lunge");
    assert_eq!(s.exercises[1].frames[0].metadata, Some(vec![9]));
    assert_eq!((s.resolution, s.frame_rate), ((640, 480), 30));
}
