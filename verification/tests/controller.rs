use auv_frame_loop::controller::{
    check_frontmost, focus_result, open_request, opened_frame_buffer, require_permissions, Action, Controller,
    ControllerError, ControllerOptions, Event, Evidence, InputPolicy, InputTarget, KeyPress, Phase,
};
use auv_frame_loop::frame_buffers::{validate_open, CaptureTarget, FrameBufferRef, OpenFrameBufferResponse, WindowRef};
use auv_frame_loop::images::RgbaFrame;
use auv_frame_loop::inference::ExecutionProvider;
use auv_frame_loop::model_frames::FrameError;
use auv_frame_loop::policy::{instruction, OutputError};
use auv_frame_loop::recent_frames::{CapturedFrame, RecentFrame};
use auv_frame_loop::tensors::{shaped_inputs, F32Tensor, TopPrediction};

fn options(steps: u32, foreground_input: bool) -> ControllerOptions {
    ControllerOptions {
        task: "enter".to_string(),
        target: "mine".to_string(),
        steps,
        settle_ms: 500,
        frame_wait_timeout_ms: 2000,
        foreground_input,
        background_input: !foreground_input,
    }
}

fn controller(steps: u32, foreground_input: bool) -> Controller {
    Controller::new(
        options(steps, foreground_input),
        ExecutionProvider::CoreMl,
        instruction("enter", "mine").unwrap(),
        (0..768).collect(),
    )
}

fn step(controller: &mut Controller, event: Event<()>) -> Result<Action, ControllerError> {
    assert!(controller.awaits(&event));
    controller.step(event)
}

fn frames(sequences: &[u64], deadline_passed: bool) -> Event<()> {
    let frames = sequences
        .iter()
        .map(|sequence| RecentFrame {
            sequence: *sequence,
            capture: Some(CapturedFrame {
                image: Some(RgbaFrame { width: 1, height: 29, data: vec![*sequence as u8; 116] }),
                metadata: (),
            }),
        })
        .collect();
    Event::Frames { frames, latest_sequence: sequences.last().copied().unwrap_or(0), deadline_passed }
}

fn outputs(len: usize) -> Event<()> {
    let tensor = F32Tensor { name: "logits".to_string(), shape: vec![1, len], data: (0..len as u32).collect() };
    Event::Outputs(vec![tensor])
}

fn likely(action: usize) -> Event<()> {
    Event::Probabilities((0..9).map(|i| if i == action { 0.9f32.to_bits() } else { 0.0125f32.to_bits() }).collect())
}

fn handled(percent: &str) -> Event<()> {
    Event::InputHandled { percent: percent.to_string() }
}

fn reach_frames(controller: &mut Controller) {
    step(controller, Event::Started).unwrap();
    step(controller, Event::EvidenceSaved).unwrap();
}

#[test]
fn a_run_goes_from_frames_to_keys_and_ends_with_its_trace() {
    let mut run = controller(2, false);
    assert_eq!(
        step(&mut run, Event::Started),
        Ok(Action::SaveEvidence { evidence: Evidence::Before, activate_first: false })
    );
    assert_eq!(
        step(&mut run, Event::EvidenceSaved),
        Ok(Action::FetchFrames { after_sequence: 0, new_step: true })
    );
    assert_eq!(step(&mut run, frames(&[], false)), Ok(Action::AwaitFrame));
    assert_eq!(
        step(&mut run, Event::FrameDue),
        Ok(Action::FetchFrames { after_sequence: 0, new_step: false })
    );
    match step(&mut run, frames(&[1, 2], true)).unwrap() {
        Action::RunModel { inputs } => {
            let names: Vec<_> = inputs.iter().map(|input| input.name.as_str()).collect();
            assert_eq!(names, ["frames", "held", "instruction"]);
            assert_eq!(inputs[0].data[0], 1);
            assert_eq!(*inputs[0].data.last().unwrap(), 512 + 2);
            assert_eq!(shaped_inputs(inputs.clone()), Ok(inputs));
        }
        other => panic!("unexpected {other:?}"),
    }
    assert_eq!(step(&mut run, outputs(9)), Ok(Action::Normalize { logits: (0..9).collect() }));
    assert_eq!(
        step(&mut run, likely(1)),
        Ok(Action::Perform {
            prediction: TopPrediction { index: 1, confidence: 0.9f32.to_bits() },
            press: Some(KeyPress {
                key: "arrowdown",
                target: InputTarget::Window,
                policy: InputPolicy::BackgroundPreferred,
                confirm_frontmost: false,
            }),
        })
    );
    assert_eq!(step(&mut run, handled("90.0")), Ok(Action::Settle { ms: 500 }));
    assert_eq!(run.completed_steps(), 1);
    assert_eq!(step(&mut run, Event::Settled), Ok(Action::FetchFrames { after_sequence: 2, new_step: true }));
    step(&mut run, frames(&[3], false)).unwrap();
    step(&mut run, outputs(9)).unwrap();
    assert!(matches!(step(&mut run, likely(8)), Ok(Action::Perform { press: None, .. })));
    step(&mut run, handled("90.0")).unwrap();
    assert_eq!(
        step(&mut run, Event::Settled),
        Ok(Action::SaveEvidence { evidence: Evidence::After, activate_first: false })
    );
    let content = match step(&mut run, Event::EvidenceSaved).unwrap() {
        Action::WriteTrace { content } => content,
        other => panic!("unexpected {other:?}"),
    };
    assert_eq!(
        content,
        "1\n00:00:00,000 --> 00:00:01,000\nLower v0: enter mine | provider: CoreMLExecutionProvider | model frames: RPC sequences 1..=2, consumer cropped top 28 px and prepared 384x216 RGB8 | predicted: ui_down (90.0%) | AUV sent: arrowdown\n\n2\n00:00:01,000 --> 00:00:02,000\nLower v0: enter mine | provider: CoreMLExecutionProvider | model frames: RPC sequences 1..=3, consumer cropped top 28 px and prepared 384x216 RGB8 | predicted: none (90.0%) | AUV sent: nothing\n\n3\n00:00:02,000 --> 00:00:03,000\nFinal AUV evidence observation\n"
    );
    assert_eq!(step(&mut run, Event::TraceWritten), Ok(Action::Finish));
    assert_eq!((run.phase(), run.completed_steps()), (Phase::Done, 2));
}

#[test]
fn foreground_input_is_focused_first_and_confirmed_before_each_key() {
    let mut run = controller(1, true);
    assert_eq!(
        step(&mut run, Event::Started),
        Ok(Action::SaveEvidence { evidence: Evidence::Before, activate_first: true })
    );
    assert_eq!(step(&mut run, Event::EvidenceSaved), Ok(Action::FocusWindow));
    assert_eq!(step(&mut run, Event::Focused), Ok(Action::FetchFrames { after_sequence: 0, new_step: true }));
    step(&mut run, frames(&[1], false)).unwrap();
    step(&mut run, outputs(9)).unwrap();
    match step(&mut run, likely(6)).unwrap() {
        Action::Perform { press: Some(press), .. } => {
            assert_eq!((press.key, press.target, press.confirm_frontmost), ("q", InputTarget::Foreground, true));
            assert_eq!(press.policy, InputPolicy::ForegroundPreferred);
        }
        other => panic!("unexpected {other:?}"),
    }
}

#[test]
fn a_run_without_steps_only_takes_evidence() {
    let mut run = controller(0, false);
    step(&mut run, Event::Started).unwrap();
    assert_eq!(
        step(&mut run, Event::EvidenceSaved),
        Ok(Action::SaveEvidence { evidence: Evidence::After, activate_first: false })
    );
    assert_eq!(
        step(&mut run, Event::EvidenceSaved),
        Ok(Action::WriteTrace {
            content: "1\n00:00:00,000 --> 00:00:01,000\nFinal AUV evidence observation\n".to_string()
        })
    );
}

#[test]
fn each_failure_ends_the_run() {
    let mut late = controller(1, false);
    reach_frames(&mut late);
    let error = step(&mut late, frames(&[], true)).unwrap_err();
    assert_eq!(error, ControllerError::TimedOut { ms: 2000 });
    assert_eq!(error.message(), "GetRecentFrames timed out after 2000 ms without a newer frame");
    assert_eq!(late.phase(), Phase::Done);

    let mut disordered = controller(1, false);
    reach_frames(&mut disordered);
    let error = step(&mut disordered, frames(&[2, 1], false)).unwrap_err();
    assert_eq!(error, ControllerError::Frames(FrameError::OutOfOrder));
    assert_eq!(error.message(), "GetRecentFrames returned frames outside strict sequence order");

    let mut wrong = controller(1, false);
    reach_frames(&mut wrong);
    step(&mut wrong, frames(&[1], false)).unwrap();
    let error = step(&mut wrong, outputs(3)).unwrap_err();
    assert_eq!(error, ControllerError::Output(OutputError::WrongLength { len: 3 }));
    assert_eq!(error.message(), "expected nine logits, got 3");

    let mut empty = controller(1, false);
    reach_frames(&mut empty);
    step(&mut empty, frames(&[1], false)).unwrap();
    step(&mut empty, outputs(9)).unwrap();
    let error = step(&mut empty, Event::Probabilities(vec![])).unwrap_err();
    assert_eq!(error, ControllerError::NoLogits);
    assert_eq!(error.message(), "model returned no logits");
}

#[test]
fn only_the_event_that_is_waited_for_is_expected() {
    let run = controller(1, false);
    assert!(run.awaits::<()>(&Event::Started));
    assert!(!run.awaits::<()>(&Event::Settled));
    assert!(!run.awaits(&frames(&[1], false)));
}

#[test]
fn the_controller_asks_for_its_window() {
    let request = open_request::<()>("w7".to_string(), 10, 12);
    let (target, fps, capacity, size) = validate_open(request).unwrap();
    assert_eq!(target, CaptureTarget::Window(WindowRef { window_id: "w7".to_string() }));
    assert_eq!((fps, capacity, size), (10, 12, None));
    let reference = || FrameBufferRef { frame_buffer_id: "x".to_string() };
    assert_eq!(
        opened_frame_buffer(OpenFrameBufferResponse { frame_buffer: Some(reference()) }),
        Ok(reference())
    );
    assert_eq!(
        opened_frame_buffer(OpenFrameBufferResponse { frame_buffer: None }),
        Err("OpenFrameBuffer response omitted frame_buffer".to_string())
    );
}

#[test]
fn permissions_and_focus_are_checked() {
    assert_eq!(require_permissions(true, true), Ok(()));
    assert_eq!(
        require_permissions(false, false),
        Err("the auv-game-dome-keeper process needs macOS Accessibility permission before it can send input".to_string())
    );
    assert_eq!(
        require_permissions(true, false),
        Err("the auv-game-dome-keeper process needs macOS Screen Recording permission before it can capture frames".to_string())
    );
    assert_eq!(check_frontmost(true, "a", "a"), Ok(()));
    assert_eq!(
        check_frontmost(false, "a", "b"),
        Err("frontmost window changed: expected a, got b".to_string())
    );
    let failed = |text: &str| Err(text.to_string());
    assert_eq!(focus_result(Ok(()), Ok(())), Ok(()));
    assert_eq!(focus_result(failed("focus"), failed("restore")), failed("focus"));
    assert_eq!(focus_result(Ok(()), failed("restore")), failed("restore"));
}
