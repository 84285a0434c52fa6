//! The control loop: from recent frames to the model, from the model to the keyboard.
//!
//! The loop is a state machine. It takes in what happened outside and says what is
//! to happen there next; it captures, infers and types nothing itself.
use std::collections::VecDeque;

use vstd::prelude::*;

use crate::frame_buffers::{
    CaptureTargetRequest, FrameBufferRef, OpenFrameBufferRequest, OpenFrameBufferResponse,
    RequestedTarget, WindowRef,
};
#[allow(unused_imports)]
use crate::images::{Raster, MODEL_PIXELS};
use crate::images::RgbFrame;
#[allow(unused_imports)]
use crate::inference::onnx_name;
use crate::inference::{provider_name, ExecutionProvider};
#[allow(unused_imports)]
use crate::model_frames::{
    complete, delivered, fed, feedable, frame_error_text, increasing, law_model_sees_a_full_window,
    rasters, sequences, shown, window_of, window_step,
};
use crate::model_frames::{can_feed, model_history, FrameError, FRAME_COUNT};
#[allow(unused_imports)]
use crate::policy::{
    input_models, key_text, law_model_inputs_are_well_shaped, logits_check, output_error_text,
};
use crate::policy::{
    action_key, model_inputs, model_logits, OutputError, ACTION_COUNT, BYTE_LEVELS, NONE,
    TARGET_COUNT, TASK_COUNT,
};
use crate::recent_frames::RecentFrame;
#[allow(unused_imports)]
use crate::recent_frames::RecentFrameModel;
#[allow(unused_imports)]
use crate::report::{decision_text, lines, subtitle_file, told};
use crate::report::{decision_line, subtitles};
#[allow(unused_imports)]
use crate::tensors::{
    first_shape_error, is_top, law_top_exists, law_top_is_unique, tensor_models, TensorModel,
};
use crate::tensors::{top1, F32Tensor, TopPrediction};
#[allow(unused_imports)]
use crate::text::decimal;
use crate::text::{push_decimal, push_str};

verus! {

/// Refuses to run without the permissions to send input and to capture the screen.
pub fn require_permissions(accessibility: bool, screen_capture: bool) -> (granted: Result<
    (),
    String,
>)
    ensures
        told(granted) == permission_check(accessibility, screen_capture),
{
    if !accessibility {
        Err(
            "the auv-game-dome-keeper process needs macOS Accessibility permission before it can send input".to_owned(),
        )
    } else if !screen_capture {
        Err(
            "the auv-game-dome-keeper process needs macOS Screen Recording permission before it can capture frames".to_owned(),
        )
    } else {
        Ok(())
    }
}

/// What comes of the permissions that were granted.
pub open spec fn permission_check(accessibility: bool, screen_capture: bool) -> Result<
    (),
    Seq<char>,
> {
    if !accessibility {
        Err(
            "the auv-game-dome-keeper process needs macOS Accessibility permission before it can send input"@,
        )
    } else if !screen_capture {
        Err(
            "the auv-game-dome-keeper process needs macOS Screen Recording permission before it can capture frames"@,
        )
    } else {
        Ok(())
    }
}

/// The request by which a controller opens the frame buffer of its window, at the
/// window's own size.
pub fn open_request<R>(window_id: String, target_fps: u32, buffer_capacity: u32) -> (request:
    OpenFrameBufferRequest<R>)
    ensures
        request.target == Some(
            CaptureTargetRequest { target: Some(RequestedTarget::<R>::Window(WindowRef { window_id })) },
        ),
        request.target_fps == target_fps,
        request.frame_capacity == buffer_capacity,
        request.output_size is None,
{
    OpenFrameBufferRequest {
        target: Some(
            CaptureTargetRequest { target: Some(RequestedTarget::Window(WindowRef { window_id })) },
        ),
        target_fps,
        frame_capacity: buffer_capacity,
        output_size: None,
    }
}

/// What comes of the answer to a request to open a buffer.
pub open spec fn opened_check(response: OpenFrameBufferResponse) -> Result<
    FrameBufferRef,
    Seq<char>,
> {
    match response.frame_buffer {
        Some(reference) => Ok(reference),
        None => Err("OpenFrameBuffer response omitted frame_buffer"@),
    }
}

/// Takes the reference from the answer to a request to open a buffer.
pub fn opened_frame_buffer(response: OpenFrameBufferResponse) -> (reference: Result<
    FrameBufferRef,
    String,
>)
    ensures
        told(reference) == opened_check(response),
{
    match response.frame_buffer {
        Some(reference) => Ok(reference),
        None => Err("OpenFrameBuffer response omitted frame_buffer".to_owned()),
    }
}

/// What comes of finding a window frontmost.
pub open spec fn frontmost_check(same: bool, expected_id: Seq<char>, actual_id: Seq<char>) -> Result<
    (),
    Seq<char>,
> {
    if same {
        Ok(())
    } else {
        Err("frontmost window changed: expected "@ + expected_id + ", got "@ + actual_id)
    }
}

/// Refuses a frontmost window that is not the expected one.
pub fn check_frontmost(same: bool, expected_id: &str, actual_id: &str) -> (confirmed: Result<
    (),
    String,
>)
    ensures
        told(confirmed) == frontmost_check(same, expected_id@, actual_id@),
{
    if same {
        Ok(())
    } else {
        let mut text: String = "frontmost window changed: expected ".to_owned();
        push_str(&mut text, expected_id);
        push_str(&mut text, ", got ");
        push_str(&mut text, actual_id);
        Err(text)
    }
}

/// What a focusing click amounts to once the pointer was moved back: the failure of
/// the click counts before that of moving back.
pub fn focus_result(focus: Result<(), String>, restore: Result<(), String>) -> (result: Result<
    (),
    String,
>)
    ensures
        result == (if focus is Err {
            focus
        } else {
            restore
        }),
{
    match focus {
        Err(error) => Err(error),
        Ok(_) => restore,
    }
}

/// What a run of the controller was asked for.
#[derive(Debug)]
pub struct ControllerOptions {
    pub task: String,
    pub target: String,
    pub steps: u32,
    pub settle_ms: u64,
    pub frame_wait_timeout_ms: u32,
    pub foreground_input: bool,
    pub background_input: bool,
}

/// Where keys are sent.
#[derive(Clone, Copy, Debug, PartialEq, Eq, Structural)]
pub enum InputTarget {
    /// To whatever is in front.
    Foreground,
    /// To the captured window.
    Window,
}

/// How keys are sent.
#[derive(Clone, Copy, Debug, PartialEq, Eq, Structural)]
pub enum InputPolicy {
    BackgroundPreferred,
    ForegroundPreferred,
}

/// One complete key press.
#[derive(Clone, Copy, Debug, PartialEq, Eq)]
pub struct KeyPress {
    pub key: &'static str,
    pub target: InputTarget,
    pub policy: InputPolicy,
    /// Whether the captured window must first be found in front.
    pub confirm_frontmost: bool,
}

/// What a `KeyPress` holds.
#[verifier::ext_equal]
pub struct KeyPressModel {
    pub key: Seq<char>,
    pub target: InputTarget,
    pub policy: InputPolicy,
    pub confirm_frontmost: bool,
}

impl View for KeyPress {
    type V = KeyPressModel;

    open spec fn view(&self) -> KeyPressModel {
        KeyPressModel {
            key: self.key@,
            target: self.target,
            policy: self.policy,
            confirm_frontmost: self.confirm_frontmost,
        }
    }
}

/// The key press by which an action is performed, if it takes one.
pub open spec fn press_for(options: ControllerOptions, action: usize) -> Option<KeyPressModel> {
    match key_text(action) {
        None => None,
        Some(key) => Some(
            KeyPressModel {
                key,
                target: if options.foreground_input {
                    InputTarget::Foreground
                } else {
                    InputTarget::Window
                },
                policy: if options.background_input {
                    InputPolicy::BackgroundPreferred
                } else {
                    InputPolicy::ForegroundPreferred
                },
                confirm_frontmost: options.foreground_input,
            },
        ),
    }
}

/// A key press with its contents taken by its view.
pub open spec fn press_view(press: Option<KeyPress>) -> Option<KeyPressModel> {
    match press {
        Some(press) => Some(press@),
        None => None,
    }
}

impl ControllerOptions {
    /// The key press by which an action is performed, if it takes one.
    pub fn key_press(&self, action: usize) -> (press: Option<KeyPress>)
        ensures
            press_view(press) == press_for(*self, action),
    {
        match action_key(action) {
            None => None,
            Some(key) => Some(
                KeyPress {
                    key,
                    target: if self.foreground_input {
                        InputTarget::Foreground
                    } else {
                        InputTarget::Window
                    },
                    policy: if self.background_input {
                        InputPolicy::BackgroundPreferred
                    } else {
                        InputPolicy::ForegroundPreferred
                    },
                    confirm_frontmost: self.foreground_input,
                },
            ),
        }
    }
}

/// Why a run ended early.
#[derive(Clone, Copy, Debug, PartialEq, Eq, Structural)]
pub enum ControllerError {
    /// No newer frame came in time.
    TimedOut { ms: u32 },
    /// The frames that came were not taken.
    Frames(FrameError),
    /// The outputs of the model were not taken.
    Output(OutputError),
    /// There was nothing to choose from.
    NoLogits,
}

/// What a `ControllerError` says.
pub open spec fn controller_error_text(error: ControllerError) -> Seq<char> {
    match error {
        ControllerError::TimedOut { ms } => "GetRecentFrames timed out after "@ + decimal(ms as nat)
            + " ms without a newer frame"@,
        ControllerError::Frames(error) => frame_error_text(error),
        ControllerError::Output(error) => output_error_text(error),
        ControllerError::NoLogits => "model returned no logits"@,
    }
}

impl ControllerError {
    /// What the error says.
    pub fn message(&self) -> (text: String)
        ensures
            text@ == controller_error_text(*self),
    {
        match *self {
            ControllerError::TimedOut { ms } => {
                let mut text: String = "GetRecentFrames timed out after ".to_owned();
                push_decimal(&mut text, ms as u128);
                push_str(&mut text, " ms without a newer frame");
                text
            },
            ControllerError::Frames(error) => error.message(),
            ControllerError::Output(error) => error.message(),
            ControllerError::NoLogits => "model returned no logits".to_owned(),
        }
    }
}

/// What the controller waits for.
#[derive(Clone, Copy, Debug, PartialEq, Eq, Structural)]
pub enum Phase {
    /// To be started.
    Start,
    /// The evidence frame before the first step.
    EvidenceBefore,
    /// The window to be in front.
    Focus,
    /// The answer to a request for frames.
    Frames,
    /// The next frame to be due.
    FramePause,
    /// The outputs of the model, which was shown the frames `first` to `last`.
    Outputs { first: u64, last: u64 },
    /// The probabilities of the actions.
    Probabilities { first: u64, last: u64 },
    /// The action to be performed.
    Input { first: u64, last: u64, action: usize },
    /// The game to settle.
    Settle,
    /// The evidence frame after the last step.
    EvidenceAfter,
    /// The trace to be written.
    Trace,
    /// Nothing.
    Done,
}

/// What happened outside.
#[derive(Debug)]
pub enum Event<M> {
    Started,
    EvidenceSaved,
    Focused,
    /// Frames were answered, possibly none; and whether the deadline for frames of
    /// this step has passed.
    Frames { frames: Vec<RecentFrame<M>>, latest_sequence: u64, deadline_passed: bool },
    FrameDue,
    Outputs(Vec<F32Tensor>),
    Probabilities(Vec<u32>),
    /// The action was performed. The confidence comes written out as a percentage.
    InputHandled { percent: String },
    Settled,
    TraceWritten,
}

/// What an `Event` holds.
#[verifier::ext_equal]
pub enum EventModel<M> {
    Started,
    EvidenceSaved,
    Focused,
    Frames { frames: Seq<RecentFrameModel<M>>, latest_sequence: u64, deadline_passed: bool },
    FrameDue,
    Outputs(Seq<TensorModel>),
    Probabilities(Seq<u32>),
    InputHandled { percent: Seq<char> },
    Settled,
    TraceWritten,
}

impl<M> View for Event<M> {
    type V = EventModel<M>;

    open spec fn view(&self) -> EventModel<M> {
        match *self {
            Event::Started => EventModel::Started,
            Event::EvidenceSaved => EventModel::EvidenceSaved,
            Event::Focused => EventModel::Focused,
            Event::Frames { frames, latest_sequence, deadline_passed } => EventModel::Frames {
                frames: delivered(frames@),
                latest_sequence,
                deadline_passed,
            },
            Event::FrameDue => EventModel::FrameDue,
            Event::Outputs(outputs) => EventModel::Outputs(tensor_models(outputs@)),
            Event::Probabilities(values) => EventModel::Probabilities(values@),
            Event::InputHandled { percent } => EventModel::InputHandled { percent: percent@ },
            Event::Settled => EventModel::Settled,
            Event::TraceWritten => EventModel::TraceWritten,
        }
    }
}

/// Which evidence frame.
#[derive(Clone, Copy, Debug, PartialEq, Eq, Structural)]
pub enum Evidence {
    Before,
    After,
}

/// What is to happen outside.
#[derive(Debug, PartialEq)]
pub enum Action {
    /// Capture the window, activating its app first if so asked, and save the frame.
    SaveEvidence { evidence: Evidence, activate_first: bool },
    /// Click into the window and confirm that it is in front.
    FocusWindow,
    /// Ask for the frames after a sequence number. In a new step the time in which
    /// frames have to come starts anew.
    FetchFrames { after_sequence: u64, new_step: bool },
    /// Wait until the next frame is due.
    AwaitFrame,
    /// Run the model.
    RunModel { inputs: Vec<F32Tensor> },
    /// Turn logits into probabilities.
    Normalize { logits: Vec<u32> },
    /// Perform the predicted action.
    Perform { prediction: TopPrediction, press: Option<KeyPress> },
    /// Let the game settle.
    Settle { ms: u64 },
    /// Write the trace.
    WriteTrace { content: String },
    /// End the run.
    Finish,
}

/// What an `Action` holds.
#[verifier::ext_equal]
pub enum ActionModel {
    SaveEvidence { evidence: Evidence, activate_first: bool },
    FocusWindow,
    FetchFrames { after_sequence: u64, new_step: bool },
    AwaitFrame,
    RunModel { inputs: Seq<TensorModel> },
    Normalize { logits: Seq<u32> },
    Perform { prediction: TopPrediction, press: Option<KeyPressModel> },
    Settle { ms: u64 },
    WriteTrace { content: Seq<char> },
    Finish,
}

impl View for Action {
    type V = ActionModel;

    open spec fn view(&self) -> ActionModel {
        match *self {
            Action::SaveEvidence { evidence, activate_first } => ActionModel::SaveEvidence {
                evidence,
                activate_first,
            },
            Action::FocusWindow => ActionModel::FocusWindow,
            Action::FetchFrames { after_sequence, new_step } => ActionModel::FetchFrames {
                after_sequence,
                new_step,
            },
            Action::AwaitFrame => ActionModel::AwaitFrame,
            Action::RunModel { inputs } => ActionModel::RunModel { inputs: tensor_models(inputs@) },
            Action::Normalize { logits } => ActionModel::Normalize { logits: logits@ },
            Action::Perform { prediction, press } => ActionModel::Perform {
                prediction,
                press: press_view(press),
            },
            Action::Settle { ms } => ActionModel::Settle { ms },
            Action::WriteTrace { content } => ActionModel::WriteTrace { content: content@ },
            Action::Finish => ActionModel::Finish,
        }
    }
}

/// An action with its contents taken by its view.
pub open spec fn action_outcome(result: Result<Action, ControllerError>) -> Result<
    ActionModel,
    ControllerError,
> {
    match result {
        Ok(action) => Ok(action@),
        Err(error) => Err(error),
    }
}

/// A run of the controller.
#[derive(Debug)]
pub struct Controller {
    options: ControllerOptions,
    provider: ExecutionProvider,
    instruction: Vec<u32>,
    levels: Vec<u32>,
    history: VecDeque<(u64, RgbFrame)>,
    held: VecDeque<usize>,
    trace: Vec<String>,
    after_sequence: u64,
    step: u32,
    phase: Phase,
}

/// What a `Controller` holds.
#[verifier::ext_equal]
pub struct ControllerModel {
    pub options: ControllerOptions,
    pub provider: ExecutionProvider,
    pub instruction: Seq<u32>,
    pub levels: Seq<u32>,
    pub window: Seq<(u64, Raster)>,
    pub held: Seq<usize>,
    pub trace: Seq<Seq<char>>,
    pub after_sequence: u64,
    pub step: u32,
    pub phase: Phase,
}

impl View for Controller {
    type V = ControllerModel;

    closed spec fn view(&self) -> ControllerModel {
        ControllerModel {
            options: self.options,
            provider: self.provider,
            instruction: self.instruction@,
            levels: self.levels@,
            window: window_of(self.history),
            held: self.held@,
            trace: lines(self.trace@),
            after_sequence: self.after_sequence,
            step: self.step,
            phase: self.phase,
        }
    }
}

/// The held actions when none was ever held.
pub open spec fn none_held() -> Seq<usize> {
    Seq::new(FRAME_COUNT as nat, |i: int| NONE)
}

/// The place of the greatest of some values, and the last one if there are several.
pub open spec fn top_place(values: Seq<u32>) -> int {
    choose|index: int| is_top(values, index)
}

impl ControllerModel {
    /// A controller before its start.
    pub open spec fn initial(
        options: ControllerOptions,
        provider: ExecutionProvider,
        instruction: Seq<u32>,
        levels: Seq<u32>,
    ) -> ControllerModel {
        ControllerModel {
            options,
            provider,
            instruction,
            levels,
            window: Seq::empty(),
            held: none_held(),
            trace: Seq::empty(),
            after_sequence: 0,
            step: 0,
            phase: Phase::Start,
        }
    }

    /// Whether a step is under way.
    pub open spec fn in_step(self) -> bool {
        match self.phase {
            Phase::Frames => true,
            Phase::FramePause => true,
            Phase::Outputs { .. } => true,
            Phase::Probabilities { .. } => true,
            Phase::Input { .. } => true,
            _ => false,
        }
    }

    /// What holds throughout a run: the window is not larger than the model's, no
    /// action is held, steps are counted up to the number asked for, and the trace
    /// has one line for each step that was completed, and a last one at the end.
    pub open spec fn inv(self) -> bool {
        &&& self.window.len() <= FRAME_COUNT
        &&& self.held == none_held()
        &&& self.levels.len() == 3 * BYTE_LEVELS
        &&& self.instruction.len() == TASK_COUNT + TARGET_COUNT
        &&& self.step <= self.options.steps
        &&& self.in_step() ==> self.step < self.options.steps
        &&& match self.phase {
            Phase::Input { action, .. } => action < ACTION_COUNT,
            _ => true,
        }
        &&& match self.phase {
            Phase::EvidenceAfter => self.step == self.options.steps && self.trace.len()
                == self.step,
            Phase::Trace => self.step == self.options.steps && self.trace.len() == self.step + 1,
            Phase::Done => true,
            _ => self.trace.len() == self.step,
        }
    }

    /// Whether an event is one that the controller waits for.
    pub open spec fn expects<M>(self, event: EventModel<M>) -> bool {
        match (self.phase, event) {
            (Phase::Start, EventModel::Started) => true,
            (Phase::EvidenceBefore, EventModel::EvidenceSaved) => true,
            (Phase::Focus, EventModel::Focused) => true,
            (Phase::Frames, EventModel::Frames { frames, latest_sequence, .. }) => feedable(
                frames,
                self.after_sequence,
                latest_sequence,
            ),
            (Phase::FramePause, EventModel::FrameDue) => true,
            (Phase::Outputs { .. }, EventModel::Outputs(_)) => true,
            (Phase::Probabilities { .. }, EventModel::Probabilities(values)) => values.len()
                <= ACTION_COUNT,
            (Phase::Input { .. }, EventModel::InputHandled { .. }) => true,
            (Phase::Settle, EventModel::Settled) => true,
            (Phase::EvidenceAfter, EventModel::EvidenceSaved) => true,
            (Phase::Trace, EventModel::TraceWritten) => true,
            _ => false,
        }
    }

    /// The run ends early.
    pub open spec fn fail(self, error: ControllerError) -> (
        ControllerModel,
        Result<ActionModel, ControllerError>,
    ) {
        (ControllerModel { phase: Phase::Done, ..self }, Err(error))
    }

    /// The next step begins with a request for frames. After the last one comes the
    /// final evidence frame.
    pub open spec fn begin_step(self) -> (ControllerModel, Result<ActionModel, ControllerError>) {
        if self.step < self.options.steps {
            (
                ControllerModel { phase: Phase::Frames, ..self },
                Ok(
                    ActionModel::FetchFrames {
                        after_sequence: self.after_sequence,
                        new_step: true,
                    },
                ),
            )
        } else {
            (
                ControllerModel { phase: Phase::EvidenceAfter, ..self },
                Ok(
                    ActionModel::SaveEvidence { evidence: Evidence::After, activate_first: false },
                ),
            )
        }
    }

    /// No frames: ask again once the next one is due, unless it is too late. Frames:
    /// take them into the window and show it to the model.
    pub open spec fn take_frames<M>(
        self,
        frames: Seq<RecentFrameModel<M>>,
        latest_sequence: u64,
        deadline_passed: bool,
    ) -> (ControllerModel, Result<ActionModel, ControllerError>) {
        if frames.len() == 0 {
            if deadline_passed {
                self.fail(ControllerError::TimedOut { ms: self.options.frame_wait_timeout_ms })
            } else {
                (
                    ControllerModel { phase: Phase::FramePause, ..self },
                    Ok(ActionModel::AwaitFrame),
                )
            }
        } else {
            let (window, seen) = window_step(
                self.window,
                frames,
                self.after_sequence,
                latest_sequence,
            );
            match seen {
                Err(error) => ControllerModel { window, ..self }.fail(
                    ControllerError::Frames(error),
                ),
                Ok((images, first, last)) => (
                    ControllerModel {
                        window,
                        after_sequence: latest_sequence,
                        phase: Phase::Outputs { first, last },
                        ..self
                    },
                    Ok(
                        ActionModel::RunModel {
                            inputs: input_models(images, self.levels, self.held, self.instruction),
                        },
                    ),
                ),
            }
        }
    }

    /// The most likely action is performed.
    pub open spec fn choose_action(self, first: u64, last: u64, values: Seq<u32>) -> (
        ControllerModel,
        Result<ActionModel, ControllerError>,
    ) {
        if values.len() == 0 {
            self.fail(ControllerError::NoLogits)
        } else {
            let action = top_place(values) as usize;
            (
                ControllerModel { phase: Phase::Input { first, last, action }, ..self },
                Ok(
                    ActionModel::Perform {
                        prediction: TopPrediction {
                            index: action,
                            confidence: values[action as int],
                        },
                        press: press_for(self.options, action),
                    },
                ),
            )
        }
    }

    /// The step is traced and completed. Whatever was pressed was released again,
    /// so that none is held.
    pub open spec fn complete_step(
        self,
        first: u64,
        last: u64,
        action: usize,
        percent: Seq<char>,
    ) -> (ControllerModel, Result<ActionModel, ControllerError>) {
        (
            ControllerModel {
                trace: self.trace.push(
                    decision_text(
                        self.options.task@,
                        self.options.target@,
                        onnx_name(self.provider),
                        first,
                        last,
                        action,
                        percent,
                    ),
                ),
                held: self.held.drop_first().push(NONE),
                step: (self.step + 1) as u32,
                phase: Phase::Settle,
                ..self
            },
            Ok(ActionModel::Settle { ms: self.options.settle_ms }),
        )
    }

    /// The run is traced to its end.
    pub open spec fn end_trace(self) -> (ControllerModel, Result<ActionModel, ControllerError>) {
        let trace = self.trace.push("Final AUV evidence observation"@);
        (
            ControllerModel { trace, phase: Phase::Trace, ..self },
            Ok(ActionModel::WriteTrace { content: subtitle_file(trace) }),
        )
    }

    /// The state after an event that was waited for, and what is to happen next.
    pub open spec fn step<M>(self, event: EventModel<M>) -> (
        ControllerModel,
        Result<ActionModel, ControllerError>,
    ) {
        match (self.phase, event) {
            (Phase::Start, EventModel::Started) => (
                ControllerModel { phase: Phase::EvidenceBefore, ..self },
                Ok(
                    ActionModel::SaveEvidence {
                        evidence: Evidence::Before,
                        activate_first: self.options.foreground_input,
                    },
                ),
            ),
            (Phase::EvidenceBefore, EventModel::EvidenceSaved) => {
                if self.options.foreground_input {
                    (
                        ControllerModel { phase: Phase::Focus, ..self },
                        Ok(ActionModel::FocusWindow),
                    )
                } else {
                    self.begin_step()
                }
            },
            (Phase::Focus, EventModel::Focused) => self.begin_step(),
            (
                Phase::Frames,
                EventModel::Frames { frames, latest_sequence, deadline_passed },
            ) => self.take_frames(frames, latest_sequence, deadline_passed),
            (Phase::FramePause, EventModel::FrameDue) => (
                ControllerModel { phase: Phase::Frames, ..self },
                Ok(
                    ActionModel::FetchFrames {
                        after_sequence: self.after_sequence,
                        new_step: false,
                    },
                ),
            ),
            (Phase::Outputs { first, last }, EventModel::Outputs(outputs)) => {
                match logits_check(outputs) {
                    Err(error) => self.fail(ControllerError::Output(error)),
                    Ok(logits) => (
                        ControllerModel { phase: Phase::Probabilities { first, last }, ..self },
                        Ok(ActionModel::Normalize { logits }),
                    ),
                }
            },
            (Phase::Probabilities { first, last }, EventModel::Probabilities(values)) => {
                self.choose_action(first, last, values)
            },
            (
                Phase::Input { first, last, action },
                EventModel::InputHandled { percent },
            ) => self.complete_step(first, last, action, percent),
            (Phase::Settle, EventModel::Settled) => self.begin_step(),
            (Phase::EvidenceAfter, EventModel::EvidenceSaved) => self.end_trace(),
            _ => (ControllerModel { phase: Phase::Done, ..self }, Ok(ActionModel::Finish)),
        }
    }
}

impl Controller {
    /// The invariant of a run.
    pub open spec fn wf(self) -> bool {
        self@.inv() && complete(self@.window)
    }

    /// A controller before its start. The levels give the normalized value of each
    /// byte, for the three color channels one after the other.
    pub fn new(
        options: ControllerOptions,
        provider: ExecutionProvider,
        instruction: Vec<u32>,
        levels: Vec<u32>,
    ) -> (controller: Controller)
        requires
            instruction@.len() == TASK_COUNT + TARGET_COUNT,
            levels@.len() == 3 * BYTE_LEVELS,
        ensures
            controller@ == ControllerModel::initial(options, provider, instruction@, levels@),
            controller.wf(),
    {
        let mut held: VecDeque<usize> = VecDeque::new();
        for i in 0..FRAME_COUNT
            invariant
                held@.len() == i,
                forall|j: int| 0 <= j < i ==> held@[j] == NONE,
        {
            held.push_back(NONE);
        }
        let controller = Controller {
            options,
            provider,
            instruction,
            levels,
            history: VecDeque::new(),
            held,
            trace: Vec::new(),
            after_sequence: 0,
            step: 0,
            phase: Phase::Start,
        };
        assert(controller@ =~= ControllerModel::initial(
            options,
            provider,
            instruction@,
            levels@,
        ));
        controller
    }

    /// The number of steps that were completed.
    pub fn completed_steps(&self) -> (step: u32)
        ensures
            step == self@.step,
    {
        self.step
    }

    /// What the controller waits for.
    pub fn phase(&self) -> (phase: Phase)
        ensures
            phase == self@.phase,
    {
        self.phase
    }

    /// Decides whether an event is one that the controller waits for.
    pub fn awaits<M>(&self, event: &Event<M>) -> (r: bool)
        ensures
            r == self@.expects(event@),
    {
        match (self.phase, event) {
            (Phase::Start, Event::Started) => true,
            (Phase::EvidenceBefore, Event::EvidenceSaved) => true,
            (Phase::Focus, Event::Focused) => true,
            (Phase::Frames, Event::Frames { frames, latest_sequence, .. }) => can_feed(
                frames,
                self.after_sequence,
                *latest_sequence,
            ),
            (Phase::FramePause, Event::FrameDue) => true,
            (Phase::Outputs { .. }, Event::Outputs(_)) => true,
            (Phase::Probabilities { .. }, Event::Probabilities(values)) => values.len()
                <= ACTION_COUNT,
            (Phase::Input { .. }, Event::InputHandled { .. }) => true,
            (Phase::Settle, Event::Settled) => true,
            (Phase::EvidenceAfter, Event::EvidenceSaved) => true,
            (Phase::Trace, Event::TraceWritten) => true,
            _ => false,
        }
    }

    fn begin_step(&mut self) -> (action: Result<Action, ControllerError>)
        ensures
            (final(self)@, action_outcome(action)) == old(self)@.begin_step(),
    {
        if self.step < self.options.steps {
            self.phase = Phase::Frames;
            Ok(Action::FetchFrames { after_sequence: self.after_sequence, new_step: true })
        } else {
            self.phase = Phase::EvidenceAfter;
            Ok(Action::SaveEvidence { evidence: Evidence::After, activate_first: false })
        }
    }

    fn fail(&mut self, error: ControllerError) -> (action: Result<Action, ControllerError>)
        ensures
            (final(self)@, action_outcome(action)) == old(self)@.fail(error),
    {
        self.phase = Phase::Done;
        Err(error)
    }

    fn take_frames<M>(
        &mut self,
        frames: Vec<RecentFrame<M>>,
        latest_sequence: u64,
        deadline_passed: bool,
    ) -> (action: Result<Action, ControllerError>)
        requires
            old(self).wf(),
            feedable(delivered(frames@), old(self)@.after_sequence, latest_sequence),
        ensures
            (final(self)@, action_outcome(action)) == old(self)@.take_frames(
                delivered(frames@),
                latest_sequence,
                deadline_passed,
            ),
            complete(final(self)@.window),
    {
        if frames.len() == 0 {
            if deadline_passed {
                let ms: u32 = self.options.frame_wait_timeout_ms;
                return self.fail(ControllerError::TimedOut { ms });
            }
            self.phase = Phase::FramePause;
            return Ok(Action::AwaitFrame);
        }
        let ghost before = self@;
        let ghost given = delivered(frames@);
        match model_history(&mut self.history, frames, self.after_sequence, latest_sequence) {
            Err(error) => {
                assert(self@ =~= ControllerModel {
                    window: window_step(
                        before.window,
                        given,
                        before.after_sequence,
                        latest_sequence,
                    ).0,
                    ..before
                });
                self.fail(ControllerError::Frames(error))
            },
            Ok((images, first, last)) => {
                self.after_sequence = latest_sequence;
                self.phase = Phase::Outputs { first, last };
                proof {
                    law_model_sees_a_full_window(
                        before.window,
                        given,
                        before.after_sequence,
                        latest_sequence,
                    );
                    let window = window_of(self.history);
                    let seen = rasters(images@);
                    assert(seen == shown(window));
                    assert forall|t: int| 0 <= t < seen.len() implies (
                    #[trigger] seen[t]).data.len() / 3 <= MODEL_PIXELS by {
                        let missing = FRAME_COUNT - window.len();
                        let at = if t < missing { 0 } else { t - missing };
                        assert(seen[t] == window[at].1);
                    }
                    assert forall|t: int| 0 <= t < self.held@.len() implies t * ACTION_COUNT
                        + #[trigger] self.held@[t] < FRAME_COUNT * ACTION_COUNT by {
                        assert(self.held@[t] == none_held()[t]);
                    }
                }
                let inputs = model_inputs(&images, &self.levels, &self.held, &self.instruction);
                Ok(Action::RunModel { inputs })
            },
        }
    }

    fn choose_action(&mut self, first: u64, last: u64, values: Vec<u32>) -> (action: Result<
        Action,
        ControllerError,
    >)
        requires
            values@.len() <= ACTION_COUNT,
        ensures
            (final(self)@, action_outcome(action)) == old(self)@.choose_action(first, last, values@),
            final(self)@.phase matches Phase::Input { action, .. } ==> action < ACTION_COUNT,
    {
        match top1(values.as_slice()) {
            None => self.fail(ControllerError::NoLogits),
            Some(prediction) => {
                proof {
                    law_top_is_unique(values@, prediction.index as int, top_place(values@));
                }
                let press = self.options.key_press(prediction.index);
                self.phase = Phase::Input { first, last, action: prediction.index };
                Ok(Action::Perform { prediction, press })
            },
        }
    }

    fn complete_step(&mut self, first: u64, last: u64, action: usize, percent: String) -> (next:
        Result<Action, ControllerError>)
        requires
            old(self)@.inv(),
            old(self)@.in_step(),
            action < ACTION_COUNT,
        ensures
            (final(self)@, action_outcome(next)) == old(self)@.complete_step(
                first,
                last,
                action,
                percent@,
            ),
    {
        let ghost before = self@;
        let line: String = decision_line(
            self.options.task.as_str(),
            self.options.target.as_str(),
            provider_name(self.provider),
            first,
            last,
            action,
            percent.as_str(),
        );
        self.trace.push(line);
        assert(lines(self.trace@) =~= before.trace.push(line@));
        self.held.pop_front();
        self.held.push_back(NONE);
        assert(self.held@ =~= before.held.drop_first().push(NONE));
        self.step = self.step + 1;
        self.phase = Phase::Settle;
        Ok(Action::Settle { ms: self.options.settle_ms })
    }

    fn end_trace(&mut self) -> (action: Result<Action, ControllerError>)
        ensures
            (final(self)@, action_outcome(action)) == old(self)@.end_trace(),
    {
        let ghost before = self@;
        let line: String = "Final AUV evidence observation".to_owned();
        self.trace.push(line);
        assert(lines(self.trace@) =~= before.trace.push(line@));
        self.phase = Phase::Trace;
        Ok(Action::WriteTrace { content: subtitles(&self.trace) })
    }

    /// Takes in an event that the controller waits for, and says what is to happen
    /// next. An error ends the run.
    pub fn step<M>(&mut self, event: Event<M>) -> (action: Result<Action, ControllerError>)
        requires
            old(self).wf(),
            old(self)@.expects(event@),
        ensures
            final(self).wf(),
            (final(self)@, action_outcome(action)) == old(self)@.step(event@),
    {
        proof {
            law_run_keeps_its_invariant(self@, event@);
        }
        match (self.phase, event) {
            (Phase::Start, Event::Started) => {
                self.phase = Phase::EvidenceBefore;
                Ok(
                    Action::SaveEvidence {
                        evidence: Evidence::Before,
                        activate_first: self.options.foreground_input,
                    },
                )
            },
            (Phase::EvidenceBefore, Event::EvidenceSaved) => {
                if self.options.foreground_input {
                    self.phase = Phase::Focus;
                    Ok(Action::FocusWindow)
                } else {
                    self.begin_step()
                }
            },
            (Phase::Focus, Event::Focused) => self.begin_step(),
            (Phase::Frames, Event::Frames { frames, latest_sequence, deadline_passed }) => {
                self.take_frames(frames, latest_sequence, deadline_passed)
            },
            (Phase::FramePause, Event::FrameDue) => {
                self.phase = Phase::Frames;
                Ok(Action::FetchFrames { after_sequence: self.after_sequence, new_step: false })
            },
            (Phase::Outputs { first, last }, Event::Outputs(outputs)) => {
                match model_logits(&outputs) {
                    Err(error) => self.fail(ControllerError::Output(error)),
                    Ok(logits) => {
                        self.phase = Phase::Probabilities { first, last };
                        Ok(Action::Normalize { logits })
                    },
                }
            },
            (Phase::Probabilities { first, last }, Event::Probabilities(values)) => {
                self.choose_action(first, last, values)
            },
            (Phase::Input { first, last, action }, Event::InputHandled { percent }) => {
                self.complete_step(first, last, action, percent)
            },
            (Phase::Settle, Event::Settled) => self.begin_step(),
            (Phase::EvidenceAfter, Event::EvidenceSaved) => self.end_trace(),
            _ => {
                self.phase = Phase::Done;
                Ok(Action::Finish)
            },
        }
    }
}

proof fn lemma_fed_len<M>(window: Seq<(u64, Raster)>, recent: Seq<RecentFrameModel<M>>)
    requires
        window.len() <= FRAME_COUNT,
    ensures
        fed(window, recent).0.len() <= FRAME_COUNT,
    decreases recent.len(),
{
    if recent.len() > 0 {
        lemma_fed_len(window, recent.drop_last());
    }
}

proof fn lemma_top_exists(values: Seq<u32>)
    requires
        0 < values.len(),
    ensures
        is_top(values, top_place(values)),
{
    law_top_exists(values);
}

/// What holds of a run at its start holds of it after every event.
pub proof fn law_run_keeps_its_invariant<M>(run: ControllerModel, event: EventModel<M>)
    requires
        run.inv(),
        run.expects(event),
    ensures
        run.step(event).0.inv(),
{
    match (run.phase, event) {
        (Phase::Frames, EventModel::Frames { frames, latest_sequence, .. }) => {
            lemma_fed_len(run.window, frames);
            lemma_fed_len(Seq::empty(), frames);
        },
        (Phase::Probabilities { .. }, EventModel::Probabilities(values)) => {
            if values.len() > 0 {
                lemma_top_exists(values);
            }
        },
        (Phase::Input { .. }, EventModel::InputHandled { .. }) => {
            assert(run.held.drop_first().push(NONE) =~= none_held());
        },
        _ => {},
    }
}

/// With foreground input a key is pressed only after the window was confirmed to be
/// in front, and goes to whatever is there; otherwise it goes to the window itself.
pub proof fn law_foreground_keys_are_confirmed<M>(run: ControllerModel, event: EventModel<M>)
    requires
        run.expects(event),
        run.step(event).1 is Ok,
        run.step(event).1->Ok_0 is Perform,
    ensures
        run.step(event).1->Ok_0->press matches Some(press) ==> {
            &&& press.confirm_frontmost == run.options.foreground_input
            &&& (press.target == InputTarget::Foreground) == run.options.foreground_input
            &&& (press.policy == InputPolicy::BackgroundPreferred) == run.options.background_input
        },
{
}

/// With foreground input no step begins before the window was focused.
pub proof fn law_focus_comes_first<M>(run: ControllerModel, event: EventModel<M>)
    requires
        run.expects(event),
        run.options.foreground_input,
        run.phase == Phase::Start || run.phase == Phase::EvidenceBefore,
    ensures
        ({
            let (next, action) = run.step(event);
            ||| next.phase == Phase::EvidenceBefore && action == Ok::<ActionModel, ControllerError>(
                ActionModel::SaveEvidence { evidence: Evidence::Before, activate_first: true },
            )
            ||| next.phase == Phase::Focus && action == Ok::<ActionModel, ControllerError>(
                ActionModel::FocusWindow,
            )
        }),
{
}

/// Increasing numbers end no lower than they begin.
proof fn lemma_increasing_ends(numbers: Seq<u64>)
    requires
        increasing(numbers),
        0 < numbers.len(),
    ensures
        numbers.first() <= numbers.last(),
    decreases numbers.len(),
{
    if numbers.len() > 1 {
        let shorter = numbers.drop_last();
        assert forall|i: int, j: int| 0 <= i && i + 1 == j && j < shorter.len() implies (
        #[trigger] shorter[i]) < (#[trigger] shorter[j]) by {
            assert(numbers[i] < numbers[j]);
        }
        lemma_increasing_ends(shorter);
        let end = numbers.len() - 1;
        assert(numbers[end - 1] < numbers[end]);
    }
}

/// What was acknowledged is never taken back, and the model is only ever run on
/// news: what is acknowledged then is the number of the last frame it is shown, and
/// higher than before.
pub proof fn law_model_runs_on_news<M>(run: ControllerModel, event: EventModel<M>)
    requires
        run.inv(),
        run.expects(event),
    ensures
        ({
            let (next, action) = run.step(event);
            if action is Ok && action->Ok_0 is RunModel {
                &&& run.after_sequence < next.after_sequence
                &&& next.phase matches Phase::Outputs { last, .. } && last == next.after_sequence
            } else {
                next.after_sequence == run.after_sequence
            }
        }),
{
    if let EventModel::Frames { frames, latest_sequence, .. } = event {
        let (next, action) = run.step(event);
        if action is Ok && action->Ok_0 is RunModel {
            lemma_increasing_ends(sequences(frames));
            law_model_sees_a_full_window(
                run.window,
                frames,
                run.after_sequence,
                latest_sequence,
            );
        }
    }
}

/// No run hands the model an input whose elements do not fit its shape.
pub proof fn law_model_runs_on_shaped_inputs<M>(run: ControllerModel, event: EventModel<M>)
    requires
        run.inv(),
        run.expects(event),
    ensures
        run.step(event).1 matches Ok(ActionModel::RunModel { inputs }) ==> first_shape_error(
            inputs,
        ) is None,
{
    if let EventModel::Frames { frames, latest_sequence, .. } = event {
        let seen = window_step(run.window, frames, run.after_sequence, latest_sequence).1;
        if let Ok((images, _, _)) = seen {
            law_model_inputs_are_well_shaped(images, run.levels, run.held, run.instruction);
        }
    }
}

/// The trace is written, and the run ends, only after every step that was asked for;
/// the trace then has one line for each step and a last one.
pub proof fn law_run_ends_after_its_steps<M>(run: ControllerModel, event: EventModel<M>)
    requires
        run.inv(),
        run.expects(event),
        run.step(event).1 is Ok,
        run.step(event).1->Ok_0 is WriteTrace || run.step(event).1->Ok_0 is Finish,
    ensures
        run.step(event).0.step == run.options.steps,
        run.step(event).0.trace.len() == run.options.steps + 1,
        run.step(event).1->Ok_0 matches ActionModel::WriteTrace { content } ==> content
            == subtitle_file(run.step(event).0.trace),
{
}

/// The state of a run after some events, first to last.
pub open spec fn after_events<M>(run: ControllerModel, events: Seq<EventModel<M>>) -> ControllerModel
    decreases events.len(),
{
    if events.len() == 0 {
        run
    } else {
        after_events(run, events.drop_last()).step(events.last()).0
    }
}

/// Whether each of some events is waited for when it comes.
pub open spec fn all_expected<M>(run: ControllerModel, events: Seq<EventModel<M>>) -> bool
    decreases events.len(),
{
    events.len() == 0 || (all_expected(run, events.drop_last()) && after_events(
        run,
        events.drop_last(),
    ).expects(events.last()))
}

/// How many actions a run performed in answer to some events.
pub open spec fn performed<M>(run: ControllerModel, events: Seq<EventModel<M>>) -> nat
    decreases events.len(),
{
    if events.len() == 0 {
        0
    } else {
        let action = after_events(run, events.drop_last()).step(events.last()).1;
        performed(run, events.drop_last()) + if action is Ok && action->Ok_0 is Perform {
            1nat
        } else {
            0
        }
    }
}

/// In whatever way a run goes, it performs one action in each step: as many as it has
/// completed, and one more while the action of the current step is being performed.
pub proof fn law_one_action_for_each_step<M>(
    options: ControllerOptions,
    provider: ExecutionProvider,
    instruction: Seq<u32>,
    levels: Seq<u32>,
    events: Seq<EventModel<M>>,
)
    requires
        instruction.len() == TASK_COUNT + TARGET_COUNT,
        levels.len() == 3 * BYTE_LEVELS,
        all_expected(
            ControllerModel::initial(options, provider, instruction, levels),
            events,
        ),
    ensures
        ({
            let run = ControllerModel::initial(options, provider, instruction, levels);
            let reached = after_events(run, events);
            &&& reached.inv()
            &&& performed(run, events) == reached.step + if reached.phase is Input {
                1int
            } else {
                0
            }
        }),
    decreases events.len(),
{
    let run = ControllerModel::initial(options, provider, instruction, levels);
    if events.len() > 0 {
        let before = events.drop_last();
        law_one_action_for_each_step(options, provider, instruction, levels, before);
        let reached = after_events(run, before);
        law_run_keeps_its_invariant(reached, events.last());
    }
}

/// A run without the permission to send input is refused for that; one without the
/// permission to capture, else, for that.
pub proof fn law_both_permissions_are_needed(accessibility: bool, screen_capture: bool)
    ensures
        permission_check(accessibility, screen_capture) is Ok <==> accessibility && screen_capture,
        !accessibility ==> permission_check(accessibility, screen_capture)->Err_0
            == "the auv-game-dome-keeper process needs macOS Accessibility permission before it can send input"@,
        accessibility && !screen_capture ==> permission_check(
            accessibility,
            screen_capture,
        )->Err_0
            == "the auv-game-dome-keeper process needs macOS Screen Recording permission before it can capture frames"@,
{
}

/// The buffer of a window is used under the reference that was answered, which must be
/// there; and a window is confirmed to be in front only if it is the same one.
pub proof fn law_answers_must_be_the_expected_ones(
    response: OpenFrameBufferResponse,
    same: bool,
    expected_id: Seq<char>,
    actual_id: Seq<char>,
)
    ensures
        opened_check(response) is Ok <==> response.frame_buffer is Some,
        response.frame_buffer is Some ==> opened_check(response)->Ok_0 == response.frame_buffer->0,
        response.frame_buffer is None ==> opened_check(response)->Err_0
            == "OpenFrameBuffer response omitted frame_buffer"@,
        frontmost_check(same, expected_id, actual_id) is Ok <==> same,
        !same ==> frontmost_check(same, expected_id, actual_id)->Err_0
            == "frontmost window changed: expected "@ + expected_id + ", got "@ + actual_id,
{
}

/// Errors say what went wrong in these words.
pub proof fn law_controller_errors_say_what_is_wrong(ms: u32, frame: FrameError, output: OutputError)
    ensures
        controller_error_text(ControllerError::TimedOut { ms })
            == "GetRecentFrames timed out after "@ + decimal(ms as nat)
            + " ms without a newer frame"@,
        controller_error_text(ControllerError::Frames(frame)) == frame_error_text(frame),
        controller_error_text(ControllerError::Output(output)) == output_error_text(output),
        controller_error_text(ControllerError::NoLogits) == "model returned no logits"@,
{
}

/// Whatever the options, an action is performed by a key press exactly if it takes a
/// key, and with that key. With foreground input the press goes to whatever is in front,
/// once that was confirmed, and without to the window; the background is preferred
/// exactly if background input was asked for.
pub proof fn law_actions_are_pressed_with_their_key(options: ControllerOptions, action: usize)
    requires
        action < 9,
    ensures
        press_for(options, action) is None <==> action == 8,
        press_for(options, action) matches Some(press) ==> {
            &&& Some(press.key) == key_text(action)
            &&& press.target == if options.foreground_input {
                InputTarget::Foreground
            } else {
                InputTarget::Window
            }
            &&& press.policy == if options.background_input {
                InputPolicy::BackgroundPreferred
            } else {
                InputPolicy::ForegroundPreferred
            }
            &&& press.confirm_frontmost == options.foreground_input
        },
{
}

/// Key presses, events and actions are known by what they hold: nothing is lost when
/// they are taken by their views.
pub proof fn law_presses_and_actions_keep_what_they_hold(
    press: KeyPress,
    optional: Option<KeyPress>,
    result: Result<Action, ControllerError>,
)
    ensures
        press@.key == press.key@,
        press@.target == press.target,
        press@.policy == press.policy,
        press@.confirm_frontmost == press.confirm_frontmost,
        press_view(optional) is Some <==> optional is Some,
        optional is Some ==> press_view(optional)->0 == optional->0@,
        action_outcome(result) is Ok <==> result is Ok,
        result is Err ==> action_outcome(result)->Err_0 == result->Err_0,
        result is Ok ==> action_outcome(result)->Ok_0 == match result->Ok_0 {
            Action::SaveEvidence { evidence, activate_first } => ActionModel::SaveEvidence {
                evidence,
                activate_first,
            },
            Action::FocusWindow => ActionModel::FocusWindow,
            Action::FetchFrames { after_sequence, new_step } => ActionModel::FetchFrames {
                after_sequence,
                new_step,
            },
            Action::AwaitFrame => ActionModel::AwaitFrame,
            Action::RunModel { inputs } => ActionModel::RunModel { inputs: tensor_models(inputs@) },
            Action::Normalize { logits } => ActionModel::Normalize { logits: logits@ },
            Action::Perform { prediction, press } => ActionModel::Perform {
                prediction,
                press: press_view(press),
            },
            Action::Settle { ms } => ActionModel::Settle { ms },
            Action::WriteTrace { content } => ActionModel::WriteTrace { content: content@ },
            Action::Finish => ActionModel::Finish,
        },
{
}

/// What happened outside is known by the view of the event.
pub proof fn law_events_keep_what_they_hold<M>(event: Event<M>)
    ensures
        event@ == match event {
            Event::Started => EventModel::<M>::Started,
            Event::EvidenceSaved => EventModel::EvidenceSaved,
            Event::Focused => EventModel::Focused,
            Event::Frames { frames, latest_sequence, deadline_passed } => EventModel::Frames {
                frames: delivered(frames@),
                latest_sequence,
                deadline_passed,
            },
            Event::FrameDue => EventModel::FrameDue,
            Event::Outputs(outputs) => EventModel::Outputs(tensor_models(outputs@)),
            Event::Probabilities(values) => EventModel::Probabilities(values@),
            Event::InputHandled { percent } => EventModel::InputHandled { percent: percent@ },
            Event::Settled => EventModel::Settled,
            Event::TraceWritten => EventModel::TraceWritten,
        },
{
}

/// A run begins with no frame seen, no action held, no step done and no line traced, for
/// what it was asked.
pub proof fn law_runs_begin_with_nothing_done(
    options: ControllerOptions,
    provider: ExecutionProvider,
    instruction: Seq<u32>,
    levels: Seq<u32>,
)
    ensures
        ({
            let run = ControllerModel::initial(options, provider, instruction, levels);
            &&& run.options == options
            &&& run.provider == provider
            &&& run.instruction == instruction
            &&& run.levels == levels
            &&& run.window.len() == 0
            &&& run.held.len() == 10
            &&& forall|t: int| 0 <= t < 10 ==> #[trigger] run.held[t] == 8
            &&& run.trace.len() == 0
            &&& run.after_sequence == 0
            &&& run.step == 0
            &&& run.phase == Phase::Start
        }),
{
}

/// Throughout a run the model sees at most ten frames, nothing is held, and no more
/// steps are done than were asked for.
pub proof fn law_runs_stay_within_bounds(run: ControllerModel)
    requires
        run.inv(),
    ensures
        run.window.len() <= 10,
        run.held.len() == 10,
        forall|t: int| 0 <= t < 10 ==> #[trigger] run.held[t] == 8,
        run.levels.len() == 3 * 256,
        run.instruction.len() == 11,
        run.step <= run.options.steps,
        run.phase matches Phase::Input { action, .. } ==> action < 9 && run.step
            < run.options.steps,
{
}

/// In each phase a run waits for one kind of event: the one that comes of what it asked
/// for last.
pub proof fn law_runs_wait_for_what_they_asked_for<M>(run: ControllerModel, event: EventModel<M>)
    ensures
        run.expects(event) ==> match run.phase {
            Phase::Start => event is Started,
            Phase::EvidenceBefore => event is EvidenceSaved,
            Phase::Focus => event is Focused,
            Phase::Frames => event is Frames,
            Phase::FramePause => event is FrameDue,
            Phase::Outputs { .. } => event is Outputs,
            Phase::Probabilities { .. } => event is Probabilities,
            Phase::Input { .. } => event is InputHandled,
            Phase::Settle => event is Settled,
            Phase::EvidenceAfter => event is EvidenceSaved,
            Phase::Trace => event is TraceWritten,
            Phase::Done => false,
        },
        run.phase == Phase::Start && event is Started ==> run.expects(event),
        run.phase == Phase::EvidenceBefore && event is EvidenceSaved ==> run.expects(event),
        run.phase == Phase::Focus && event is Focused ==> run.expects(event),
        run.phase == Phase::FramePause && event is FrameDue ==> run.expects(event),
        run.phase is Outputs && event is Outputs ==> run.expects(event),
        run.phase is Input && event is InputHandled ==> run.expects(event),
        run.phase == Phase::Settle && event is Settled ==> run.expects(event),
        run.phase == Phase::EvidenceAfter && event is EvidenceSaved ==> run.expects(event),
        run.phase == Phase::Trace && event is TraceWritten ==> run.expects(event),
        run.phase is Probabilities ==> (event matches EventModel::Probabilities(values)
            && values.len() <= 9 ==> run.expects(event)),
        run.phase == Phase::Frames ==> (event matches EventModel::Frames {
            frames,
            latest_sequence,
            ..
        } && feedable(frames, run.after_sequence, latest_sequence) ==> run.expects(event)),
{
}

/// What a run was asked for never changes; its window changes by frames alone, its trace
/// by a completed step and at the end, the count of its steps by a completed step, and
/// what it acknowledged by a run of the model.
pub proof fn law_runs_change_by_their_events<M>(run: ControllerModel, event: EventModel<M>)
    requires
        run.inv(),
        run.expects(event),
    ensures
        ({
            let next = run.step(event).0;
            &&& next.options == run.options
            &&& next.provider == run.provider
            &&& next.instruction == run.instruction
            &&& next.levels == run.levels
            &&& next.held == run.held
            &&& event !is Frames ==> next.window == run.window && next.after_sequence
                == run.after_sequence
            &&& event !is InputHandled ==> next.step == run.step
            &&& event !is InputHandled && run.phase != Phase::EvidenceAfter ==> next.trace
                == run.trace
        }),
{
    law_run_keeps_its_invariant(run, event);
    assert(run.step(event).0.held =~= run.held);
}

/// A run goes through its phases in order. It saves evidence, with foreground input
/// activating the app first and focusing the window afterwards; for each step it asks
/// for the frames after what it acknowledged, and again when the next frame is due;
/// after the last step it saves evidence once more, ends its trace, writes it, and
/// finishes.
pub proof fn law_runs_go_through_their_phases<M>(run: ControllerModel, event: EventModel<M>)
    requires
        run.expects(event),
    ensures
        ({
            let (next, action) = run.step(event);
            let begins = run.phase == Phase::Focus || run.phase == Phase::Settle || (run.phase
                == Phase::EvidenceBefore && !run.options.foreground_input);
            &&& run.phase == Phase::Start ==> next.phase == Phase::EvidenceBefore && action == Ok::<
                ActionModel,
                ControllerError,
            >(
                ActionModel::SaveEvidence {
                    evidence: Evidence::Before,
                    activate_first: run.options.foreground_input,
                },
            )
            &&& run.phase == Phase::EvidenceBefore && run.options.foreground_input ==> next.phase
                == Phase::Focus && action == Ok::<ActionModel, ControllerError>(
                ActionModel::FocusWindow,
            )
            &&& begins && run.step < run.options.steps ==> next.phase == Phase::Frames && action
                == Ok::<ActionModel, ControllerError>(
                ActionModel::FetchFrames { after_sequence: run.after_sequence, new_step: true },
            )
            &&& begins && run.step >= run.options.steps ==> next.phase == Phase::EvidenceAfter
                && action == Ok::<ActionModel, ControllerError>(
                ActionModel::SaveEvidence { evidence: Evidence::After, activate_first: false },
            )
            &&& run.phase == Phase::FramePause ==> next.phase == Phase::Frames && action == Ok::<
                ActionModel,
                ControllerError,
            >(ActionModel::FetchFrames { after_sequence: run.after_sequence, new_step: false })
            &&& run.phase == Phase::EvidenceAfter ==> next.phase == Phase::Trace && next.trace
                == run.trace.push("Final AUV evidence observation"@) && action == Ok::<
                ActionModel,
                ControllerError,
            >(ActionModel::WriteTrace { content: subtitle_file(next.trace) })
            &&& run.phase == Phase::Trace ==> next.phase == Phase::Done && action == Ok::<
                ActionModel,
                ControllerError,
            >(ActionModel::Finish)
        }),
{
}

/// Where no frame came, a run asks again once one is due, or fails if it is too late.
/// Where frames came, they are taken into its window, and the model is run on what the
/// window shows, with nothing held, and with the instruction; what the frames are
/// refused for fails the run.
pub proof fn law_frames_lead_to_the_model<M>(
    run: ControllerModel,
    frames: Seq<RecentFrameModel<M>>,
    latest_sequence: u64,
    deadline_passed: bool,
)
    requires
        run.phase == Phase::Frames,
    ensures
        ({
            let event = EventModel::Frames { frames, latest_sequence, deadline_passed };
            let (next, action) = run.step(event);
            let (window, seen) = window_step(
                run.window,
                frames,
                run.after_sequence,
                latest_sequence,
            );
            &&& frames.len() == 0 && !deadline_passed ==> next.phase == Phase::FramePause
                && next.window == run.window && action == Ok::<ActionModel, ControllerError>(
                ActionModel::AwaitFrame,
            )
            &&& frames.len() == 0 && deadline_passed ==> next.phase == Phase::Done && action
                == Err::<ActionModel, ControllerError>(
                ControllerError::TimedOut { ms: run.options.frame_wait_timeout_ms },
            )
            &&& frames.len() == 0 ==> next.window == run.window && next.after_sequence
                == run.after_sequence
            &&& 0 < frames.len() ==> next.window == window
            &&& 0 < frames.len() && seen is Err ==> next.phase == Phase::Done && action == Err::<
                ActionModel,
                ControllerError,
            >(ControllerError::Frames(seen->Err_0))
            &&& 0 < frames.len() && seen is Ok ==> {
                let (images, first, last) = seen->Ok_0;
                &&& next.phase == Phase::Outputs { first, last }
                &&& next.after_sequence == latest_sequence
                &&& action == Ok::<ActionModel, ControllerError>(
                    ActionModel::RunModel {
                        inputs: input_models(images, run.levels, run.held, run.instruction),
                    },
                )
            }
        }),
{
}

/// The nine logits of the model, as they are, are turned into probabilities; the frames
/// that they are about stay in mind. Other outputs fail the run.
pub proof fn law_logits_lead_to_probabilities<M>(
    run: ControllerModel,
    outputs: Seq<TensorModel>,
    first: u64,
    last: u64,
)
    requires
        run.phase == (Phase::Outputs { first, last }),
    ensures
        ({
            let (next, action) = run.step(EventModel::<M>::Outputs(outputs));
            let usable = 0 < outputs.len() && outputs[0].data.len() == 9;
            &&& usable ==> next.phase == (Phase::Probabilities { first, last }) && action == Ok::<
                ActionModel,
                ControllerError,
            >(ActionModel::Normalize { logits: outputs[0].data })
            &&& outputs.len() == 0 ==> action == Err::<ActionModel, ControllerError>(
                ControllerError::Output(OutputError::NoOutput),
            )
            &&& 0 < outputs.len() && !usable ==> action == Err::<ActionModel, ControllerError>(
                ControllerError::Output(
                    OutputError::WrongLength { len: outputs[0].data.len() as usize },
                ),
            )
            &&& !usable ==> next.phase == Phase::Done
        }),
{
}

/// The action performed is the one of the greatest probability, with that probability,
/// and it is pressed exactly if it takes a key, and with that key, in every input mode.
/// Only where there are no probabilities is nothing performed, and the run fails.
pub proof fn law_most_likely_action_is_performed<M>(
    run: ControllerModel,
    values: Seq<u32>,
    first: u64,
    last: u64,
)
    requires
        run.phase == (Phase::Probabilities { first, last }),
        values.len() <= 9,
    ensures
        ({
            let (next, action) = run.step(EventModel::<M>::Probabilities(values));
            &&& values.len() == 0 ==> next.phase == Phase::Done && action == Err::<
                ActionModel,
                ControllerError,
            >(ControllerError::NoLogits)
            &&& 0 < values.len() ==> action is Ok && action->Ok_0 is Perform
            &&& 0 < values.len() ==> {
                let prediction = action->Ok_0->prediction;
                let press = action->Ok_0->press;
                &&& is_top(values, prediction.index as int)
                &&& prediction.confidence == values[prediction.index as int]
                &&& press is None <==> prediction.index == 8
                &&& press is Some ==> Some(press->0.key) == key_text(prediction.index)
                &&& press is Some ==> press->0.target == if run.options.foreground_input {
                    InputTarget::Foreground
                } else {
                    InputTarget::Window
                }
                &&& press is Some ==> press->0.policy == if run.options.background_input {
                    InputPolicy::BackgroundPreferred
                } else {
                    InputPolicy::ForegroundPreferred
                }
                &&& press is Some ==> press->0.confirm_frontmost == run.options.foreground_input
                &&& next.phase == (Phase::Input { first, last, action: prediction.index })
            }
        }),
{
    if 0 < values.len() {
        lemma_top_exists(values);
    }
}

/// A performed action completes its step: one line of the trace says what was asked for,
/// what ran the model, which frames it saw and what was done, one more step is counted,
/// nothing is held, and the game settles for as long as was asked.
pub proof fn law_performed_actions_complete_their_step<M>(
    run: ControllerModel,
    percent: Seq<char>,
    first: u64,
    last: u64,
    action: usize,
)
    requires
        run.inv(),
        run.phase == (Phase::Input { first, last, action }),
    ensures
        ({
            let (next, settle) = run.step(EventModel::<M>::InputHandled { percent });
            &&& settle == Ok::<ActionModel, ControllerError>(
                ActionModel::Settle { ms: run.options.settle_ms },
            )
            &&& next.phase == Phase::Settle
            &&& next.step == run.step + 1
            &&& next.trace == run.trace.push(
                decision_text(
                    run.options.task@,
                    run.options.target@,
                    onnx_name(run.provider),
                    first,
                    last,
                    action,
                    percent,
                ),
            )
            &&& next.held.len() == 10
            &&& forall|t: int| 0 <= t < 10 ==> #[trigger] next.held[t] == 8
        }),
{
    assert(run.held.drop_first().push(NONE) =~= none_held());
}

} // verus!
