//! The policy model: what it is told, what it can do, and its inputs and outputs.
use std::collections::VecDeque;

use vstd::prelude::*;

use crate::images::{RgbFrame, MODEL_PIXELS};
#[allow(unused_imports)]
use crate::images::{Raster, MODEL_FRAME_BYTES};
use crate::model_frames::FRAME_COUNT;
#[allow(unused_imports)]
use crate::model_frames::rasters;
use crate::tensors::F32Tensor;
#[allow(unused_imports)]
use crate::tensors::{
    element_count, first_shape_error, nonzero_count, shape_error, tensor_models, TensorModel,
};
#[allow(unused_imports)]
use crate::text::decimal;
use crate::text::{push_decimal, same_text};

verus! {

/// The number of actions that the model chooses from.
pub const ACTION_COUNT: usize = 9;

/// The number of tasks that the model can be told.
pub const TASK_COUNT: usize = 5;

/// The number of targets that the model can be told.
pub const TARGET_COUNT: usize = 6;

/// The action of doing nothing.
pub const NONE: usize = 8;

/// The bit pattern of the float one. That of zero is `0`.
pub const ONE: u32 = 0x3f80_0000;

/// The number of values that a byte of a frame can take.
pub const BYTE_LEVELS: usize = 256;

/// The name of an action.
pub open spec fn action_text(action: usize) -> Seq<char> {
    match action {
        0 => "ui_up"@,
        1 => "ui_down"@,
        2 => "ui_left"@,
        3 => "ui_right"@,
        4 => "ui_select"@,
        5 => "keeper1_pickup"@,
        6 => "keeper1_drop"@,
        7 => "dome1_fire"@,
        _ => "none"@,
    }
}

/// The name of an action.
pub fn action_name(action: usize) -> (name: &'static str)
    requires
        action < ACTION_COUNT,
    ensures
        name@ == action_text(action),
{
    match action {
        0 => "ui_up",
        1 => "ui_down",
        2 => "ui_left",
        3 => "ui_right",
        4 => "ui_select",
        5 => "keeper1_pickup",
        6 => "keeper1_drop",
        7 => "dome1_fire",
        _ => "none",
    }
}

/// The key that performs an action in the game, if it takes one.
pub open spec fn key_text(action: usize) -> Option<Seq<char>> {
    match action {
        0 => Some("arrowup"@),
        1 => Some("arrowdown"@),
        2 => Some("arrowleft"@),
        3 => Some("arrowright"@),
        4 => Some("space"@),
        5 => Some("space"@),
        6 => Some("q"@),
        7 => Some("space"@),
        _ => None,
    }
}

/// A key with its name taken by its view.
pub open spec fn key_view(key: Option<&'static str>) -> Option<Seq<char>> {
    match key {
        Some(name) => Some(name@),
        None => None,
    }
}

/// The key that performs an action in the game, if it takes one.
pub fn action_key(action: usize) -> (key: Option<&'static str>)
    ensures
        key_view(key) == key_text(action),
{
    match action {
        0 => Some("arrowup"),
        1 => Some("arrowdown"),
        2 => Some("arrowleft"),
        3 => Some("arrowright"),
        4 => Some("space"),
        5 => Some("space"),
        6 => Some("q"),
        7 => Some("space"),
        _ => None,
    }
}

/// Every action but doing nothing takes a key.
pub proof fn law_only_none_takes_no_key(action: usize)
    requires
        action < ACTION_COUNT,
    ensures
        key_text(action) is None <==> action == NONE,
{
}

/// Why the model cannot be told something.
#[derive(Clone, Copy, Debug, PartialEq, Eq, Structural)]
pub enum InstructionError {
    UnknownTask,
    UnknownTarget,
    UnsupportedPair,
}

/// What an `InstructionError` says.
pub open spec fn instruction_error_text(error: InstructionError) -> Seq<char> {
    match error {
        InstructionError::UnknownTask => "unknown task"@,
        InstructionError::UnknownTarget => "unknown target"@,
        InstructionError::UnsupportedPair => "unsupported task/target pair"@,
    }
}

impl InstructionError {
    /// What the error says.
    pub fn message(&self) -> (text: String)
        ensures
            text@ == instruction_error_text(*self),
    {
        match *self {
            InstructionError::UnknownTask => "unknown task".to_owned(),
            InstructionError::UnknownTarget => "unknown target".to_owned(),
            InstructionError::UnsupportedPair => "unsupported task/target pair".to_owned(),
        }
    }
}

/// The place of a task among those that the model knows.
pub open spec fn task_place(task: Seq<char>) -> Option<usize> {
    if task == "pickup"@ {
        Some(0)
    } else if task == "drop"@ {
        Some(1)
    } else if task == "activate"@ {
        Some(2)
    } else if task == "attack"@ {
        Some(3)
    } else if task == "enter"@ {
        Some(4)
    } else {
        None
    }
}

/// The place of a target among those that the model knows.
pub open spec fn target_place(target: Seq<char>) -> Option<usize> {
    if target == "iron"@ {
        Some(0)
    } else if target == "cobalt"@ {
        Some(1)
    } else if target == "water"@ {
        Some(2)
    } else if target == "gadget_chamber"@ {
        Some(3)
    } else if target == "monster"@ {
        Some(4)
    } else if target == "mine"@ {
        Some(5)
    } else {
        None
    }
}

/// Whether a task makes sense for a target: resources are picked up and dropped,
/// the chamber is activated, monsters are attacked, the mine is entered.
pub open spec fn supported(task: Seq<char>, target: Seq<char>) -> bool {
    ||| (task == "pickup"@ || task == "drop"@) && (target == "iron"@ || target == "cobalt"@
        || target == "water"@)
    ||| task == "activate"@ && target == "gadget_chamber"@
    ||| task == "attack"@ && target == "monster"@
    ||| task == "enter"@ && target == "mine"@
}

/// What the model is told for a task and a target: a vector that is one at the
/// place of the task and at the place of the target behind the tasks.
pub open spec fn instruction_vector(task: usize, target: usize) -> Seq<u32> {
    Seq::new(
        (TASK_COUNT + TARGET_COUNT) as nat,
        |i: int|
            if i == task || i == TASK_COUNT + target {
                ONE
            } else {
                0
            },
    )
}

/// What becomes of a task and a target.
pub open spec fn instruction_check(task: Seq<char>, target: Seq<char>) -> Result<
    Seq<u32>,
    InstructionError,
> {
    match (task_place(task), target_place(target)) {
        (None, _) => Err(InstructionError::UnknownTask),
        (_, None) => Err(InstructionError::UnknownTarget),
        (Some(task_at), Some(target_at)) => if supported(task, target) {
            Ok(instruction_vector(task_at, target_at))
        } else {
            Err(InstructionError::UnsupportedPair)
        },
    }
}

fn find_task(task: &str) -> (place: Option<usize>)
    ensures
        place == task_place(task@),
{
    if same_text(task, "pickup") {
        Some(0)
    } else if same_text(task, "drop") {
        Some(1)
    } else if same_text(task, "activate") {
        Some(2)
    } else if same_text(task, "attack") {
        Some(3)
    } else if same_text(task, "enter") {
        Some(4)
    } else {
        None
    }
}

fn find_target(target: &str) -> (place: Option<usize>)
    ensures
        place == target_place(target@),
{
    if same_text(target, "iron") {
        Some(0)
    } else if same_text(target, "cobalt") {
        Some(1)
    } else if same_text(target, "water") {
        Some(2)
    } else if same_text(target, "gadget_chamber") {
        Some(3)
    } else if same_text(target, "monster") {
        Some(4)
    } else if same_text(target, "mine") {
        Some(5)
    } else {
        None
    }
}

proof fn lemma_names_distinct()
    ensures
        "pickup"@ != "drop"@,
        "pickup"@ != "activate"@,
        "pickup"@ != "attack"@,
        "pickup"@ != "enter"@,
        "drop"@ != "activate"@,
        "drop"@ != "attack"@,
        "drop"@ != "enter"@,
        "activate"@ != "attack"@,
        "activate"@ != "enter"@,
        "attack"@ != "enter"@,
        "iron"@ != "cobalt"@,
        "iron"@ != "water"@,
        "iron"@ != "gadget_chamber"@,
        "iron"@ != "monster"@,
        "iron"@ != "mine"@,
        "cobalt"@ != "water"@,
        "cobalt"@ != "gadget_chamber"@,
        "cobalt"@ != "monster"@,
        "cobalt"@ != "mine"@,
        "water"@ != "gadget_chamber"@,
        "water"@ != "monster"@,
        "water"@ != "mine"@,
        "gadget_chamber"@ != "monster"@,
        "gadget_chamber"@ != "mine"@,
        "monster"@ != "mine"@,
{
    reveal_strlit("pickup");
    reveal_strlit("drop");
    reveal_strlit("activate");
    reveal_strlit("attack");
    reveal_strlit("enter");
    reveal_strlit("iron");
    reveal_strlit("cobalt");
    reveal_strlit("water");
    reveal_strlit("gadget_chamber");
    reveal_strlit("monster");
    reveal_strlit("mine");
    assert("pickup"@[0] == 'p' && "drop"@[0] == 'd' && "activate"@[1] == 'c' && "attack"@[1] == 't'
        && "enter"@[0] == 'e' && "activate"@[0] == 'a' && "attack"@[0] == 'a');
    assert("iron"@[0] == 'i' && "cobalt"@[0] == 'c' && "water"@[0] == 'w' && "gadget_chamber"@[0]
        == 'g' && "monster"@[1] == 'o' && "mine"@[1] == 'i' && "monster"@[0] == 'm' && "mine"@[0]
        == 'm');
}

/// Encodes a task and a target for the model.
pub fn instruction(task: &str, target: &str) -> (encoded: Result<Vec<u32>, InstructionError>)
    ensures
        match (encoded, instruction_check(task@, target@)) {
            (Ok(vector), Ok(expected)) => vector@ == expected,
            (Err(error), Err(expected)) => error == expected,
            _ => false,
        },
{
    let task_at: usize = match find_task(task) {
        None => {
            return Err(InstructionError::UnknownTask);
        },
        Some(place) => place,
    };
    let target_at: usize = match find_target(target) {
        None => {
            return Err(InstructionError::UnknownTarget);
        },
        Some(place) => place,
    };
    proof {
        lemma_names_distinct();
    }
    let valid = (task_at <= 1 && target_at <= 2) || (task_at == 2 && target_at == 3) || (task_at
        == 3 && target_at == 4) || (task_at == 4 && target_at == 5);
    if !valid {
        return Err(InstructionError::UnsupportedPair);
    }
    let mut vector: Vec<u32> = vec![0u32; TASK_COUNT + TARGET_COUNT];
    vector.set(task_at, ONE);
    vector.set(TASK_COUNT + target_at, ONE);
    assert(vector@ =~= instruction_vector(task_at, target_at));
    Ok(vector)
}

/// The model can tell any two instructions apart.
pub proof fn law_instructions_are_distinct(
    task: Seq<char>,
    target: Seq<char>,
    other_task: Seq<char>,
    other_target: Seq<char>,
)
    requires
        instruction_check(task, target) is Ok,
        instruction_check(task, target) == instruction_check(other_task, other_target),
    ensures
        task == other_task,
        target == other_target,
{
    let vector = instruction_check(task, target)->Ok_0;
    let (t, g) = (task_place(task)->0, target_place(target)->0);
    let (ot, og) = (task_place(other_task)->0, target_place(other_target)->0);
    assert(vector == instruction_vector(ot, og));
    assert(instruction_vector(t, g)[t as int] == ONE);
    assert(instruction_vector(ot, og)[t as int] == ONE);
    assert(instruction_vector(t, g)[TASK_COUNT + g] == ONE);
    assert(instruction_vector(ot, og)[TASK_COUNT + g] == ONE);
}

/// One element of the frame tensor, by its time, its color channel and its pixel.
/// The levels give, for each channel, the normalized value of each byte. Where
/// there is no such pixel the element is zero.
pub open spec fn frame_element(
    frames: Seq<Raster>,
    levels: Seq<u32>,
    time: int,
    channel: int,
    pixel: int,
) -> u32 {
    if 0 <= time < frames.len() && pixel < frames[time].data.len() / 3 {
        levels[channel * BYTE_LEVELS + frames[time].data[3 * pixel + channel]]
    } else {
        0
    }
}

/// The elements of the frame tensor: time by time, channel by channel, and pixel by
/// pixel within a channel.
pub open spec fn frame_elements(frames: Seq<Raster>, levels: Seq<u32>) -> Seq<u32> {
    Seq::new(
        (FRAME_COUNT * MODEL_FRAME_BYTES) as nat,
        |i: int|
            frame_element(
                frames,
                levels,
                i / (MODEL_FRAME_BYTES as int),
                i / (MODEL_PIXELS as int) % 3,
                i % (MODEL_PIXELS as int),
            ),
    )
}

/// Whether frames fit the model: not more than it sees at a time, and none with
/// more pixels than a model frame.
pub open spec fn fits_model(frames: Seq<Raster>) -> bool {
    &&& frames.len() <= FRAME_COUNT
    &&& forall|t: int|
        0 <= t < frames.len() ==> (#[trigger] frames[t]).data.len() / 3 <= MODEL_PIXELS
}

fn frame_data(frames: &Vec<RgbFrame>, levels: &Vec<u32>) -> (data: Vec<u32>)
    requires
        fits_model(rasters(frames@)),
        levels@.len() == 3 * BYTE_LEVELS,
    ensures
        data@ == frame_elements(rasters(frames@), levels@),
{
    let ghost seen = rasters(frames@);
    let ghost expected = frame_elements(seen, levels@);
    let mut data: Vec<u32> = Vec::new();
    for time in 0..FRAME_COUNT
        invariant
            seen == rasters(frames@),
            fits_model(seen),
            levels@.len() == 3 * BYTE_LEVELS,
            expected == frame_elements(seen, levels@),
            data@.len() == time * MODEL_FRAME_BYTES,
            forall|i: int| 0 <= i < data@.len() ==> #[trigger] data@[i] == expected[i],
    {
        let pixels: usize = if time < frames.len() {
            frames[time].data.len() / 3
        } else {
            0
        };
        for channel in 0..3usize
            invariant
                time < FRAME_COUNT,
                seen == rasters(frames@),
                fits_model(seen),
                levels@.len() == 3 * BYTE_LEVELS,
                expected == frame_elements(seen, levels@),
                pixels == (if time < frames@.len() {
                    (frames@[time as int].data@.len() / 3) as int
                } else {
                    0
                }),
                data@.len() == time * MODEL_FRAME_BYTES + channel * MODEL_PIXELS,
                forall|i: int| 0 <= i < data@.len() ==> #[trigger] data@[i] == expected[i],
        {
            for pixel in 0..MODEL_PIXELS
                invariant
                    time < FRAME_COUNT,
                    channel < 3,
                    seen == rasters(frames@),
                    fits_model(seen),
                    levels@.len() == 3 * BYTE_LEVELS,
                    expected == frame_elements(seen, levels@),
                    pixels == (if time < frames@.len() {
                        (frames@[time as int].data@.len() / 3) as int
                    } else {
                        0
                    }),
                    data@.len() == time * MODEL_FRAME_BYTES + channel * MODEL_PIXELS + pixel,
                    forall|i: int| 0 <= i < data@.len() ==> #[trigger] data@[i] == expected[i],
            {
                proof {
                    let at = data@.len() as int;
                    assert(at / (MODEL_FRAME_BYTES as int) == time);
                    assert(at / (MODEL_PIXELS as int) == 3 * time + channel);
                    assert(at % (MODEL_PIXELS as int) == pixel);
                    assert(expected[at] == frame_element(
                        seen,
                        levels@,
                        time as int,
                        channel as int,
                        pixel as int,
                    ));
                }
                if pixel < pixels {
                    assert(seen[time as int] == frames@[time as int]@);
                    let byte: u8 = frames[time].data[3 * pixel + channel];
                    data.push(levels[channel * BYTE_LEVELS + byte as usize]);
                } else {
                    data.push(0);
                }
            }
        }
    }
    assert(data@ =~= expected);
    data
}

/// Whether some slot of the held actions marks an element of the held tensor.
pub open spec fn marked(held: Seq<usize>, element: int) -> bool {
    exists|t: int| 0 <= t < held.len() && t * ACTION_COUNT + #[trigger] held[t] == element
}

/// The elements of the held tensor: in the row of each time, one at the place of
/// the action held then.
pub open spec fn held_elements(held: Seq<usize>) -> Seq<u32> {
    Seq::new(
        (FRAME_COUNT * ACTION_COUNT) as nat,
        |i: int|
            if marked(held, i) {
                ONE
            } else {
                0
            },
    )
}

/// Whether every held action marks an element of the held tensor.
pub open spec fn holdable(held: Seq<usize>) -> bool {
    forall|t: int|
        0 <= t < held.len() ==> t * ACTION_COUNT + #[trigger] held[t] < FRAME_COUNT * ACTION_COUNT
}

fn held_data(held: &VecDeque<usize>) -> (data: Vec<u32>)
    requires
        holdable(held@),
    ensures
        data@ == held_elements(held@),
{
    let mut data: Vec<u32> = vec![0u32; FRAME_COUNT * ACTION_COUNT];
    for time in 0..held.len()
        invariant
            holdable(held@),
            data@.len() == FRAME_COUNT * ACTION_COUNT,
            forall|i: int|
                0 <= i < data@.len() ==> #[trigger] data@[i] == (if marked(
                    held@.take(time as int),
                    i,
                ) {
                    ONE
                } else {
                    0
                }),
    {
        let ghost before = data@;
        let ghost shorter = held@.take(time as int);
        let ghost longer = held@.take(time + 1);
        assert(time * ACTION_COUNT + held@[time as int] < FRAME_COUNT * ACTION_COUNT);
        let at: usize = time * ACTION_COUNT + held[time];
        data.set(at, ONE);
        assert forall|i: int| 0 <= i < data@.len() implies #[trigger] data@[i] == (if marked(
            longer,
            i,
        ) {
            ONE
        } else {
            0
        }) by {
            if i == at {
                assert(longer[time as int] == held@[time as int]);
            } else {
                if marked(longer, i) {
                    let t = choose|t: int|
                        0 <= t < longer.len() && t * ACTION_COUNT + #[trigger] longer[t] == i;
                    assert(t < time);
                    assert(shorter[t] == longer[t]);
                }
                if marked(shorter, i) {
                    let t = choose|t: int|
                        0 <= t < shorter.len() && t * ACTION_COUNT + #[trigger] shorter[t] == i;
                    assert(longer[t] == shorter[t]);
                }
            }
        }
    }
    assert(held@.take(held@.len() as int) =~= held@);
    assert(data@ =~= held_elements(held@));
    data
}

/// The three inputs of the model.
pub open spec fn input_models(
    frames: Seq<Raster>,
    levels: Seq<u32>,
    held: Seq<usize>,
    instruction: Seq<u32>,
) -> Seq<TensorModel> {
    seq![
        TensorModel {
            name: "frames"@,
            shape: seq![1usize, 10usize, 3usize, 216usize, 384usize],
            data: frame_elements(frames, levels),
        },
        TensorModel {
            name: "held"@,
            shape: seq![1usize, 10usize, 9usize],
            data: held_elements(held),
        },
        TensorModel {
            name: "instruction"@,
            shape: seq![1usize, 11usize],
            data: instruction,
        },
    ]
}

fn copied(values: &Vec<u32>) -> (copy: Vec<u32>)
    ensures
        copy@ == values@,
{
    let copy: Vec<u32> = values.clone();
    assert(copy@ =~= values@);
    copy
}

/// Builds the inputs of the model: the frames, normalized by the given levels and
/// laid out channel by channel, the held actions, and the instruction.
pub fn model_inputs(
    frames: &Vec<RgbFrame>,
    levels: &Vec<u32>,
    held: &VecDeque<usize>,
    instruction: &Vec<u32>,
) -> (inputs: Vec<F32Tensor>)
    requires
        fits_model(rasters(frames@)),
        levels@.len() == 3 * BYTE_LEVELS,
        holdable(held@),
    ensures
        tensor_models(inputs@) == input_models(rasters(frames@), levels@, held@, instruction@),
{
    let frame_tensor = F32Tensor {
        name: "frames".to_owned(),
        shape: vec![1usize, 10usize, 3usize, 216usize, 384usize],
        data: frame_data(frames, levels),
    };
    let held_tensor = F32Tensor {
        name: "held".to_owned(),
        shape: vec![1usize, 10usize, 9usize],
        data: held_data(held),
    };
    let instruction_tensor = F32Tensor {
        name: "instruction".to_owned(),
        shape: vec![1usize, 11usize],
        data: copied(instruction),
    };
    let ghost models = input_models(rasters(frames@), levels@, held@, instruction@);
    assert(frame_tensor@ =~= models[0]);
    assert(held_tensor@ =~= models[1]);
    assert(instruction_tensor@ =~= models[2]);
    let mut inputs: Vec<F32Tensor> = Vec::new();
    inputs.push(frame_tensor);
    inputs.push(held_tensor);
    inputs.push(instruction_tensor);
    assert(tensor_models(inputs@) =~= models);
    inputs
}

proof fn lemma_one_more_axis(shape: Seq<usize>, length: usize)
    requires
        0 < length,
    ensures
        element_count(shape.push(length)) == element_count(shape) * length as nat,
        nonzero_count(shape.push(length)) == nonzero_count(shape) * length as nat,
{
    assert(shape.push(length).drop_last() =~= shape);
    assert(shape.push(length).last() == length);
}

proof fn lemma_input_shapes()
    ensures
        element_count(seq![1usize, 10usize, 3usize, 216usize, 384usize]) == 2_488_320,
        nonzero_count(seq![1usize, 10usize, 3usize, 216usize, 384usize]) == 2_488_320,
        element_count(seq![1usize, 10usize, 9usize]) == 90,
        nonzero_count(seq![1usize, 10usize, 9usize]) == 90,
        element_count(seq![1usize, 11usize]) == 11,
        nonzero_count(seq![1usize, 11usize]) == 11,
{
    let none = Seq::<usize>::empty();
    assert(element_count(none) == 1 && nonzero_count(none) == 1);
    lemma_one_more_axis(none, 1);
    let one = none.push(1);
    lemma_one_more_axis(one, 11);
    assert(one.push(11) =~= seq![1usize, 11usize]);
    lemma_one_more_axis(one, 10);
    let ten = one.push(10);
    lemma_one_more_axis(ten, 9);
    assert(ten.push(9) =~= seq![1usize, 10usize, 9usize]);
    lemma_one_more_axis(ten, 3);
    let thirty = ten.push(3);
    lemma_one_more_axis(thirty, 216);
    let rows = thirty.push(216);
    assert(element_count(rows) == 6480 && nonzero_count(rows) == 6480);
    lemma_one_more_axis(rows, 384);
    assert(rows.push(384) =~= seq![1usize, 10usize, 3usize, 216usize, 384usize]);
}

/// Whatever the model is shown, its inputs have the shapes that they claim.
pub proof fn law_model_inputs_are_well_shaped(
    frames: Seq<Raster>,
    levels: Seq<u32>,
    held: Seq<usize>,
    instruction: Seq<u32>,
)
    requires
        instruction.len() == TASK_COUNT + TARGET_COUNT,
    ensures
        first_shape_error(input_models(frames, levels, held, instruction)) is None,
{
    lemma_input_shapes();
    let models = input_models(frames, levels, held, instruction);
    let two = models.drop_last();
    let one = two.drop_last();
    assert(one.drop_last() =~= Seq::empty());
    assert(one.last() == models[0] && two.last() == models[1] && models.last() == models[2]);
    assert(first_shape_error(one.drop_last()) is None);
    assert(shape_error(models[0].shape, models[0].data.len()) is None);
    assert(first_shape_error(one) is None);
    assert(first_shape_error(two) is None);
}

/// Why the outputs of the model cannot be used.
#[derive(Clone, Copy, Debug, PartialEq, Eq, Structural)]
pub enum OutputError {
    /// There is none.
    NoOutput,
    /// The first one does not hold one value for each action.
    WrongLength { len: usize },
}

/// What an `OutputError` says.
pub open spec fn output_error_text(error: OutputError) -> Seq<char> {
    match error {
        OutputError::NoOutput => "model returned no output"@,
        OutputError::WrongLength { len } => "expected nine logits, got "@ + decimal(len as nat),
    }
}

impl OutputError {
    /// What the error says.
    pub fn message(&self) -> (text: String)
        ensures
            text@ == output_error_text(*self),
    {
        match *self {
            OutputError::NoOutput => "model returned no output".to_owned(),
            OutputError::WrongLength { len } => {
                let mut text: String = "expected nine logits, got ".to_owned();
                push_decimal(&mut text, len as u128);
                text
            },
        }
    }
}

/// What becomes of the outputs of the model: the first holds the logits, one for
/// each action.
pub open spec fn logits_check(outputs: Seq<TensorModel>) -> Result<Seq<u32>, OutputError> {
    if outputs.len() == 0 {
        Err(OutputError::NoOutput)
    } else if outputs[0].data.len() != ACTION_COUNT {
        Err(OutputError::WrongLength { len: outputs[0].data.len() as usize })
    } else {
        Ok(outputs[0].data)
    }
}

/// Takes the logits from the outputs of the model.
pub fn model_logits(outputs: &Vec<F32Tensor>) -> (logits: Result<Vec<u32>, OutputError>)
    ensures
        match (logits, logits_check(tensor_models(outputs@))) {
            (Ok(values), Ok(expected)) => values@ == expected,
            (Err(error), Err(expected)) => error == expected,
            _ => false,
        },
{
    if outputs.len() == 0 {
        return Err(OutputError::NoOutput);
    }
    assert(tensor_models(outputs@)[0] == outputs@[0]@);
    if outputs[0].data.len() != ACTION_COUNT {
        return Err(OutputError::WrongLength { len: outputs[0].data.len() });
    }
    Ok(copied(&outputs[0].data))
}

/// The model chooses from nine actions, by these names, of which these keys perform all
/// but the last.
pub proof fn law_actions_have_their_names_and_keys(action: usize)
    requires
        action < 9,
    ensures
        ({
            let names = seq![
                "ui_up"@,
                "ui_down"@,
                "ui_left"@,
                "ui_right"@,
                "ui_select"@,
                "keeper1_pickup"@,
                "keeper1_drop"@,
                "dome1_fire"@,
                "none"@,
            ];
            let keys = seq![
                "arrowup"@,
                "arrowdown"@,
                "arrowleft"@,
                "arrowright"@,
                "space"@,
                "space"@,
                "q"@,
                "space"@,
            ];
            &&& ACTION_COUNT == 9
            &&& action_text(action) == names[action as int]
            &&& action < 8 ==> key_text(action) == Some(keys[action as int])
            &&& action == 8 ==> key_text(action) is None
        }),
{
}

/// A key, if there is one, is known by its name.
pub proof fn law_keys_keep_their_names(key: Option<&'static str>)
    ensures
        key_view(key) is Some <==> key is Some,
        key is Some ==> key_view(key)->0 == key->0@,
{
}

/// The task and the target of a supported pair are told by their places among all tasks
/// and all targets: the instruction is one at the two places and zero elsewhere.
pub proof fn law_instructions_tell_task_and_target(i: int, j: int)
    requires
        (0 <= i <= 1 && 0 <= j <= 2) || (i == 2 && j == 3) || (i == 3 && j == 4) || (i == 4 && j
            == 5),
    ensures
        ({
            let tasks = seq!["pickup"@, "drop"@, "activate"@, "attack"@, "enter"@];
            let targets = seq![
                "iron"@,
                "cobalt"@,
                "water"@,
                "gadget_chamber"@,
                "monster"@,
                "mine"@,
            ];
            let told = instruction_check(tasks[i], targets[j]);
            &&& told is Ok
            &&& told->Ok_0.len() == 11
            &&& forall|k: int|
                0 <= k < 11 ==> #[trigger] told->Ok_0[k] == if k == i || k == 5 + j {
                    0x3f80_0000u32
                } else {
                    0u32
                }
        }),
{
    lemma_names_distinct();
}

/// The model is told nothing of a task or a target that it does not know, nor of a pair
/// that makes no sense: only resources are picked up and dropped, and the chamber, the
/// monsters and the mine have one task each. The task counts first.
pub proof fn law_instructions_are_refused_for_a_reason(task: Seq<char>, target: Seq<char>)
    ensures
        ({
            let told = instruction_check(task, target);
            let carried = task == "pickup"@ || task == "drop"@;
            let known_task = carried || task == "activate"@ || task == "attack"@ || task
                == "enter"@;
            let resource = target == "iron"@ || target == "cobalt"@ || target == "water"@;
            let known_target = resource || target == "gadget_chamber"@ || target == "monster"@
                || target == "mine"@;
            let sensible = (carried && resource) || (task == "activate"@ && target
                == "gadget_chamber"@) || (task == "attack"@ && target == "monster"@) || (task
                == "enter"@ && target == "mine"@);
            &&& told is Ok <==> sensible
            &&& !known_task ==> told == Err::<Seq<u32>, InstructionError>(
                InstructionError::UnknownTask,
            )
            &&& known_task && !known_target ==> told == Err::<Seq<u32>, InstructionError>(
                InstructionError::UnknownTarget,
            )
            &&& known_task && known_target && !sensible ==> told == Err::<
                Seq<u32>,
                InstructionError,
            >(InstructionError::UnsupportedPair)
        }),
{
}

/// Errors say what is wrong in these words.
pub proof fn law_policy_errors_say_what_is_wrong(len: usize)
    ensures
        instruction_error_text(InstructionError::UnknownTask) == "unknown task"@,
        instruction_error_text(InstructionError::UnknownTarget) == "unknown target"@,
        instruction_error_text(InstructionError::UnsupportedPair) == "unsupported task/target pair"@,
        output_error_text(OutputError::NoOutput) == "model returned no output"@,
        output_error_text(OutputError::WrongLength { len }) == "expected nine logits, got "@
            + decimal(len as nat),
{
}

/// The model has three inputs, under these names and in these shapes; the last one is
/// the instruction as it is.
pub proof fn law_model_has_three_inputs(
    frames: Seq<Raster>,
    levels: Seq<u32>,
    held: Seq<usize>,
    instruction: Seq<u32>,
)
    ensures
        ({
            let inputs = input_models(frames, levels, held, instruction);
            &&& inputs.len() == 3
            &&& inputs[0].name == "frames"@
            &&& inputs[0].shape == seq![1usize, 10usize, 3usize, 216usize, 384usize]
            &&& inputs[0].data.len() == 10 * 3 * 216 * 384
            &&& inputs[1].name == "held"@
            &&& inputs[1].shape == seq![1usize, 10usize, 9usize]
            &&& inputs[1].data.len() == 10 * 9
            &&& inputs[2].name == "instruction"@
            &&& inputs[2].shape == seq![1usize, 11usize]
            &&& inputs[2].data == instruction
        }),
{
}

/// The frame tensor shows every pixel where it is: at each time, in each channel, in
/// each row and column stands the level of the byte that the frame of that time has for
/// that channel at that place.
pub proof fn law_frame_tensor_shows_every_pixel(
    frames: Seq<Raster>,
    levels: Seq<u32>,
    held: Seq<usize>,
    instruction: Seq<u32>,
    time: int,
    channel: int,
    row: int,
    column: int,
)
    requires
        frames.len() <= 10,
        0 <= time < frames.len(),
        frames[time].data.len() == 3 * 216 * 384,
        0 <= channel < 3,
        0 <= row < 216,
        0 <= column < 384,
    ensures
        input_models(frames, levels, held, instruction)[0].data[((time * 3 + channel) * 216 + row)
            * 384 + column] == levels[channel * 256 + frames[time].data[3 * (row * 384 + column)
            + channel]],
{
    let pixel = row * 384 + column;
    let at = (time * 3 + channel) * 82944 + pixel;
    assert(at == ((time * 3 + channel) * 216 + row) * 384 + column);
    assert(at / 248832 == time);
    assert(at / 82944 == time * 3 + channel);
    assert(at % 82944 == pixel);
}

/// Where there is no frame, or none of its pixels, the frame tensor is zero.
pub proof fn law_frame_tensor_is_zero_elsewhere(
    frames: Seq<Raster>,
    levels: Seq<u32>,
    held: Seq<usize>,
    instruction: Seq<u32>,
    time: int,
    channel: int,
    pixel: int,
)
    requires
        0 <= time < 10,
        0 <= channel < 3,
        0 <= pixel < 216 * 384,
    ensures
        time >= frames.len() || pixel >= frames[time].data.len() / 3 ==> input_models(
            frames,
            levels,
            held,
            instruction,
        )[0].data[(time * 3 + channel) * 82944 + pixel] == 0,
        time < frames.len() && pixel < frames[time].data.len() / 3 ==> input_models(
            frames,
            levels,
            held,
            instruction,
        )[0].data[(time * 3 + channel) * 82944 + pixel] == levels[channel * 256
            + frames[time].data[3 * pixel + channel]],
{
    let at = (time * 3 + channel) * 82944 + pixel;
    assert(at / 248832 == time);
    assert(at / 82944 == time * 3 + channel);
    assert(at % 82944 == pixel);
}

/// Nothing of a frame is lost on the way to the model: if the levels tell bytes apart,
/// frames that give the same tensor have the same bytes.
pub proof fn law_frame_tensor_tells_frames_apart(
    left: Seq<Raster>,
    right: Seq<Raster>,
    levels: Seq<u32>,
    held: Seq<usize>,
    instruction: Seq<u32>,
)
    requires
        left.len() == right.len() <= 10,
        forall|t: int| 0 <= t < left.len() ==> (#[trigger] left[t]).data.len() == 248832,
        forall|t: int| 0 <= t < right.len() ==> (#[trigger] right[t]).data.len() == 248832,
        forall|c: int, a: u8, b: u8|
            0 <= c < 3 && #[trigger] levels[c * 256 + a] == #[trigger] levels[c * 256 + b] ==> a
                == b,
        input_models(left, levels, held, instruction)[0].data == input_models(
            right,
            levels,
            held,
            instruction,
        )[0].data,
    ensures
        forall|t: int|
            0 <= t < left.len() ==> (#[trigger] left[t]).data == right[t].data,
{
    assert forall|t: int| 0 <= t < left.len() implies (#[trigger] left[t]).data
        == right[t].data by {
        let (a, b) = (left[t].data, right[t].data);
        assert(right[t].data.len() == 248832);
        assert forall|i: int| 0 <= i < a.len() implies a[i] == b[i] by {
            let (pixel, channel) = (i / 3, i % 3);
            let (row, column) = (pixel / 384, pixel % 384);
            law_frame_tensor_shows_every_pixel(
                left,
                levels,
                held,
                instruction,
                t,
                channel,
                row,
                column,
            );
            law_frame_tensor_shows_every_pixel(
                right,
                levels,
                held,
                instruction,
                t,
                channel,
                row,
                column,
            );
            assert(3 * (row * 384 + column) + channel == i);
            assert(levels[channel * 256 + a[i]] == levels[channel * 256 + b[i]]);
        }
        assert(a =~= b);
    }
}

/// At each time the held tensor is one at the action held then and zero at the others.
pub proof fn law_held_actions_are_one_hot(
    frames: Seq<Raster>,
    levels: Seq<u32>,
    held: Seq<usize>,
    instruction: Seq<u32>,
    time: int,
    action: int,
)
    requires
        held.len() == 10,
        forall|t: int| 0 <= t < 10 ==> #[trigger] held[t] < 9,
        0 <= time < 10,
        0 <= action < 9,
    ensures
        input_models(frames, levels, held, instruction)[1].data[time * 9 + action] == if held[time]
            == action {
            0x3f80_0000u32
        } else {
            0u32
        },
{
    let at = time * 9 + action;
    if held[time] == action {
        assert(marked(held, at));
    } else if marked(held, at) {
        let t = choose|t: int| 0 <= t < held.len() && t * ACTION_COUNT + #[trigger] held[t] == at;
        assert(t == time);
    }
}

/// The logits are the elements of the first output, as they are, if there are nine.
pub proof fn law_logits_are_the_first_output(outputs: Seq<TensorModel>)
    ensures
        logits_check(outputs) is Ok <==> 0 < outputs.len() && outputs[0].data.len() == 9,
        logits_check(outputs) is Ok ==> logits_check(outputs)->Ok_0 == outputs[0].data,
        outputs.len() == 0 ==> logits_check(outputs)->Err_0 == OutputError::NoOutput,
        0 < outputs.len() && outputs[0].data.len() != 9 ==> logits_check(outputs)->Err_0 == (
        OutputError::WrongLength { len: outputs[0].data.len() as usize }),
{
}

/// An element of the held tensor is one exactly if some time holds the action that it
/// stands for, whatever is held; ten times of known actions always fit.
pub proof fn law_held_tensor_marks_what_is_held(held: Seq<usize>, element: int)
    requires
        0 <= element < 90,
    ensures
        held_elements(held).len() == 90,
        held_elements(held)[element] == if exists|t: int|
            0 <= t < held.len() && t * 9 + #[trigger] held[t] == element {
            0x3f80_0000u32
        } else {
            0u32
        },
        held.len() <= 10 && (forall|t: int| 0 <= t < held.len() ==> #[trigger] held[t] < 9)
            ==> holdable(held),
{
    if marked(held, element) {
        let t = choose|t: int|
            0 <= t < held.len() && t * ACTION_COUNT + #[trigger] held[t] == element;
        assert(t * 9 + held[t] == element);
    }
    if exists|t: int| 0 <= t < held.len() && t * 9 + #[trigger] held[t] == element {
        let t = choose|t: int| 0 <= t < held.len() && t * 9 + #[trigger] held[t] == element;
        assert(t * ACTION_COUNT + held[t] == element);
    }
}

/// Up to ten frames of up to 384 by 216 pixels fit the model, and no others.
pub proof fn law_what_fits_the_model(frames: Seq<Raster>)
    ensures
        fits_model(frames) <==> frames.len() <= 10 && forall|t: int|
            0 <= t < frames.len() ==> (#[trigger] frames[t]).data.len() / 3 <= 384 * 216,
{
}

} // verus!
