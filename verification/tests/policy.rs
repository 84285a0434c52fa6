use auv_frame_loop::images::{RgbFrame, MODEL_FRAME_BYTES, MODEL_HEIGHT, MODEL_PIXELS, MODEL_WIDTH};
use auv_frame_loop::model_frames::FRAME_COUNT;
use auv_frame_loop::policy::{
    action_key, action_name, instruction, model_inputs, model_logits, InstructionError, OutputError, NONE, ONE,
};
use auv_frame_loop::tensors::{shaped_inputs, F32Tensor};
use std::collections::VecDeque;

#[test]
fn validates_instruction_pairs() {
    assert!(instruction("pickup", "iron").is_ok());
    assert!(instruction("attack", "monster").is_ok());
    assert!(instruction("enter", "mine").is_ok());
    assert!(instruction("attack", "iron").is_err());
}

#[test]
fn maps_model_actions_to_game_keys() {
    assert_eq!(action_key(0), Some("arrowup"));
    assert_eq!(action_key(5), Some("space"));
    assert_eq!(action_key(NONE), None);
}

#[test]
fn the_other_actions_have_their_keys_and_names() {
    let keys: Vec<_> = (0..10).map(action_key).collect();
    assert_eq!(
        keys,
        [
            Some("arrowup"),
            Some("arrowdown"),
            Some("arrowleft"),
            Some("arrowright"),
            Some("space"),
            Some("space"),
            Some("q"),
            Some("space"),
            None,
            None
        ]
    );
    let names: Vec<_> = (0..9).map(action_name).collect();
    assert_eq!(
        names,
        [
            "ui_up",
            "ui_down",
            "ui_left",
            "ui_right",
            "ui_select",
            "keeper1_pickup",
            "keeper1_drop",
            "dome1_fire",
            "none"
        ]
    );
}

#[test]
fn instructions_are_two_hot() {
    assert_eq!(ONE, 1.0f32.to_bits());
    assert_eq!(instruction("enter", "mine"), Ok(vec![0, 0, 0, 0, ONE, 0, 0, 0, 0, 0, ONE]));
    assert_eq!(instruction("drop", "water"), Ok(vec![0, ONE, 0, 0, 0, 0, 0, ONE, 0, 0, 0]));
    assert_eq!(instruction("activate", "gadget_chamber"), Ok(vec![0, 0, ONE, 0, 0, 0, 0, 0, ONE, 0, 0]));
}

#[test]
fn supported_pairs_are_encoded_differently() {
    let tasks = ["pickup", "drop", "activate", "attack", "enter"];
    let targets = ["iron", "cobalt", "water", "gadget_chamber", "monster", "mine"];
    let mut seen = Vec::new();
    for task in tasks {
        for target in targets {
            if let Ok(vector) = instruction(task, target) {
                assert!(!seen.contains(&vector));
                seen.push(vector);
            }
        }
    }
    assert_eq!(seen.len(), 9);
}

#[test]
fn instruction_errors_name_what_is_wrong() {
    let error = |task, target| instruction(task, target).unwrap_err();
    assert_eq!(error("fly", "nowhere"), InstructionError::UnknownTask);
    assert_eq!(error("fly", "nowhere").message(), "unknown task");
    assert_eq!(error("attack", "nowhere"), InstructionError::UnknownTarget);
    assert_eq!(error("attack", "nowhere").message(), "unknown target");
    assert_eq!(error("activate", "iron"), InstructionError::UnsupportedPair);
    assert_eq!(error("activate", "iron").message(), "unsupported task/target pair");
}

fn frame(fill: impl Fn(usize) -> u8) -> RgbFrame {
    RgbFrame { width: MODEL_WIDTH, height: MODEL_HEIGHT, data: (0..MODEL_FRAME_BYTES).map(fill).collect() }
}

#[test]
fn model_inputs_lay_frames_out_by_channel() {
    let levels: Vec<u32> = (0..3 * 256).collect();
    let frames = vec![frame(|i| (i % 3) as u8 + 10), frame(|i| (i / 3 % 200) as u8)];
    let mut held = VecDeque::from(vec![NONE; FRAME_COUNT]);
    held[3] = 2;
    let told = instruction("pickup", "cobalt").unwrap();

    let inputs = model_inputs(&frames, &levels, &held, &told);

    let names: Vec<_> = inputs.iter().map(|input| input.name.as_str()).collect();
    assert_eq!(names, ["frames", "held", "instruction"]);
    assert_eq!(inputs[0].shape, [1, 10, 3, 216, 384]);
    assert_eq!(inputs[1].shape, [1, 10, 9]);
    assert_eq!(inputs[2].shape, [1, 11]);
    let data = &inputs[0].data;
    assert_eq!(data.len(), FRAME_COUNT * MODEL_FRAME_BYTES);
    assert!(data[..MODEL_PIXELS].iter().all(|value| *value == 10));
    assert!(data[MODEL_PIXELS..2 * MODEL_PIXELS].iter().all(|value| *value == 256 + 11));
    assert!(data[2 * MODEL_PIXELS..MODEL_FRAME_BYTES].iter().all(|value| *value == 512 + 12));
    assert_eq!(data[MODEL_FRAME_BYTES + 7], 7);
    assert_eq!(data[MODEL_FRAME_BYTES + MODEL_PIXELS + 207], 256 + 7);
    assert!(data[2 * MODEL_FRAME_BYTES..].iter().all(|value| *value == 0));
    for (i, value) in inputs[1].data.iter().enumerate() {
        let action = if i / 9 == 3 { 2 } else { NONE };
        assert_eq!(*value, if i % 9 == action { ONE } else { 0 });
    }
    assert_eq!(inputs[2].data, told);
    assert_eq!(shaped_inputs(inputs).unwrap().len(), 3);
}

fn output(len: usize) -> F32Tensor {
    F32Tensor { name: "logits".to_string(), shape: vec![1, len], data: (0..len as u32).collect() }
}

#[test]
fn logits_are_the_first_output() {
    assert_eq!(model_logits(&vec![output(9), output(2)]), Ok((0..9).collect()));
    assert_eq!(model_logits(&vec![]), Err(OutputError::NoOutput));
    assert_eq!(model_logits(&vec![output(8), output(9)]), Err(OutputError::WrongLength { len: 8 }));
    assert_eq!(OutputError::NoOutput.message(), "model returned no output");
    assert_eq!(OutputError::WrongLength { len: 12 }.message(), "expected nine logits, got 12");
}
