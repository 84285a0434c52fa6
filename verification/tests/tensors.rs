use auv_frame_loop::inference::InferenceError;
use auv_frame_loop::tensors::{
    floats_equal, rank_of, read_outputs, shaped_inputs, top1, F32Tensor, SessionOutput, TopPrediction,
};

fn bits(values: &[f32]) -> Vec<u32> {
    values.iter().map(|value| value.to_bits()).collect()
}

#[test]
fn top1_returns_index_and_confidence() {
    assert_eq!(
        top1(&bits(&[0.1, 0.8, 0.3])),
        Some(TopPrediction {
            index: 1,
            confidence: 0.8f32.to_bits()
        })
    );
    assert_eq!(top1(&[]), None);
}

#[test]
fn top1_takes_the_last_of_equal_values() {
    assert_eq!(top1(&bits(&[0.5, 0.5, 0.2])).unwrap().index, 1);
    assert_eq!(top1(&bits(&[-0.0, 0.0, -0.0])).unwrap().index, 1);
    assert_eq!(top1(&bits(&[-3.0, -2.0, -5.0])).unwrap().index, 1);
    assert_eq!(top1(&bits(&[1.0, f32::NAN, f32::INFINITY])).unwrap().index, 1);
}

#[test]
fn rank_orders_floats_as_the_standard_library_does() {
    let values = [
        -f32::NAN,
        f32::NEG_INFINITY,
        -1.0e30,
        -2.0,
        -1.0,
        -f32::MIN_POSITIVE,
        -1.0e-42,
        -0.0,
        0.0,
        1.0e-42,
        f32::MIN_POSITIVE,
        0.5,
        1.0,
        f32::INFINITY,
        f32::NAN,
    ];
    for left in values {
        for right in values {
            assert_eq!(rank_of(left.to_bits()).cmp(&rank_of(right.to_bits())), left.total_cmp(&right));
        }
    }
}

fn tensor(shape: &[usize], len: u32) -> F32Tensor {
    F32Tensor { name: "x".to_string(), shape: shape.to_vec(), data: (0..len).collect() }
}

fn refusal(inputs: Vec<F32Tensor>) -> String {
    match shaped_inputs(inputs) {
        Err(InferenceError::Backend { message }) => message,
        other => panic!("unexpected {other:?}"),
    }
}

#[test]
fn well_shaped_inputs_are_kept_as_they_are() {
    let inputs = || vec![tensor(&[2, 3], 6), tensor(&[], 1), tensor(&[4, 0], 0)];
    assert_eq!(shaped_inputs(inputs()), Ok(inputs()));
}

#[test]
fn badly_shaped_inputs_are_refused_in_the_words_of_the_array_library() {
    assert_eq!(refusal(vec![tensor(&[2, 3], 5)]), "ShapeError/OutOfBounds: out of bounds indexing");
    assert_eq!(refusal(vec![tensor(&[2, 3], 7)]), "ShapeError/IncompatibleShape: incompatible shapes");
    assert_eq!(refusal(vec![tensor(&[usize::MAX, 2], 7)]), "ShapeError/Overflow: arithmetic overflow");
    assert_eq!(refusal(vec![tensor(&[usize::MAX, 0], 0)]), "ShapeError/Overflow: arithmetic overflow");
    assert_eq!(refusal(vec![tensor(&[0], 1)]), "ShapeError/IncompatibleShape: incompatible shapes");
}

#[test]
fn the_first_badly_shaped_input_is_the_one_reported() {
    let inputs = vec![tensor(&[2], 2), tensor(&[3], 2), tensor(&[1], 2)];
    assert_eq!(refusal(inputs), "ShapeError/OutOfBounds: out of bounds indexing");
}

fn output(name: &str, value: Option<Result<(Vec<i64>, Vec<u32>), String>>) -> SessionOutput {
    SessionOutput { name: name.to_string(), value }
}

#[test]
fn outputs_are_read_in_order() {
    let read = read_outputs(vec![
        output("a", Some(Ok((vec![1, 2], vec![7, 8])))),
        output("b", Some(Ok((vec![], vec![9])))),
    ]);
    assert_eq!(
        read,
        Ok(vec![
            F32Tensor { name: "a".to_string(), shape: vec![1, 2], data: vec![7, 8] },
            F32Tensor { name: "b".to_string(), shape: vec![], data: vec![9] },
        ])
    );
}

#[test]
fn the_first_unreadable_output_ends_the_reading() {
    let missing = read_outputs(vec![output("a", None), output("b", Some(Err("bad".to_string())))]);
    assert_eq!(missing, Err(InferenceError::Backend { message: "missing ORT output value for a".to_string() }));
    let bad = read_outputs(vec![output("b", Some(Err("bad".to_string()))), output("a", None)]);
    assert_eq!(bad, Err(InferenceError::Backend { message: "bad".to_string() }));
}

#[test]
fn tensors_and_predictions_compare_as_floats_do() {
    let values = [f32::NAN, -f32::NAN, f32::INFINITY, f32::NEG_INFINITY, 0.0, -0.0, 1.0e-42, 1.0, -1.0];
    for left in values {
        for right in values {
            assert_eq!(floats_equal(left.to_bits(), right.to_bits()), left == right);
            let prediction = |value: f32| TopPrediction { index: 1, confidence: value.to_bits() };
            assert_eq!(prediction(left) == prediction(right), left == right);
            let single = |value: f32| F32Tensor { name: "x".to_string(), shape: vec![1], data: bits(&[value]) };
            assert_eq!(single(left) == single(right), left == right);
        }
    }
    assert_ne!(tensor(&[2, 3], 6), tensor(&[3, 2], 6));
    assert_ne!(tensor(&[2], 2), tensor(&[2], 1));
    assert_ne!(tensor(&[2], 2), F32Tensor { name: "y".to_string(), ..tensor(&[2], 2) });
    let one = TopPrediction { index: 1, confidence: 0 };
    assert_ne!(one, TopPrediction { index: 2, confidence: 0 });
}
