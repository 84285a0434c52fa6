//! Tensors of 32-bit floats, held as bit patterns, on their way into and out of a
//! session.
use vstd::prelude::*;

use crate::inference::InferenceError;
#[allow(unused_imports)]
use crate::inference::InferenceErrorModel;
use crate::text::{push_str, same_text};

verus! {

/// The bit pattern of a float without its sign.
pub open spec fn magnitude(bits: u32) -> int {
    if bits < 0x8000_0000 {
        bits as int
    } else {
        bits - 0x8000_0000
    }
}

/// Whether a bit pattern is not a number: its magnitude is above that of infinity.
pub open spec fn not_a_number(bits: u32) -> bool {
    magnitude(bits) > 0x7f80_0000
}

/// Whether two floats, given by their bit patterns, are equal. What is not a number
/// equals nothing, and the two zeros are equal.
pub open spec fn same_float(left: u32, right: u32) -> bool {
    &&& !not_a_number(left)
    &&& !not_a_number(right)
    &&& left == right || (magnitude(left) == 0 && magnitude(right) == 0)
}

/// Decides `same_float`.
pub fn floats_equal(left: u32, right: u32) -> (r: bool)
    ensures
        r == same_float(left, right),
{
    let l: u32 = if left < 0x8000_0000 {
        left
    } else {
        left - 0x8000_0000
    };
    let r: u32 = if right < 0x8000_0000 {
        right
    } else {
        right - 0x8000_0000
    };
    l <= 0x7f80_0000 && r <= 0x7f80_0000 && (left == right || (l == 0 && r == 0))
}

/// Whether two runs of floats are equal, one by one.
pub open spec fn same_floats(left: Seq<u32>, right: Seq<u32>) -> bool {
    &&& left.len() == right.len()
    &&& forall|i: int| 0 <= i < left.len() ==> same_float(#[trigger] left[i], right[i])
}

fn all_floats_equal(left: &Vec<u32>, right: &Vec<u32>) -> (r: bool)
    ensures
        r == same_floats(left@, right@),
{
    if left.len() != right.len() {
        return false;
    }
    for i in 0..left.len()
        invariant
            left@.len() == right@.len(),
            forall|j: int| 0 <= j < i ==> same_float(#[trigger] left@[j], right@[j]),
    {
        if !floats_equal(left[i], right[i]) {
            assert(!same_float(left@[i as int], right@[i as int]));
            return false;
        }
    }
    true
}

fn same_shape(left: &Vec<usize>, right: &Vec<usize>) -> (r: bool)
    ensures
        r == (left@ == right@),
{
    if left.len() != right.len() {
        return false;
    }
    for i in 0..left.len()
        invariant
            left@.len() == right@.len(),
            forall|j: int| 0 <= j < i ==> left@[j] == right@[j],
    {
        if left[i] != right[i] {
            return false;
        }
    }
    assert(left@ =~= right@);
    true
}

/// A named tensor. Its elements are the bit patterns of 32-bit floats. Two tensors are
/// equal if their names, their shapes and, as floats, their elements are.
#[derive(Clone, Debug)]
pub struct F32Tensor {
    pub name: String,
    pub shape: Vec<usize>,
    pub data: Vec<u32>,
}

impl PartialEq for F32Tensor {
    fn eq(&self, other: &Self) -> (r: bool) {
        same_text(self.name.as_str(), other.name.as_str()) && same_shape(&self.shape, &other.shape)
            && all_floats_equal(&self.data, &other.data)
    }
}

impl vstd::std_specs::cmp::PartialEqSpecImpl for F32Tensor {
    open spec fn obeys_eq_spec() -> bool {
        true
    }

    open spec fn eq_spec(&self, other: &Self) -> bool {
        self.name@ == other.name@ && self.shape@ == other.shape@ && same_floats(
            self.data@,
            other.data@,
        )
    }
}

/// What an `F32Tensor` holds.
#[verifier::ext_equal]
pub struct TensorModel {
    pub name: Seq<char>,
    pub shape: Seq<usize>,
    pub data: Seq<u32>,
}

impl View for F32Tensor {
    type V = TensorModel;

    open spec fn view(&self) -> TensorModel {
        TensorModel { name: self.name@, shape: self.shape@, data: self.data@ }
    }
}

/// Tensors with their contents taken by their views.
pub open spec fn tensor_models(tensors: Seq<F32Tensor>) -> Seq<TensorModel> {
    tensors.map_values(|tensor: F32Tensor| tensor@)
}

/// The most likely class, and the bit pattern of its probability. Two predictions are
/// equal if their classes and, as floats, their probabilities are.
#[derive(Clone, Copy, Debug)]
pub struct TopPrediction {
    pub index: usize,
    pub confidence: u32,
}

impl PartialEq for TopPrediction {
    fn eq(&self, other: &Self) -> (r: bool) {
        self.index == other.index && floats_equal(self.confidence, other.confidence)
    }
}

impl vstd::std_specs::cmp::PartialEqSpecImpl for TopPrediction {
    open spec fn obeys_eq_spec() -> bool {
        true
    }

    open spec fn eq_spec(&self, other: &Self) -> bool {
        self.index == other.index && same_float(self.confidence, other.confidence)
    }
}

/// The place of a float among all 32-bit floats, given its bit pattern. Negative
/// floats come first, those of larger magnitude before those of smaller, then the
/// others in ascending order of magnitude; not-a-number values stand at the ends.
pub open spec fn rank(bits: u32) -> int {
    if bits < 0x8000_0000 {
        bits as int
    } else {
        0x7fff_ffff - bits
    }
}

/// Computes `rank`.
pub fn rank_of(bits: u32) -> (r: i64)
    ensures
        r == rank(bits),
{
    if bits < 0x8000_0000 {
        bits as i64
    } else {
        0x7fff_ffff - bits as i64
    }
}

/// Whether a place holds the greatest value, and the last one if there are several.
pub open spec fn is_top(values: Seq<u32>, index: int) -> bool {
    &&& 0 <= index < values.len()
    &&& forall|j: int| 0 <= j < values.len() ==> rank(#[trigger] values[j]) <= rank(values[index])
    &&& forall|j: int| index < j < values.len() ==> rank(#[trigger] values[j]) < rank(values[index])
}

/// The place of the greatest value, and the value. Of equal ones the last counts.
pub fn top1(values: &[u32]) -> (top: Option<TopPrediction>)
    ensures
        match top {
            None => values@.len() == 0,
            Some(prediction) => is_top(values@, prediction.index as int) && prediction.confidence
                == values@[prediction.index as int],
        },
{
    if values.len() == 0 {
        return None;
    }
    let mut best: usize = 0;
    for i in 1..values.len()
        invariant
            0 < values@.len(),
            best < i <= values@.len(),
            forall|j: int| 0 <= j < i ==> rank(#[trigger] values@[j]) <= rank(values@[best as int]),
            forall|j: int|
                best < j < i ==> rank(#[trigger] values@[j]) < rank(values@[best as int]),
    {
        if rank_of(values[i]) >= rank_of(values[best]) {
            best = i;
        }
    }
    Some(TopPrediction { index: best, confidence: values[best] })
}

/// There is one greatest value to report, at one place.
pub proof fn law_top_is_unique(values: Seq<u32>, left: int, right: int)
    requires
        is_top(values, left),
        is_top(values, right),
    ensures
        left == right,
{
    if left < right {
        assert(rank(values[right]) < rank(values[left]));
    }
    if right < left {
        assert(rank(values[left]) < rank(values[right]));
    }
}

/// The order of floats is total: different bit patterns have different places.
pub proof fn law_rank_is_injective(left: u32, right: u32)
    requires
        rank(left) == rank(right),
    ensures
        left == right,
{
}

/// The product of the axis lengths of a shape.
pub open spec fn element_count(shape: Seq<usize>) -> nat
    decreases shape.len(),
{
    if shape.len() == 0 {
        1
    } else {
        element_count(shape.drop_last()) * shape.last() as nat
    }
}

/// The product of the axis lengths of a shape that are not zero.
pub open spec fn nonzero_count(shape: Seq<usize>) -> nat
    decreases shape.len(),
{
    if shape.len() == 0 {
        1
    } else if shape.last() == 0 {
        nonzero_count(shape.drop_last())
    } else {
        nonzero_count(shape.drop_last()) * shape.last() as nat
    }
}

/// What is wrong with a shape for so many elements, if anything.
pub open spec fn shape_error(shape: Seq<usize>, len: nat) -> Option<Seq<char>> {
    if nonzero_count(shape) > isize::MAX {
        Some("ShapeError/Overflow: arithmetic overflow"@)
    } else if element_count(shape) > len {
        Some("ShapeError/OutOfBounds: out of bounds indexing"@)
    } else if element_count(shape) < len {
        Some("ShapeError/IncompatibleShape: incompatible shapes"@)
    } else {
        None
    }
}

/// Calls `ndarray::ArrayD::from_shape_vec`, which takes elements for an array of a
/// shape exactly if there are as many as the shape asks for, and keeps them as they
/// are. Its refusal is handed on as the text it prints.
#[verifier::external_body]
fn from_shape_vec(shape: &Vec<usize>, data: Vec<u32>) -> (array: Result<Vec<u32>, String>)
    ensures
        match (array, shape_error(shape@, data@.len())) {
            (Ok(elements), None) => elements@ == data@,
            (Err(message), Some(text)) => message@ == text,
            _ => false,
        },
{
    ndarray::ArrayD::from_shape_vec(ndarray::IxDyn(shape), data).map(
        |array| array.into_raw_vec_and_offset().0,
    ).map_err(|error| error.to_string())
}

/// What is wrong with the first badly shaped tensor, if there is one.
pub open spec fn first_shape_error(inputs: Seq<TensorModel>) -> Option<Seq<char>>
    decreases inputs.len(),
{
    if inputs.len() == 0 {
        None
    } else {
        match first_shape_error(inputs.drop_last()) {
            Some(text) => Some(text),
            None => shape_error(inputs.last().shape, inputs.last().data.len()),
        }
    }
}

proof fn lemma_first_shape_error(inputs: Seq<TensorModel>, taken: int)
    requires
        0 <= taken <= inputs.len(),
        first_shape_error(inputs.take(taken)) is Some,
    ensures
        first_shape_error(inputs) == first_shape_error(inputs.take(taken)),
    decreases inputs.len() - taken,
{
    if taken == inputs.len() {
        assert(inputs.take(taken) =~= inputs);
    } else {
        assert(inputs.take(taken + 1).drop_last() =~= inputs.take(taken));
        lemma_first_shape_error(inputs, taken + 1);
    }
}

/// Checks that every input has as many elements as its shape asks for, before any
/// of them is handed to a session.
pub fn shaped_inputs(inputs: Vec<F32Tensor>) -> (shaped: Result<Vec<F32Tensor>, InferenceError>)
    ensures
        match (shaped, first_shape_error(tensor_models(inputs@))) {
            (Ok(list), None) => tensor_models(list@) == tensor_models(inputs@),
            (Err(error), Some(text)) => error@ == (InferenceErrorModel::Backend { message: text }),
            _ => false,
        },
{
    let ghost given = inputs@;
    let ghost all = tensor_models(inputs@);
    let mut list: Vec<F32Tensor> = Vec::new();
    assert(all.take(0) =~= Seq::empty());
    for input in it: inputs
        invariant
            it.seq() == given,
            given == inputs@,
            all == tensor_models(given),
            tensor_models(list@) =~= all.take(it.index() as int),
            first_shape_error(all.take(it.index() as int)) is None,
    {
        let ghost tensor = input@;
        proof {
            let taken = all.take(it.index() + 1);
            assert(taken.drop_last() =~= all.take(it.index() as int));
            assert(taken.last() == tensor);
        }
        let ghost before = tensor_models(list@);
        match from_shape_vec(&input.shape, input.data) {
            Err(message) => {
                proof {
                    lemma_first_shape_error(all, it.index() + 1);
                }
                return Err(InferenceError::Backend { message });
            },
            Ok(data) => {
                let tensor_out = F32Tensor { name: input.name, shape: input.shape, data };
                assert(tensor_out@ =~= tensor);
                list.push(tensor_out);
                assert(tensor_models(list@) =~= before.push(tensor));
            },
        }
    }
    assert(all.take(all.len() as int) =~= all);
    Ok(list)
}

/// An output as the session hands it over: its name, and its axis lengths with its
/// elements, or the reason why they cannot be read; nothing if the session lists a
/// name that it has no value for.
#[derive(Debug)]
pub struct SessionOutput {
    pub name: String,
    pub value: Option<Result<(Vec<i64>, Vec<u32>), String>>,
}

/// What becomes of one output.
pub open spec fn output_check(output: SessionOutput) -> Result<TensorModel, InferenceErrorModel> {
    match output.value {
        None => Err(
            InferenceErrorModel::Backend {
                message: "missing ORT output value for "@ + output.name@,
            },
        ),
        Some(Err(message)) => Err(InferenceErrorModel::Backend { message: message@ }),
        Some(Ok((dims, data))) => Ok(
            TensorModel {
                name: output.name@,
                shape: dims@.map_values(|dim: i64| dim as usize),
                data: data@,
            },
        ),
    }
}

/// What becomes of all outputs: the tensors in order, or the first error.
pub open spec fn outputs_check(outputs: Seq<SessionOutput>) -> Result<
    Seq<TensorModel>,
    InferenceErrorModel,
>
    decreases outputs.len(),
{
    if outputs.len() == 0 {
        Ok(Seq::empty())
    } else {
        match outputs_check(outputs.drop_last()) {
            Err(error) => Err(error),
            Ok(tensors) => match output_check(outputs.last()) {
                Err(error) => Err(error),
                Ok(tensor) => Ok(tensors.push(tensor)),
            },
        }
    }
}

proof fn lemma_outputs_check(outputs: Seq<SessionOutput>, taken: int)
    requires
        0 <= taken <= outputs.len(),
        outputs_check(outputs.take(taken)) is Err,
    ensures
        outputs_check(outputs) == outputs_check(outputs.take(taken)),
    decreases outputs.len() - taken,
{
    if taken == outputs.len() {
        assert(outputs.take(taken) =~= outputs);
    } else {
        assert(outputs.take(taken + 1).drop_last() =~= outputs.take(taken));
        lemma_outputs_check(outputs, taken + 1);
    }
}

fn axis_lengths(dims: &Vec<i64>) -> (shape: Vec<usize>)
    ensures
        shape@ == dims@.map_values(|dim: i64| dim as usize),
{
    let mut shape: Vec<usize> = Vec::new();
    for i in 0..dims.len()
        invariant
            shape@.len() == i,
            forall|j: int| 0 <= j < i ==> #[trigger] shape@[j] == dims@[j] as usize,
    {
        shape.push(#[verifier::truncate] (dims[i] as usize));
    }
    assert(shape@ =~= dims@.map_values(|dim: i64| dim as usize));
    shape
}

fn read_output(output: SessionOutput) -> (tensor: Result<F32Tensor, InferenceError>)
    ensures
        match (tensor, output_check(output)) {
            (Ok(tensor), Ok(model)) => tensor@ == model,
            (Err(error), Err(model)) => error@ == model,
            _ => false,
        },
{
    match output.value {
        None => {
            let mut message: String = "missing ORT output value for ".to_owned();
            push_str(&mut message, output.name.as_str());
            Err(InferenceError::Backend { message })
        },
        Some(Err(message)) => Err(InferenceError::Backend { message }),
        Some(Ok((dims, data))) => {
            let shape: Vec<usize> = axis_lengths(&dims);
            Ok(F32Tensor { name: output.name, shape, data })
        },
    }
}

/// Reads the outputs of a session in order, up to the first that cannot be read.
pub fn read_outputs(outputs: Vec<SessionOutput>) -> (tensors: Result<
    Vec<F32Tensor>,
    InferenceError,
>)
    ensures
        match (tensors, outputs_check(outputs@)) {
            (Ok(tensors), Ok(models)) => tensor_models(tensors@) == models,
            (Err(error), Err(model)) => error@ == model,
            _ => false,
        },
{
    let ghost all = outputs@;
    let mut tensors: Vec<F32Tensor> = Vec::new();
    assert(all.take(0) =~= Seq::empty());
    for output in it: outputs
        invariant
            it.seq() == all,
            all == outputs@,
            outputs_check(all.take(it.index() as int)) is Ok,
            tensor_models(tensors@) =~= outputs_check(all.take(it.index() as int))->Ok_0,
    {
        proof {
            let taken = all.take(it.index() + 1);
            assert(taken.drop_last() =~= all.take(it.index() as int));
            assert(taken.last() == output);
        }
        let ghost before = tensor_models(tensors@);
        match read_output(output) {
            Err(error) => {
                proof {
                    lemma_outputs_check(all, it.index() + 1);
                }
                return Err(error);
            },
            Ok(tensor) => {
                tensors.push(tensor);
                assert(tensor_models(tensors@) =~= before.push(tensor@));
            },
        }
    }
    assert(all.take(all.len() as int) =~= all);
    Ok(tensors)
}

/// A tensor is known by its name, its shape and its elements, and a list of tensors by
/// its tensors.
pub proof fn law_tensors_keep_what_they_hold(tensors: Seq<F32Tensor>, i: int)
    requires
        0 <= i < tensors.len(),
    ensures
        tensor_models(tensors).len() == tensors.len(),
        tensor_models(tensors)[i].name == tensors[i].name@,
        tensor_models(tensors)[i].shape == tensors[i].shape@,
        tensor_models(tensors)[i].data == tensors[i].data@,
{
}

/// Floats are ordered by sign and magnitude: a negative one is below every other, of two
/// negative ones the one of smaller magnitude is above, of two others the one of larger.
pub proof fn law_rank_orders_floats(left: u32, right: u32)
    ensures
        left >= 0x8000_0000 && right < 0x8000_0000 ==> rank(left) < rank(right),
        left < 0x8000_0000 && right < 0x8000_0000 ==> (rank(left) < rank(right) <==> left < right),
        left >= 0x8000_0000 && right >= 0x8000_0000 ==> (rank(left) < rank(right) <==> left
            > right),
{
}

/// The top of some values is none of them above it, and none behind it that is not
/// below it, in the order of floats.
pub proof fn law_top_is_the_greatest(values: Seq<u32>, index: int)
    ensures
        ({
            let below = |a: u32, b: u32|
                if a >= 0x8000_0000 {
                    b < 0x8000_0000 || b < a
                } else {
                    b < 0x8000_0000 && a < b
                };
            is_top(values, index) <==> {
                &&& 0 <= index < values.len()
                &&& forall|j: int|
                    0 <= j < values.len() ==> !below(values[index], #[trigger] values[j])
                &&& forall|j: int|
                    index < j < values.len() ==> below(#[trigger] values[j], values[index])
            }
        }),
{
}

/// There is a top wherever there are values.
pub proof fn law_top_exists(values: Seq<u32>)
    requires
        0 < values.len(),
    ensures
        exists|index: int| is_top(values, index),
    decreases values.len(),
{
    let last = values.len() - 1;
    if values.len() == 1 {
        assert(is_top(values, 0));
    } else {
        let shorter = values.drop_last();
        law_top_exists(shorter);
        let best = choose|index: int| is_top(shorter, index);
        assert(forall|j: int| 0 <= j < shorter.len() ==> values[j] == shorter[j]);
        if rank(values[last]) >= rank(values[best]) {
            assert forall|j: int| 0 <= j < values.len() implies rank(#[trigger] values[j])
                <= rank(values[last]) by {
                if j < shorter.len() {
                    assert(rank(shorter[j]) <= rank(shorter[best]));
                }
            }
            assert(is_top(values, last));
        } else {
            assert forall|j: int| 0 <= j < values.len() implies rank(#[trigger] values[j])
                <= rank(values[best]) by {
                if j < shorter.len() {
                    assert(rank(shorter[j]) <= rank(shorter[best]));
                }
            }
            assert forall|j: int| best < j < values.len() implies rank(#[trigger] values[j])
                < rank(values[best]) by {
                if j < shorter.len() {
                    assert(rank(shorter[j]) < rank(shorter[best]));
                }
            }
            assert(is_top(values, best));
        }
    }
}

/// Floats are equal exactly if both are numbers and they have the same bit pattern or
/// are both zero. So equality is symmetric, and only what is not a number is not equal
/// to itself.
pub proof fn law_float_equality(left: u32, right: u32)
    ensures
        same_float(left, right) <==> {
            &&& left <= 0x7f80_0000 || 0x8000_0000 <= left <= 0xff80_0000
            &&& right <= 0x7f80_0000 || 0x8000_0000 <= right <= 0xff80_0000
            &&& left == right || ((left == 0 || left == 0x8000_0000) && (right == 0 || right
                == 0x8000_0000))
        },
        same_float(left, right) == same_float(right, left),
        same_float(left, left) <==> left <= 0x7f80_0000 || 0x8000_0000 <= left <= 0xff80_0000,
{
}

/// Runs of floats are equal exactly if they are as long as each other and no place in
/// them differs.
pub proof fn law_float_runs_are_equal_one_by_one(left: Seq<u32>, right: Seq<u32>)
    ensures
        same_floats(left, right) <==> left.len() == right.len() && !exists|i: int|
            0 <= i < left.len() && !same_float(#[trigger] left[i], right[i]),
{
}

/// Inputs are taken exactly if none is badly shaped; else the first badly shaped one is
/// reported.
pub proof fn law_first_badly_shaped_input_is_reported(inputs: Seq<TensorModel>)
    ensures
        first_shape_error(inputs) is None <==> forall|i: int|
            0 <= i < inputs.len() ==> shape_error(
                (#[trigger] inputs[i]).shape,
                inputs[i].data.len(),
            ) is None,
        forall|i: int|
            0 <= i < inputs.len() && shape_error(
                (#[trigger] inputs[i]).shape,
                inputs[i].data.len(),
            ) is Some && (forall|j: int|
                0 <= j < i ==> shape_error(
                    (#[trigger] inputs[j]).shape,
                    inputs[j].data.len(),
                ) is None) ==> first_shape_error(inputs) == shape_error(
                inputs[i].shape,
                inputs[i].data.len(),
            ),
    decreases inputs.len(),
{
    if inputs.len() > 0 {
        let shorter = inputs.drop_last();
        law_first_badly_shaped_input_is_reported(shorter);
        assert(forall|i: int| 0 <= i < shorter.len() ==> shorter[i] == inputs[i]);
        let last = inputs.len() - 1;
        assert(inputs.last() == inputs[last]);
        if first_shape_error(shorter) is None {
            assert forall|i: int| 0 <= i < shorter.len() implies shape_error(
                (#[trigger] inputs[i]).shape,
                inputs[i].data.len(),
            ) is None by {
                assert(shape_error(shorter[i].shape, shorter[i].data.len()) is None);
            }
        } else {
            let bad = choose|i: int|
                0 <= i < shorter.len() && shape_error(
                    (#[trigger] shorter[i]).shape,
                    shorter[i].data.len(),
                ) is Some;
            assert(shape_error(inputs[bad].shape, inputs[bad].data.len()) is Some);
        }
        assert forall|i: int|
            0 <= i < inputs.len() && shape_error(
                (#[trigger] inputs[i]).shape,
                inputs[i].data.len(),
            ) is Some && (forall|j: int|
                0 <= j < i ==> shape_error(
                    (#[trigger] inputs[j]).shape,
                    inputs[j].data.len(),
                ) is None) implies first_shape_error(inputs) == shape_error(
            inputs[i].shape,
            inputs[i].data.len(),
        ) by {
            if i < shorter.len() {
                assert(shorter[i] == inputs[i]);
                assert forall|j: int| 0 <= j < i implies shape_error(
                    (#[trigger] shorter[j]).shape,
                    shorter[j].data.len(),
                ) is None by {
                    assert(shape_error(inputs[j].shape, inputs[j].data.len()) is None);
                }
            } else {
                assert forall|j: int| 0 <= j < shorter.len() implies shape_error(
                    (#[trigger] shorter[j]).shape,
                    shorter[j].data.len(),
                ) is None by {
                    assert(shape_error(inputs[j].shape, inputs[j].data.len()) is None);
                }
            }
        }
    }
}

/// A shape asks for as many elements as the product of its axes: one for no axis, and
/// with one more axis as many times more as its length. A shape is good for exactly so
/// many elements, as long as its axes other than zero can be multiplied.
pub proof fn law_shapes_ask_for_their_product(shape: Seq<usize>, length: usize, len: nat)
    ensures
        element_count(Seq::<usize>::empty()) == 1,
        element_count(shape.push(length)) == element_count(shape) * length,
        nonzero_count(Seq::<usize>::empty()) == 1,
        length == 0 ==> nonzero_count(shape.push(length)) == nonzero_count(shape),
        length > 0 ==> nonzero_count(shape.push(length)) == nonzero_count(shape) * length,
        shape_error(shape, len) is None <==> nonzero_count(shape) <= isize::MAX && element_count(
            shape,
        ) == len,
{
    assert(shape.push(length).drop_last() =~= shape);
}

/// What one output becomes: itself, under its name, with its axes as lengths, if it can
/// be read; else the reason why it cannot.
pub proof fn law_outputs_keep_what_they_hold(output: SessionOutput, axis: int)
    ensures
        output_check(output) is Ok <==> output.value is Some && output.value->0 is Ok,
        output_check(output) is Ok ==> {
            let (dims, data) = output.value->0->Ok_0;
            let tensor = output_check(output)->Ok_0;
            &&& tensor.name == output.name@
            &&& tensor.data == data@
            &&& tensor.shape.len() == dims@.len()
            &&& 0 <= axis < dims@.len() ==> tensor.shape[axis] == dims@[axis] as usize
        },
        output.value is None ==> output_check(output)->Err_0 == (InferenceErrorModel::Backend {
            message: "missing ORT output value for "@ + output.name@,
        }),
        output.value is Some && output.value->0 is Err ==> output_check(output)->Err_0 == (
        InferenceErrorModel::Backend { message: output.value->0->Err_0@ }),
{
}

/// Outputs are read one by one and in order. They are all read exactly if each can be;
/// else the first that cannot be is reported.
pub proof fn law_outputs_are_read_in_order(outputs: Seq<SessionOutput>)
    ensures
        outputs_check(outputs) is Ok <==> forall|i: int|
            0 <= i < outputs.len() ==> output_check(#[trigger] outputs[i]) is Ok,
        outputs_check(outputs) is Ok ==> {
            &&& outputs_check(outputs)->Ok_0.len() == outputs.len()
            &&& forall|i: int|
                0 <= i < outputs.len() ==> #[trigger] outputs_check(outputs)->Ok_0[i]
                    == output_check(outputs[i])->Ok_0
        },
        forall|i: int|
            0 <= i < outputs.len() && output_check(#[trigger] outputs[i]) is Err && (forall|j: int|
                0 <= j < i ==> output_check(#[trigger] outputs[j]) is Ok) ==> outputs_check(
                outputs,
            ) is Err && outputs_check(outputs)->Err_0 == output_check(outputs[i])->Err_0,
    decreases outputs.len(),
{
    if outputs.len() > 0 {
        let shorter = outputs.drop_last();
        law_outputs_are_read_in_order(shorter);
        assert(forall|i: int| 0 <= i < shorter.len() ==> shorter[i] == outputs[i]);
        let last = outputs.len() - 1;
        assert(outputs.last() == outputs[last]);
        if outputs_check(shorter) is Ok {
            assert forall|i: int| 0 <= i < shorter.len() implies output_check(
                #[trigger] outputs[i],
            ) is Ok by {
                assert(output_check(shorter[i]) is Ok);
            }
            if output_check(outputs[last]) is Ok {
                let (read, before) = (outputs_check(outputs)->Ok_0, outputs_check(shorter)->Ok_0);
                assert forall|i: int| 0 <= i < outputs.len() implies #[trigger] read[i]
                    == output_check(outputs[i])->Ok_0 by {
                    if i < last {
                        assert(read[i] == before[i]);
                    }
                }
            }
        } else {
            let bad = choose|i: int|
                0 <= i < shorter.len() && output_check(#[trigger] shorter[i]) is Err;
            assert(output_check(outputs[bad]) is Err);
        }
        assert forall|i: int|
            0 <= i < outputs.len() && output_check(#[trigger] outputs[i]) is Err && (forall|j: int|
                0 <= j < i ==> output_check(#[trigger] outputs[j]) is Ok) implies outputs_check(
            outputs,
        ) is Err && outputs_check(outputs)->Err_0 == output_check(outputs[i])->Err_0 by {
            if i < shorter.len() {
                assert(output_check(shorter[i]) is Err);
            }
            assert forall|j: int| 0 <= j < i && j < shorter.len() implies output_check(
                #[trigger] shorter[j],
            ) is Ok by {
                assert(output_check(outputs[j]) is Ok);
            }
        }
    }
}

} // verus!
