//! Which execution provider runs the model, and when loading it is refused.
use std::path::PathBuf;

use vstd::prelude::*;

use crate::text::push_str;

verus! {

/// `std::path::PathBuf`, carried through unread.
#[verifier::external_type_specification]
#[verifier::external_body]
pub struct ExPathBuf(PathBuf);

/// `PathBuf::clone`, which returns a copy of the path.
pub assume_specification [<PathBuf as Clone>::clone](path: &PathBuf) -> (copy: PathBuf)
    ensures
        copy == *path,
;

/// Where the model is, and what is to run it.
#[derive(Debug, PartialEq, Eq)]
pub struct OrtModelConfig {
    pub model_path: PathBuf,
    pub execution_provider: ExecutionProvider,
}

impl Clone for OrtModelConfig {
    fn clone(&self) -> (copy: Self)
        ensures
            copy == *self,
    {
        OrtModelConfig {
            model_path: self.model_path.clone(),
            execution_provider: self.execution_provider,
        }
    }
}

/// What runs the model.
#[derive(Clone, Copy, Debug, PartialEq, Eq, Structural)]
#[non_exhaustive]
pub enum ExecutionProvider {
    Cpu,
    CoreMl,
    Cuda,
    DirectMl,
    OpenVino,
    TensorRt,
    WebGpu,
    Xnnpack,
}

impl Default for ExecutionProvider {
    fn default() -> (provider: Self)
        ensures
            provider == ExecutionProvider::Cpu,
    {
        ExecutionProvider::Cpu
    }
}

/// Why inference failed.
#[derive(Debug, PartialEq, Eq)]
pub enum InferenceError {
    /// There is no file at the model's path.
    MissingModel { path: PathBuf },
    /// The runtime refused or failed.
    Backend { message: String },
    /// The session cannot be used any more.
    SessionUnavailable { reason: String },
}

/// An `InferenceError` with its texts taken by their views.
#[verifier::ext_equal]
pub enum InferenceErrorModel {
    MissingModel { path: PathBuf },
    Backend { message: Seq<char> },
    SessionUnavailable { reason: Seq<char> },
}

impl View for InferenceError {
    type V = InferenceErrorModel;

    open spec fn view(&self) -> InferenceErrorModel {
        match *self {
            InferenceError::MissingModel { path } => InferenceErrorModel::MissingModel { path },
            InferenceError::Backend { message } => InferenceErrorModel::Backend {
                message: message@,
            },
            InferenceError::SessionUnavailable { reason } => {
                InferenceErrorModel::SessionUnavailable { reason: reason@ }
            },
        }
    }
}

/// A result with its error, if any, taken by its view.
pub open spec fn inference_outcome<T>(result: Result<T, InferenceError>) -> Result<
    T,
    InferenceErrorModel,
> {
    match result {
        Ok(value) => Ok(value),
        Err(error) => Err(error@),
    }
}

/// The parts of the runtime that were built in.
#[derive(Clone, Copy, Debug, PartialEq, Eq, Structural)]
pub struct RuntimeFeatures {
    pub runtime: bool,
    pub coreml: bool,
    pub cuda: bool,
    pub directml: bool,
    pub openvino: bool,
    pub tensorrt: bool,
    pub webgpu: bool,
    pub xnnpack: bool,
}

impl RuntimeFeatures {
    /// The runtime with no provider but the CPU.
    pub fn runtime_only() -> (features: RuntimeFeatures)
        ensures
            features.runtime,
            forall|provider: ExecutionProvider|
                #[trigger] features.offers(provider) <==> provider == ExecutionProvider::Cpu,
    {
        RuntimeFeatures {
            runtime: true,
            coreml: false,
            cuda: false,
            directml: false,
            openvino: false,
            tensorrt: false,
            webgpu: false,
            xnnpack: false,
        }
    }

    /// Whether a provider can be asked for. The CPU always can.
    pub open spec fn offers(self, provider: ExecutionProvider) -> bool {
        match provider {
            ExecutionProvider::Cpu => true,
            ExecutionProvider::CoreMl => self.coreml,
            ExecutionProvider::Cuda => self.cuda,
            ExecutionProvider::DirectMl => self.directml,
            ExecutionProvider::OpenVino => self.openvino,
            ExecutionProvider::TensorRt => self.tensorrt,
            ExecutionProvider::WebGpu => self.webgpu,
            ExecutionProvider::Xnnpack => self.xnnpack,
        }
    }
}

/// The name by which ONNX Runtime knows a provider.
pub open spec fn onnx_name(provider: ExecutionProvider) -> Seq<char> {
    match provider {
        ExecutionProvider::Cpu => "CPUExecutionProvider"@,
        ExecutionProvider::CoreMl => "CoreMLExecutionProvider"@,
        ExecutionProvider::Cuda => "CUDAExecutionProvider"@,
        ExecutionProvider::DirectMl => "DmlExecutionProvider"@,
        ExecutionProvider::OpenVino => "OpenVINOExecutionProvider"@,
        ExecutionProvider::TensorRt => "TensorrtExecutionProvider"@,
        ExecutionProvider::WebGpu => "WebGPUExecutionProvider"@,
        ExecutionProvider::Xnnpack => "XnnpackExecutionProvider"@,
    }
}

/// The build feature that a provider comes with.
pub open spec fn feature_name(provider: ExecutionProvider) -> Seq<char> {
    match provider {
        ExecutionProvider::Cpu => "runtime"@,
        ExecutionProvider::CoreMl => "coreml"@,
        ExecutionProvider::Cuda => "cuda"@,
        ExecutionProvider::DirectMl => "directml"@,
        ExecutionProvider::OpenVino => "openvino"@,
        ExecutionProvider::TensorRt => "tensorrt"@,
        ExecutionProvider::WebGpu => "webgpu"@,
        ExecutionProvider::Xnnpack => "xnnpack"@,
    }
}

/// The name by which ONNX Runtime knows a provider.
pub fn provider_name(provider: ExecutionProvider) -> (name: &'static str)
    ensures
        name@ == onnx_name(provider),
{
    match provider {
        ExecutionProvider::Cpu => "CPUExecutionProvider",
        ExecutionProvider::CoreMl => "CoreMLExecutionProvider",
        ExecutionProvider::Cuda => "CUDAExecutionProvider",
        ExecutionProvider::DirectMl => "DmlExecutionProvider",
        ExecutionProvider::OpenVino => "OpenVINOExecutionProvider",
        ExecutionProvider::TensorRt => "TensorrtExecutionProvider",
        ExecutionProvider::WebGpu => "WebGPUExecutionProvider",
        ExecutionProvider::Xnnpack => "XnnpackExecutionProvider",
    }
}

/// The build feature that a provider comes with.
pub fn provider_feature(provider: ExecutionProvider) -> (name: &'static str)
    ensures
        name@ == feature_name(provider),
{
    match provider {
        ExecutionProvider::Cpu => "runtime",
        ExecutionProvider::CoreMl => "coreml",
        ExecutionProvider::Cuda => "cuda",
        ExecutionProvider::DirectMl => "directml",
        ExecutionProvider::OpenVino => "openvino",
        ExecutionProvider::TensorRt => "tensorrt",
        ExecutionProvider::WebGpu => "webgpu",
        ExecutionProvider::Xnnpack => "xnnpack",
    }
}

/// The provider that the controller asks for.
pub fn execution_provider() -> (provider: ExecutionProvider)
    ensures
        provider == ExecutionProvider::CoreMl,
{
    ExecutionProvider::CoreMl
}

/// What the refusal of a provider that was not built in says.
pub open spec fn unavailable_message(provider: ExecutionProvider) -> Seq<char> {
    "requested execution provider "@ + onnx_name(provider)
        + " is unavailable because auv-inference-ort was built without the '"@ + feature_name(
        provider,
    ) + "' feature"@
}

/// The providers to register for a requested one: that one alone. A provider that
/// was not built in is refused; none takes its place.
pub fn execution_providers(provider: ExecutionProvider, features: RuntimeFeatures) -> (providers:
    Result<Vec<ExecutionProvider>, InferenceError>)
    ensures
        match providers {
            Ok(list) => features.offers(provider) && list@ == seq![provider],
            Err(error) => !features.offers(provider) && error@
                == (InferenceErrorModel::Backend { message: unavailable_message(provider) }),
        },
{
    let built_in = match provider {
        ExecutionProvider::Cpu => true,
        ExecutionProvider::CoreMl => features.coreml,
        ExecutionProvider::Cuda => features.cuda,
        ExecutionProvider::DirectMl => features.directml,
        ExecutionProvider::OpenVino => features.openvino,
        ExecutionProvider::TensorRt => features.tensorrt,
        ExecutionProvider::WebGpu => features.webgpu,
        ExecutionProvider::Xnnpack => features.xnnpack,
    };
    if built_in {
        let mut list: Vec<ExecutionProvider> = Vec::new();
        list.push(provider);
        assert(list@ =~= seq![provider]);
        Ok(list)
    } else {
        let mut message: String = "requested execution provider ".to_owned();
        push_str(&mut message, provider_name(provider));
        push_str(&mut message, " is unavailable because auv-inference-ort was built without the '");
        push_str(&mut message, provider_feature(provider));
        push_str(&mut message, "' feature");
        Err(InferenceError::Backend { message })
    }
}

/// What becomes of a model path, given whether a file was found there.
pub open spec fn path_check(path: PathBuf, found: bool) -> Result<PathBuf, InferenceErrorModel> {
    if found {
        Ok(path)
    } else {
        Err(InferenceErrorModel::MissingModel { path })
    }
}

/// Refuses a model path at which no file was found.
pub fn require_model_path(path: PathBuf, found: bool) -> (checked: Result<PathBuf, InferenceError>)
    ensures
        inference_outcome(checked) == path_check(path, found),
{
    if found {
        Ok(path)
    } else {
        Err(InferenceError::MissingModel { path })
    }
}

/// What becomes of a request to load a model before the backend is touched.
pub open spec fn load_check(
    config: OrtModelConfig,
    found: bool,
    features: RuntimeFeatures,
) -> Result<OrtModelConfig, InferenceErrorModel> {
    if !found {
        Err(InferenceErrorModel::MissingModel { path: config.model_path })
    } else if !features.runtime {
        Err(
            InferenceErrorModel::Backend {
                message: "auv-inference-ort built without runtime feature"@,
            },
        )
    } else {
        Ok(config)
    }
}

/// Checks that the model is there, and then that the runtime was built in.
pub fn begin_load(config: OrtModelConfig, found: bool, features: RuntimeFeatures) -> (started:
    Result<OrtModelConfig, InferenceError>)
    ensures
        inference_outcome(started) == load_check(config, found, features),
{
    match require_model_path(config.model_path, found) {
        Err(error) => Err(error),
        Ok(model_path) => if features.runtime {
            Ok(OrtModelConfig { model_path, execution_provider: config.execution_provider })
        } else {
            Err(
                InferenceError::Backend {
                    message: "auv-inference-ort built without runtime feature".to_owned(),
                },
            )
        },
    }
}

/// No two providers go by the same name.
pub proof fn law_provider_names_distinct(left: ExecutionProvider, right: ExecutionProvider)
    requires
        onnx_name(left) == onnx_name(right),
    ensures
        left == right,
{
    reveal_strlit("CPUExecutionProvider");
    reveal_strlit("CoreMLExecutionProvider");
    reveal_strlit("CUDAExecutionProvider");
    reveal_strlit("DmlExecutionProvider");
    reveal_strlit("OpenVINOExecutionProvider");
    reveal_strlit("TensorrtExecutionProvider");
    reveal_strlit("WebGPUExecutionProvider");
    reveal_strlit("XnnpackExecutionProvider");
    let (l, r) = (onnx_name(left), onnx_name(right));
    assert(l.len() == r.len() && l[0] == r[0] && l[1] == r[1]);
}

/// Each provider goes by the name that ONNX Runtime gives it and comes with the build
/// feature of its own.
pub proof fn law_providers_have_their_names(provider: ExecutionProvider)
    ensures
        (onnx_name(provider), feature_name(provider)) == match provider {
            ExecutionProvider::Cpu => ("CPUExecutionProvider"@, "runtime"@),
            ExecutionProvider::CoreMl => ("CoreMLExecutionProvider"@, "coreml"@),
            ExecutionProvider::Cuda => ("CUDAExecutionProvider"@, "cuda"@),
            ExecutionProvider::DirectMl => ("DmlExecutionProvider"@, "directml"@),
            ExecutionProvider::OpenVino => ("OpenVINOExecutionProvider"@, "openvino"@),
            ExecutionProvider::TensorRt => ("TensorrtExecutionProvider"@, "tensorrt"@),
            ExecutionProvider::WebGpu => ("WebGPUExecutionProvider"@, "webgpu"@),
            ExecutionProvider::Xnnpack => ("XnnpackExecutionProvider"@, "xnnpack"@),
        },
        unavailable_message(provider) == "requested execution provider "@ + onnx_name(provider)
            + " is unavailable because auv-inference-ort was built without the '"@ + feature_name(
            provider,
        ) + "' feature"@,
{
}

/// A provider other than the CPU is offered exactly if its own part was built in.
pub proof fn law_offers_follow_what_was_built_in(features: RuntimeFeatures)
    ensures
        features.offers(ExecutionProvider::Cpu),
        features.offers(ExecutionProvider::CoreMl) <==> features.coreml,
        features.offers(ExecutionProvider::Cuda) <==> features.cuda,
        features.offers(ExecutionProvider::DirectMl) <==> features.directml,
        features.offers(ExecutionProvider::OpenVino) <==> features.openvino,
        features.offers(ExecutionProvider::TensorRt) <==> features.tensorrt,
        features.offers(ExecutionProvider::WebGpu) <==> features.webgpu,
        features.offers(ExecutionProvider::Xnnpack) <==> features.xnnpack,
{
}

/// A model is loaded, as it was asked for, exactly if there is a file and the runtime
/// was built in. A missing file counts first.
pub proof fn law_models_are_refused_for_a_reason(
    config: OrtModelConfig,
    found: bool,
    features: RuntimeFeatures,
)
    ensures
        load_check(config, found, features) is Ok <==> found && features.runtime,
        found && features.runtime ==> load_check(config, found, features)->Ok_0 == config,
        !found ==> load_check(config, found, features)->Err_0 == (
        InferenceErrorModel::MissingModel { path: config.model_path }),
        found && !features.runtime ==> load_check(config, found, features)->Err_0 == (
        InferenceErrorModel::Backend {
            message: "auv-inference-ort built without runtime feature"@,
        }),
        path_check(config.model_path, found) is Ok <==> found,
        found ==> path_check(config.model_path, found)->Ok_0 == config.model_path,
        !found ==> path_check(config.model_path, found)->Err_0 == (
        InferenceErrorModel::MissingModel { path: config.model_path }),
{
}

/// An inference error is known by its kind and its text or path.
pub proof fn law_inference_errors_keep_what_they_hold<T>(result: Result<T, InferenceError>)
    ensures
        inference_outcome(result) is Ok <==> result is Ok,
        result matches Ok(value) ==> inference_outcome(result)->Ok_0 == value,
        result matches Err(InferenceError::MissingModel { path }) ==> inference_outcome(
            result,
        )->Err_0 == (InferenceErrorModel::MissingModel { path }),
        result matches Err(InferenceError::Backend { message }) ==> inference_outcome(result)->Err_0
            == (InferenceErrorModel::Backend { message: message@ }),
        result matches Err(InferenceError::SessionUnavailable { reason }) ==> inference_outcome(
            result,
        )->Err_0 == (InferenceErrorModel::SessionUnavailable { reason: reason@ }),
{
}

} // verus!
