use auv_frame_loop::inference::{
    begin_load, execution_provider, execution_providers, provider_feature, provider_name, ExecutionProvider,
    InferenceError, OrtModelConfig, RuntimeFeatures,
};
use std::path::PathBuf;

#[test]
fn missing_model_is_rejected_before_backend_load() {
    let path = PathBuf::from("missing-card-corner-classifier.onnx");
    let err = begin_load(
        OrtModelConfig { model_path: path.clone(), execution_provider: ExecutionProvider::Cpu },
        path.exists(),
        RuntimeFeatures::runtime_only(),
    )
    .unwrap_err();

    assert!(matches!(err, InferenceError::MissingModel { path: actual } if actual == path));
}

#[test]
fn provider_names_match_onnx_runtime_identifiers() {
    assert_eq!(provider_name(ExecutionProvider::Cpu), "CPUExecutionProvider");
    assert_eq!(provider_name(ExecutionProvider::CoreMl), "CoreMLExecutionProvider");
    assert_eq!(provider_name(ExecutionProvider::Cuda), "CUDAExecutionProvider");
}

#[test]
fn coreml_without_its_feature_is_rejected() {
    let error = execution_providers(ExecutionProvider::CoreMl, RuntimeFeatures::runtime_only())
        .expect_err("CoreML must not fall back to CPU");

    assert!(matches!(
        error,
        InferenceError::Backend { message }
            if message == "requested execution provider CoreMLExecutionProvider is unavailable because auv-inference-ort was built without the 'coreml' feature"
    ));
}

#[test]
fn cuda_without_its_feature_is_rejected() {
    let error = execution_providers(ExecutionProvider::Cuda, RuntimeFeatures::runtime_only())
        .expect_err("CUDA must not fall back to CPU");

    assert!(matches!(
        error,
        InferenceError::Backend { message }
            if message == "requested execution provider CUDAExecutionProvider is unavailable because auv-inference-ort was built without the 'cuda' feature"
    ));
}

#[test]
fn a_provider_that_was_built_in_is_the_only_one_registered() {
    let features = RuntimeFeatures { coreml: true, ..RuntimeFeatures::runtime_only() };
    assert_eq!(execution_providers(execution_provider(), features), Ok(vec![ExecutionProvider::CoreMl]));
    assert_eq!(execution_providers(ExecutionProvider::Cpu, features), Ok(vec![ExecutionProvider::Cpu]));
    assert_eq!(ExecutionProvider::default(), ExecutionProvider::Cpu);
}

#[test]
fn a_build_without_the_runtime_refuses_a_model_that_exists() {
    let config =
        || OrtModelConfig { model_path: PathBuf::from("."), execution_provider: ExecutionProvider::Cpu };
    let features = RuntimeFeatures { runtime: false, ..RuntimeFeatures::runtime_only() };
    assert_eq!(
        begin_load(config(), true, features),
        Err(InferenceError::Backend { message: "auv-inference-ort built without runtime feature".to_string() })
    );
    assert_eq!(begin_load(config(), true, RuntimeFeatures::runtime_only()), Ok(config()));
}

#[test]
fn every_provider_has_a_name_and_a_feature_of_its_own() {
    let all = [
        (ExecutionProvider::Cpu, "CPUExecutionProvider", "runtime"),
        (ExecutionProvider::CoreMl, "CoreMLExecutionProvider", "coreml"),
        (ExecutionProvider::Cuda, "CUDAExecutionProvider", "cuda"),
        (ExecutionProvider::DirectMl, "DmlExecutionProvider", "directml"),
        (ExecutionProvider::OpenVino, "OpenVINOExecutionProvider", "openvino"),
        (ExecutionProvider::TensorRt, "TensorrtExecutionProvider", "tensorrt"),
        (ExecutionProvider::WebGpu, "WebGPUExecutionProvider", "webgpu"),
        (ExecutionProvider::Xnnpack, "XnnpackExecutionProvider", "xnnpack"),
    ];
    for (provider, name, feature) in all {
        assert_eq!((provider_name(provider), provider_feature(provider)), (name, feature));
    }
}

#[test]
fn a_model_config_can_be_copied() {
    let config = OrtModelConfig {
        model_path: PathBuf::from("model.onnx"),
        execution_provider: ExecutionProvider::CoreMl,
    };
    assert_eq!(config.clone(), config);
}
