use muna::acceleration::{acceleration_to_c, creates_locally, is_local_acceleration, is_remote, Acceleration};
use muna::delegate::{chat_delegate_info, embedding_delegate_info, image_config, message_delegate_info};
use muna::dtype::{dtype_from_c, dtype_to_c, is_integer_dtype, is_tensor_dtype, Dtype};
use muna::error::MunaError;
use muna::status::{check_status, FXNStatus, ValueFlags};
use muna::types::{ImageSize, Parameter, Signature};

fn param(name: &str, dtype: Dtype, optional: bool, denotation: Option<&str>) -> Parameter {
    Parameter {
        name: name.to_string(),
        dtype: Some(dtype),
        description: None,
        denotation: denotation.map(|d| d.to_string()),
        optional: if optional { Some(true) } else { None },
        enumeration: None,
        schema_title: None,
        max: None,
        context_length: None,
        sample_rate: None,
    }
}

#[test]
fn status_codes_and_messages() {
    assert!(FXNStatus::Success.is_ok());
    assert!(!FXNStatus::ErrorInvalidArgument.is_ok());
    assert_eq!(FXNStatus::ErrorNotImplemented.message(), "not implemented");
    assert_eq!(FXNStatus::ErrorInvalidOperation.code(), 2);
    assert_eq!(ValueFlags::CopyData.code(), 1);
    assert!(check_status(0, "ctx").is_ok());
    assert!(matches!(check_status(1, "Failed"), Err(MunaError::Native(m)) if m == "Failed: invalid argument"));
    assert!(matches!(check_status(-7, "Failed"), Err(MunaError::Native(m)) if m == "Failed: unknown status -7"));
}

#[test]
fn dtype_codes_round_trip() {
    let all = [
        Dtype::Null, Dtype::BFloat16, Dtype::Float16, Dtype::Float32, Dtype::Float64, Dtype::Int8, Dtype::Int16,
        Dtype::Int32, Dtype::Int64, Dtype::Uint8, Dtype::Uint16, Dtype::Uint32, Dtype::Uint64, Dtype::Bool,
        Dtype::String, Dtype::List, Dtype::Dict, Dtype::Image, Dtype::ImageList, Dtype::ArrayList, Dtype::Complex64,
        Dtype::Complex128, Dtype::Binary,
    ];
    for dtype in all {
        assert_eq!(dtype_from_c(dtype_to_c(dtype)), Some(dtype));
    }
    assert_eq!(dtype_to_c(Dtype::Float32), 2);
    assert_eq!(dtype_from_c(23), None);
    assert_eq!(dtype_from_c(-1), None);
    assert!(is_tensor_dtype(Dtype::Bool));
    assert!(!is_tensor_dtype(Dtype::String));
    assert!(is_integer_dtype(Dtype::Uint16));
    assert!(!is_integer_dtype(Dtype::Float16));
}

#[test]
fn accelerations_decide_where_predictions_run() {
    assert_eq!(acceleration_to_c(&Acceleration::LocalGpu), 2);
    assert_eq!(acceleration_to_c(&Acceleration::RemoteA100), 0);
    assert!(is_local_acceleration(None));
    assert!(is_local_acceleration(Some(&Acceleration::Adaptive("local_tpu".to_string()))));
    assert!(!is_local_acceleration(Some(&Acceleration::RemoteAuto)));
    assert!(is_remote(&Acceleration::Adaptive("remote_x".to_string())));
    for a in [Acceleration::RemoteL40S, Acceleration::RemoteMI350X, Acceleration::RemoteMI355X, Acceleration::RemoteB200] {
        assert!(is_remote(&a));
    }
    assert!(!is_remote(&Acceleration::LocalAuto));
    assert!(!is_remote(&Acceleration::Adaptive("local_x".to_string())));
    assert!(creates_locally(None, Some(&Acceleration::RemoteAuto)));
    assert!(creates_locally(Some(0), Some(&Acceleration::RemoteAuto)));
    assert!(!creates_locally(Some(2), Some(&Acceleration::RemoteAuto)));
}

#[test]
fn image_sizes_request_dimensions() {
    assert_eq!(ImageSize::Auto.dimensions(), (None, None));
    assert_eq!(ImageSize::Size1536x1024.dimensions(), (Some(1536), Some(1024)));
}

#[test]
fn delegates_read_their_parameters() {
    let mut chunk = param("chunk", Dtype::Dict, false, None);
    chunk.schema_title = Some("ChatCompletionChunk".to_string());
    let signature = Signature {
        inputs: vec![
            param("messages", Dtype::List, false, None),
            param("images", Dtype::ImageList, true, Some("openai.chat.completions.images")),
            param("tools", Dtype::List, true, Some("openai.chat.completions.tools")),
        ],
        outputs: vec![param("other", Dtype::String, false, None), chunk],
    };
    let info = chat_delegate_info("@a/b", &signature).unwrap();
    assert_eq!(info.input_param_name, "messages");
    assert_eq!(info.images_param_name.as_deref(), Some("images"));
    assert_eq!(info.tools_param_name.as_deref(), Some("tools"));
    assert_eq!(info.completion_param_idx, 1);
    let info = message_delegate_info("@a/b", &signature).unwrap();
    assert_eq!(info.output_param_idx, 1);
    let bare = Signature { inputs: vec![param("messages", Dtype::List, false, None)], outputs: vec![] };
    assert!(matches!(chat_delegate_info("@a/b", &bare), Err(MunaError::Prediction(m)) if m.starts_with("@a/b cannot be used with OpenAI chat completions API")));
    let embedding = Signature {
        inputs: vec![param("texts", Dtype::List, false, None)],
        outputs: vec![param("vectors", Dtype::Float32, false, Some("embedding"))],
    };
    let info = embedding_delegate_info("@e/f", &embedding).unwrap();
    assert_eq!(info.input_param_name, "texts");
    assert_eq!(info.embedding_param_idx, 0);
    assert_eq!(info.usage_param_idx, None);
    let images = Signature {
        inputs: vec![param("prompt", Dtype::List, false, None), param("w", Dtype::Int32, true, Some("openai.images.width"))],
        outputs: vec![param("out", Dtype::ImageList, false, None)],
    };
    let config = image_config("@i/j", &images).unwrap();
    assert_eq!(config.prompt_param_name, "prompt");
    assert_eq!(config.width_param.as_deref(), Some("w"));
    assert_eq!(config.height_param, None);
    assert_eq!(config.image_param_idx, 0);
}
