use muna::conversation::{
    audio_input, check_chunk_object, check_fetched_image, check_prediction_output, image_data_url, part_action,
    tools_parameter, PartAction,
};
use muna::chat::{ChatCompletionContentPart, ChatCompletionContentPartFile, ChatCompletionContentPartImageUrl, ChatCompletionContentPartInputAudio};
use muna::dtype::Dtype;
use muna::error::MunaError;
use muna::remote::{create_remote_value, download_value_data, remote_decode, remote_value_url, upload_value_data, RemoteDecode};
use muna::types::RemoteValue;

#[test]
fn data_urls_carry_base64_bytes() {
    let url = upload_value_data(b"hi", "text/plain");
    assert_eq!(url, "data:text/plain;base64,aGk=");
    match download_value_data(&url) {
        Some(Ok(bytes)) => assert_eq!(bytes, b"hi".to_vec()),
        _ => panic!("expected decoded bytes"),
    }
    assert!(download_value_data("https://example.com/x").is_none());
    assert!(download_value_data("data:text/plain,hi").is_none());
    match download_value_data("data:x;base64,%%%") {
        Some(Err(MunaError::Prediction(m))) => assert_eq!(m, "Base64 decode error: Invalid symbol 37, offset 0."),
        _ => panic!("expected a decode error"),
    }
}

#[test]
fn data_urls_read_back_what_was_written() {
    let bytes: Vec<u8> = (0u8..=255).collect();
    for mime in ["application/octet-stream", "image/png", "a;b", ""] {
        match download_value_data(&upload_value_data(&bytes, mime)) {
            Some(Ok(read)) => assert_eq!(read, bytes),
            _ => panic!("expected the bytes back"),
        }
    }
}

#[test]
fn remote_values_name_their_media_type() {
    let value = create_remote_value(Dtype::Null, b"");
    assert_eq!(value, RemoteValue { data: None, dtype: Dtype::Null });
    assert_eq!(create_remote_value(Dtype::String, b"hi").data.as_deref(), Some("data:text/plain;base64,aGk="));
    assert!(create_remote_value(Dtype::Float32, b"").data.unwrap().starts_with("data:application/octet-stream;base64,"));
    assert!(create_remote_value(Dtype::Dict, b"{}").data.unwrap().starts_with("data:application/json;base64,"));
    assert!(create_remote_value(Dtype::ImageList, b"").data.unwrap().starts_with("data:image/avif;base64,"));
    assert_eq!(remote_decode(Dtype::Int32), RemoteDecode::Native("application/vnd.muna.tensor"));
    assert_eq!(remote_decode(Dtype::Image), RemoteDecode::Native("image/*"));
    assert_eq!(remote_decode(Dtype::String), RemoteDecode::Text);
    assert_eq!(remote_decode(Dtype::Binary), RemoteDecode::Binary);
    assert_eq!(remote_decode(Dtype::Null), RemoteDecode::Null);
    match remote_value_url(&RemoteValue { data: None, dtype: Dtype::String }) {
        Err(MunaError::Prediction(m)) => assert_eq!(m, "Remote value has no data URL"),
        _ => panic!("expected an error"),
    }
}

#[test]
fn remote_values_read_back_their_bytes() {
    let cases: [(Dtype, &[u8], RemoteDecode); 5] = [
        (Dtype::String, b"hello", RemoteDecode::Text),
        (Dtype::List, b"[1, 2]", RemoteDecode::List),
        (Dtype::Dict, b"{\"a\": 1}", RemoteDecode::Dict),
        (Dtype::Binary, b"\x00\xff\x10", RemoteDecode::Binary),
        (Dtype::Float32, b"\x00\x00\x80\x3f", RemoteDecode::Native("application/vnd.muna.tensor")),
    ];
    for (dtype, bytes, decode) in cases {
        let value = create_remote_value(dtype, bytes);
        assert_eq!(remote_decode(value.dtype), decode);
        let url = remote_value_url(&value).unwrap();
        match download_value_data(url) {
            Some(Ok(read)) => assert_eq!(read, bytes.to_vec()),
            _ => panic!("expected the bytes back"),
        }
    }
}

#[test]
fn content_parts_pass_decode_or_are_refused() {
    let image = ChatCompletionContentPart::ImageUrl {
        image_url: ChatCompletionContentPartImageUrl { url: "data:image/png;base64,AAAA".to_string(), detail: None },
    };
    assert_eq!(part_action(&image, true, false).unwrap(), PartAction::DecodeImage);
    assert!(matches!(part_action(&image, false, true), Err(MunaError::InvalidInput(m)) if m.contains("image_url")));
    let file = ChatCompletionContentPart::File {
        file: ChatCompletionContentPartFile { file_data: Some("AAAA".to_string()), file_id: None, filename: Some("doc.pdf".to_string()) },
    };
    assert!(matches!(part_action(&file, true, true), Err(MunaError::InvalidInput(m)) if m.contains("File content parts")));
    let text = ChatCompletionContentPart::Text { text: "hi".to_string() };
    assert_eq!(part_action(&text, false, false).unwrap(), PartAction::Pass);
}

#[test]
fn image_data_urls_decode_with_their_media_type() {
    match image_data_url("data:image/png;base64,aGk=") {
        Some(Ok((bytes, mime))) => {
            assert_eq!(bytes, b"hi".to_vec());
            assert_eq!(mime, "image/png");
        },
        _ => panic!("expected an image"),
    }
    match image_data_url("data:;base64,aGk=") {
        Some(Ok((_, mime))) => assert_eq!(mime, "image/*"),
        _ => panic!("expected an image"),
    }
    assert!(matches!(image_data_url("data:image/png"), Some(Err(MunaError::InvalidInput(m))) if m == "Malformed data URL in `image_url` content part."));
    assert!(matches!(image_data_url("data:image/png;base64,%%"), Some(Err(MunaError::InvalidInput(m))) if m == "Failed to decode image data URL: Invalid symbol 37, offset 0."));
    assert!(image_data_url("https://example.com/cat.png").is_none());
    assert!(check_fetched_image("u", 20 * 1024 * 1024).is_ok());
    assert!(matches!(check_fetched_image("u", 20 * 1024 * 1024 + 1), Err(MunaError::InvalidInput(m)) if m == "Image at u exceeds the maximum size of 20971520 bytes."));
}

#[test]
fn audio_parts_need_a_declared_sample_rate() {
    let audio = ChatCompletionContentPartInputAudio { data: "aGk=".to_string(), format: "wav".to_string() };
    assert!(matches!(audio_input(&audio, None), Err(MunaError::Prediction(_))));
    let (bytes, mime) = audio_input(&audio, Some(16_000)).unwrap();
    assert_eq!(bytes, b"hi".to_vec());
    assert_eq!(mime, "audio/wav;rate=16000");
    let broken = ChatCompletionContentPartInputAudio { data: "%%%%".to_string(), format: "wav".to_string() };
    assert!(matches!(audio_input(&broken, Some(16_000)), Err(MunaError::InvalidInput(m)) if m == "Failed to decode audio data: Invalid symbol 37, offset 0."));
}

#[test]
fn prediction_outputs_are_checked_in_order() {
    assert!(matches!(check_prediction_output("m", Some("boom"), None, 0, "chat completion"), Err(MunaError::Prediction(e)) if e == "boom"));
    assert!(matches!(check_prediction_output("m", None, None, 0, "chat completion"), Err(MunaError::Prediction(e)) if e == "m returned no results"));
    assert!(matches!(check_prediction_output("m", None, Some(&[Dtype::Dict]), 1, "chat completion"), Err(MunaError::Prediction(e)) if e == "m returned fewer results than expected"));
    assert!(matches!(check_prediction_output("m", None, Some(&[Dtype::String]), 0, "message"), Err(MunaError::Prediction(e)) if e == "m returned non-dict message output"));
    assert!(check_prediction_output("m", None, Some(&[Dtype::Dict]), 0, "chat completion").is_ok());
    assert!(check_chunk_object(Some("chat.completion.chunk")).is_ok());
    assert!(check_chunk_object(Some("chat.completion")).is_err());
    assert!(check_chunk_object(None).is_err());
    assert!(matches!(tools_parameter("m", &None, true), Err(MunaError::InvalidInput(e)) if e == "m does not support tool calling because it does not declare a tools input parameter."));
    assert_eq!(tools_parameter("m", &None, false).unwrap(), None);
    assert_eq!(tools_parameter("m", &Some("tools".to_string()), true).unwrap(), Some("tools".to_string()));
}
