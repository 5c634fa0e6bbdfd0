use muna::chat::{
    ChatCompletionContent, ChatCompletionContentPart, ChatCompletionContentPartFile, ChatCompletionContentPartImageUrl,
    ChatCompletionContentPartInputAudio, ChatCompletionMessage, ChatCompletionMessageFunctionToolCall,
    ChatCompletionToolCallFunction,
};
use muna::conversation::{normalize_messages, MediaRequest, NormalizedContent, NormalizedPart};
use muna::error::MunaError;

fn message(role: &str, content: Option<ChatCompletionContent>) -> ChatCompletionMessage {
    ChatCompletionMessage { role: role.to_string(), content, reasoning_content: None, tool_calls: None, tool_call_id: None }
}

fn text(t: &str) -> ChatCompletionContentPart {
    ChatCompletionContentPart::Text { text: t.to_string() }
}

fn image(url: &str) -> ChatCompletionContentPart {
    ChatCompletionContentPart::ImageUrl { image_url: ChatCompletionContentPartImageUrl { url: url.to_string(), detail: None } }
}

#[test]
fn normalize_flattens_text_and_passes_strings_through() {
    let messages = vec![
        message("system", Some(ChatCompletionContent::Text("You are a helpful assistant.".to_string()))),
        message("user", Some(ChatCompletionContent::Parts(vec![text("line one"), text("line two")]))),
    ];
    let (media, normalized) = normalize_messages(messages, false, false);
    let normalized = normalized.unwrap();
    assert!(media.is_empty());
    assert_eq!(normalized[0].content, Some(NormalizedContent::Text("You are a helpful assistant.".to_string())));
    assert_eq!(normalized[1].content, Some(NormalizedContent::Text("line one\nline two".to_string())));
}

#[test]
fn normalize_decodes_image_parts_into_placeholders() {
    let messages = vec![message(
        "user",
        Some(ChatCompletionContent::Parts(vec![text("describe this"), image("data:image/png;base64,AAAA")])),
    )];
    let (media, normalized) = normalize_messages(messages, true, false);
    assert_eq!(media, vec![MediaRequest::Image("data:image/png;base64,AAAA".to_string())]);
    assert_eq!(
        normalized.unwrap()[0].content,
        Some(NormalizedContent::Parts(vec![NormalizedPart::Part(text("describe this")), NormalizedPart::ImagePlaceholder]))
    );
}

#[test]
fn normalize_rejects_undeclared_and_file_modalities() {
    let messages = vec![message("user", Some(ChatCompletionContent::Parts(vec![image("data:image/png;base64,AAAA")])))];
    match normalize_messages(messages, false, true).1 {
        Err(MunaError::InvalidInput(m)) => assert_eq!(m, "`image_url` content is not supported by this model."),
        _ => panic!("expected a refusal"),
    }
    let file = ChatCompletionContentPart::File {
        file: ChatCompletionContentPartFile { file_data: Some("AAAA".to_string()), file_id: None, filename: Some("doc.pdf".to_string()) },
    };
    let messages = vec![message("user", Some(ChatCompletionContent::Parts(vec![file])))];
    match normalize_messages(messages, true, true).1 {
        Err(MunaError::InvalidInput(m)) => assert_eq!(m, "File content parts are not yet supported."),
        _ => panic!("expected a refusal"),
    }
}

#[test]
fn normalize_passes_tool_turns_through() {
    let mut call = message("assistant", None);
    call.tool_calls = Some(vec![ChatCompletionMessageFunctionToolCall {
        id: "call_123".to_string(),
        kind: "function".to_string(),
        function: ChatCompletionToolCallFunction { name: "get_weather".to_string(), arguments: "{\"city\": \"Paris\"}".to_string() },
    }]);
    let mut result = message("tool", Some(ChatCompletionContent::Text("18C and sunny".to_string())));
    result.tool_call_id = Some("call_123".to_string());
    let normalized = normalize_messages(vec![call, result], false, false).1.unwrap();
    assert_eq!(normalized[0].tool_calls.as_ref().unwrap()[0].function.name, "get_weather");
    assert_eq!(normalized[0].content, None);
    assert_eq!(normalized[1].role, "tool");
    assert_eq!(normalized[1].tool_call_id.as_deref(), Some("call_123"));
}

#[test]
fn placeholders_stand_for_media_in_order() {
    let audio = ChatCompletionContentPartInputAudio { data: "aGk=".to_string(), format: "wav".to_string() };
    let messages = vec![
        message("user", Some(ChatCompletionContent::Parts(vec![image("a"), ChatCompletionContentPart::InputAudio { input_audio: audio.clone() }]))),
        message("user", Some(ChatCompletionContent::Parts(vec![text("x"), image("b")]))),
    ];
    let (media, normalized) = normalize_messages(messages, true, true);
    assert_eq!(media, vec![MediaRequest::Image("a".to_string()), MediaRequest::Audio(audio), MediaRequest::Image("b".to_string())]);
    let normalized = normalized.unwrap();
    assert_eq!(
        normalized[0].content,
        Some(NormalizedContent::Parts(vec![NormalizedPart::ImagePlaceholder, NormalizedPart::AudioPlaceholder]))
    );
}

#[test]
fn media_before_a_refusal_come_back_with_it() {
    let messages = vec![
        message("user", Some(ChatCompletionContent::Parts(vec![image("a")]))),
        message("user", Some(ChatCompletionContent::Parts(vec![image("b"), ChatCompletionContentPart::InputAudio {
            input_audio: ChatCompletionContentPartInputAudio { data: String::new(), format: "wav".to_string() },
        }, image("c")]))),
    ];
    let (media, normalized) = normalize_messages(messages, true, false);
    assert_eq!(media, vec![MediaRequest::Image("a".to_string()), MediaRequest::Image("b".to_string())]);
    assert!(matches!(normalized, Err(MunaError::InvalidInput(m)) if m == "`input_audio` content is not supported by this model."));
}
