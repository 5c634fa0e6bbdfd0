use muna::chat::{
    create_completion_choice, merge_chunks, merge_tool_calls, ChatCompletionChunk, ChatCompletionChunkChoice,
    ChatCompletionContent, ChatCompletionContentPart, ChatCompletionContentPartImageUrl, ChatCompletionDelta,
    ChatCompletionToolCallDelta, ChatCompletionToolCallFunctionDelta, ChatCompletionUsage, CompletionTokensDetails,
    PromptTokensDetails,
};
use muna::error::MunaError;

fn choice(index: usize, delta: ChatCompletionDelta, finish_reason: Option<&str>) -> ChatCompletionChunkChoice {
    ChatCompletionChunkChoice { index, delta: Some(delta), finish_reason: finish_reason.map(|s| s.to_string()) }
}

fn chunk(delta: ChatCompletionDelta, usage: Option<ChatCompletionUsage>) -> ChatCompletionChunk {
    ChatCompletionChunk {
        object: "chat.completion.chunk".to_string(),
        id: "chatcmpl-test".to_string(),
        model: "test-model".to_string(),
        choices: vec![choice(0, delta, None)],
        created: 0,
        usage,
    }
}

fn tool_fragment(index: usize, id: Option<&str>, name: Option<&str>, arguments: Option<&str>) -> ChatCompletionToolCallDelta {
    ChatCompletionToolCallDelta {
        index,
        id: id.map(|s| s.to_string()),
        kind: id.map(|_| "function".to_string()),
        function: Some(ChatCompletionToolCallFunctionDelta {
            name: name.map(|s| s.to_string()),
            arguments: arguments.map(|s| s.to_string()),
        }),
    }
}

fn text(s: &str) -> Option<String> {
    Some(s.to_string())
}

#[test]
fn merge_accumulates_reasoning_and_content() {
    let chunks = vec![
        chunk(ChatCompletionDelta { role: text("assistant"), content: None, reasoning_content: text("Let me "), tool_calls: None }, None),
        chunk(ChatCompletionDelta { role: None, content: None, reasoning_content: text("think."), tool_calls: None }, None),
        chunk(
            ChatCompletionDelta { role: None, content: text("Paris."), reasoning_content: None, tool_calls: None },
            Some(ChatCompletionUsage {
                prompt_tokens: 10,
                completion_tokens: 5,
                total_tokens: 15,
                prompt_tokens_details: None,
                completion_tokens_details: Some(CompletionTokensDetails { reasoning_tokens: Some(3) }),
            }),
        ),
    ];
    let completion = merge_chunks(chunks).unwrap();
    let message = &completion.choices[0].message;
    assert_eq!(message.content.as_ref().map(|c| c.flatten()), Some("Paris.".to_string()));
    assert_eq!(message.reasoning_content.as_deref(), Some("Let me think."));
    let usage = completion.usage.unwrap();
    let details = usage.completion_tokens_details.unwrap();
    assert_eq!(details.reasoning_tokens, Some(3));
}

#[test]
fn content_flatten_joins_text_parts() {
    let content = ChatCompletionContent::Parts(vec![
        ChatCompletionContentPart::Text { text: "line one".to_string() },
        ChatCompletionContentPart::Text { text: "line two".to_string() },
        ChatCompletionContentPart::Refusal { refusal: "I cannot help with that.".to_string() },
    ]);
    assert!(content.is_text());
    assert_eq!(content.flatten(), "line one\nline two\nI cannot help with that.");
    let mixed = ChatCompletionContent::Parts(vec![
        ChatCompletionContentPart::Text { text: "describe this".to_string() },
        ChatCompletionContentPart::ImageUrl {
            image_url: ChatCompletionContentPartImageUrl { url: "https://example.com/cat.png".to_string(), detail: None },
        },
    ]);
    assert!(!mixed.is_text());
}

#[test]
fn merge_accumulates_tool_call_fragments() {
    let deltas = vec![
        ChatCompletionDelta {
            role: text("assistant"),
            content: None,
            reasoning_content: None,
            tool_calls: Some(vec![tool_fragment(0, Some("call_test_0"), Some("get_weather"), Some(""))]),
        },
        ChatCompletionDelta { tool_calls: Some(vec![tool_fragment(0, None, None, Some("{\"location\": "))]), ..Default::default() },
        ChatCompletionDelta { tool_calls: Some(vec![tool_fragment(0, None, None, Some("\"Paris\"}"))]), ..Default::default() },
    ];
    let chunks: Vec<ChatCompletionChunk> = deltas.into_iter().map(|delta| chunk(delta, None)).collect();
    let completion = merge_chunks(chunks).unwrap();
    let calls = completion.choices[0].message.tool_calls.as_ref().unwrap();
    assert_eq!(calls.len(), 1);
    assert_eq!(calls[0].id, "call_test_0");
    assert_eq!(calls[0].function.name, "get_weather");
    assert_eq!(calls[0].function.arguments, "{\"location\": \"Paris\"}");
}

#[test]
fn merge_without_reasoning_leaves_field_absent() {
    let chunks = vec![chunk(
        ChatCompletionDelta { role: text("assistant"), content: text("Hello."), reasoning_content: None, tool_calls: None },
        None,
    )];
    let completion = merge_chunks(chunks).unwrap();
    let message = &completion.choices[0].message;
    assert_eq!(message.reasoning_content, None);
}

#[test]
fn merge_of_no_chunks_is_an_error() {
    match merge_chunks(vec![]) {
        Err(MunaError::Prediction(m)) => {
            assert_eq!(m, "Failed to parse chat completion because model did not return any outputs")
        },
        _ => panic!("expected an error"),
    }
}

#[test]
fn merge_orders_choices_by_index_and_sums_usage() {
    let usage = |p: u32, c: u32, cached: Option<u32>| ChatCompletionUsage {
        prompt_tokens: p,
        completion_tokens: c,
        total_tokens: p + c,
        prompt_tokens_details: cached.map(|t| PromptTokensDetails { audio_tokens: None, cache_write_tokens: None, cached_tokens: Some(t) }),
        completion_tokens_details: None,
    };
    let first = ChatCompletionChunk {
        object: "chat.completion.chunk".to_string(),
        id: "first".to_string(),
        model: "m".to_string(),
        choices: vec![
            choice(2, ChatCompletionDelta { content: text("b1"), ..Default::default() }, None),
            choice(0, ChatCompletionDelta { role: text("bot"), content: text("a1"), ..Default::default() }, None),
        ],
        created: 7,
        usage: Some(usage(1, 2, Some(9))),
    };
    let second = ChatCompletionChunk {
        object: "chat.completion.chunk".to_string(),
        id: "second".to_string(),
        model: "other".to_string(),
        choices: vec![
            choice(0, ChatCompletionDelta { content: text("a2"), ..Default::default() }, Some("stop")),
            choice(2, ChatCompletionDelta { content: text("b2"), ..Default::default() }, Some("length")),
        ],
        created: 8,
        usage: Some(usage(3, 4, None)),
    };
    let completion = merge_chunks(vec![first, second]).unwrap();
    assert_eq!(completion.object, "chat.completion");
    assert_eq!(completion.id, "first");
    assert_eq!(completion.model, "m");
    assert_eq!(completion.created, 7);
    assert_eq!(completion.choices.len(), 2);
    assert_eq!(completion.choices[0].index, 0);
    assert_eq!(completion.choices[0].message.role, "bot");
    assert_eq!(completion.choices[0].message.content.as_ref().unwrap().flatten(), "a1a2");
    assert_eq!(completion.choices[0].finish_reason.as_deref(), Some("stop"));
    assert_eq!(completion.choices[1].index, 2);
    assert_eq!(completion.choices[1].message.role, "assistant");
    assert_eq!(completion.choices[1].message.content.as_ref().unwrap().flatten(), "b1b2");
    assert_eq!(completion.choices[1].finish_reason.as_deref(), Some("length"));
    let usage = completion.usage.unwrap();
    assert_eq!((usage.prompt_tokens, usage.completion_tokens, usage.total_tokens), (4, 6, 10));
    assert_eq!(usage.prompt_tokens_details.unwrap().cached_tokens, Some(9));
}

#[test]
fn tool_calls_merge_per_index_in_index_order() {
    let choices = vec![
        choice(
            0,
            ChatCompletionDelta {
                tool_calls: Some(vec![
                    tool_fragment(1, Some("b"), Some("second"), Some("{")),
                    tool_fragment(0, Some("a"), Some("first"), Some("[")),
                ]),
                ..Default::default()
            },
            None,
        ),
        choice(
            0,
            ChatCompletionDelta {
                tool_calls: Some(vec![tool_fragment(1, None, None, Some("}")), tool_fragment(0, None, Some("renamed"), Some("]"))]),
                ..Default::default()
            },
            None,
        ),
    ];
    let calls = merge_tool_calls(&choices).unwrap();
    assert_eq!(calls.len(), 2);
    assert_eq!((calls[0].id.as_str(), calls[0].function.name.as_str(), calls[0].function.arguments.as_str()), ("a", "renamed", "[]"));
    assert_eq!((calls[1].id.as_str(), calls[1].function.name.as_str(), calls[1].function.arguments.as_str()), ("b", "second", "{}"));
    assert_eq!(calls[0].kind, "function");
    assert!(merge_tool_calls(&[choice(0, ChatCompletionDelta::default(), None)]).is_none());
}

#[test]
fn completion_choice_defaults_to_assistant_with_empty_content() {
    let made = create_completion_choice(3, vec![]);
    assert_eq!(made.index, 3);
    assert_eq!(made.message.role, "assistant");
    assert_eq!(made.message.content.as_ref().unwrap().flatten(), "");
    assert_eq!(made.message.reasoning_content, None);
    assert!(made.message.tool_calls.is_none());
    assert_eq!(made.finish_reason, None);
}
