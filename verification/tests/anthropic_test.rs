use muna::anthropic::{
    apply_event, events_from_chunks, map_finish_reason, translate_message_for_openai, BlockKind, ContentBlock,
    ContentBlockDelta, ContentBlockParam, Message, MessageContent, MessageDelta, MessageEventState, MessageParam,
    RawMessageStreamEvent, StopReason, TextBlockParam, TextContent, ToolInput, Usage,
};
use muna::chat::{
    ChatCompletionChunk, ChatCompletionChunkChoice, ChatCompletionContent, ChatCompletionDelta, ChatCompletionToolCallDelta,
    ChatCompletionToolCallFunctionDelta, ChatCompletionUsage, PromptTokensDetails,
};

fn chunk(delta: ChatCompletionDelta, finish_reason: Option<&str>, usage: Option<ChatCompletionUsage>) -> ChatCompletionChunk {
    ChatCompletionChunk {
        object: "chat.completion.chunk".to_string(),
        id: "msg-test".to_string(),
        model: "test-model".to_string(),
        choices: vec![ChatCompletionChunkChoice { index: 0, delta: Some(delta), finish_reason: finish_reason.map(str::to_string) }],
        created: 0,
        usage,
    }
}

fn accumulate(events: Vec<RawMessageStreamEvent>) -> Message {
    let mut message = None;
    for event in events {
        apply_event(&mut message, event);
    }
    message.unwrap()
}

fn tool_fragment(id: Option<&str>, name: Option<&str>, arguments: &str) -> ChatCompletionToolCallDelta {
    ChatCompletionToolCallDelta {
        index: 0,
        id: id.map(str::to_string),
        kind: id.map(|_| "function".to_string()),
        function: Some(ChatCompletionToolCallFunctionDelta { name: name.map(str::to_string), arguments: Some(arguments.to_string()) }),
    }
}

#[test]
fn chunks_become_ordered_events() {
    let events = events_from_chunks(&[
        chunk(
            ChatCompletionDelta { role: Some("assistant".to_string()), content: None, reasoning_content: Some("Let me think.".to_string()), tool_calls: None },
            None,
            None,
        ),
        chunk(
            ChatCompletionDelta { role: None, content: Some("Paris.".to_string()), reasoning_content: None, tool_calls: None },
            Some("stop"),
            Some(ChatCompletionUsage {
                prompt_tokens: 10,
                completion_tokens: 5,
                total_tokens: 15,
                prompt_tokens_details: Some(PromptTokensDetails { audio_tokens: None, cache_write_tokens: Some(2), cached_tokens: Some(3) }),
                completion_tokens_details: None,
            }),
        ),
    ]);
    let types: Vec<&str> = events.iter().map(|e| e.event_type()).collect();
    assert_eq!(
        types,
        vec![
            "message_start",
            "content_block_start",
            "content_block_delta",
            "content_block_stop",
            "content_block_start",
            "content_block_delta",
            "content_block_stop",
            "message_delta",
            "message_stop",
        ]
    );
    let message = accumulate(events);
    assert!(matches!(&message.content[0], ContentBlock::Thinking { thinking, .. } if thinking == "Let me think."));
    assert!(matches!(&message.content[1], ContentBlock::Text { text } if text == "Paris."));
    assert_eq!(message.stop_reason, Some(StopReason::EndTurn));
    assert_eq!(message.usage.input_tokens, Some(5));
    assert_eq!(message.usage.output_tokens, 5);
    assert_eq!(message.usage.cache_read_input_tokens, Some(3));
    assert_eq!(message.usage.cache_creation_input_tokens, Some(2));
}

#[test]
fn length_finish_reason_maps_to_max_tokens() {
    let events = events_from_chunks(&[chunk(
        ChatCompletionDelta { role: Some("assistant".to_string()), content: Some("Hello".to_string()), reasoning_content: None, tool_calls: None },
        Some("length"),
        None,
    )]);
    let message = accumulate(events);
    assert_eq!(message.stop_reason, Some(StopReason::MaxTokens));
}

#[test]
fn tool_call_deltas_become_tool_use_blocks() {
    let deltas = vec![
        ChatCompletionDelta {
            role: Some("assistant".to_string()),
            tool_calls: Some(vec![tool_fragment(Some("call_test_0"), Some("get_weather"), "")]),
            ..Default::default()
        },
        ChatCompletionDelta { tool_calls: Some(vec![tool_fragment(None, None, "{\"location\": ")]), ..Default::default() },
        ChatCompletionDelta { tool_calls: Some(vec![tool_fragment(None, None, "\"Paris\"}")]), ..Default::default() },
    ];
    let mut chunks: Vec<ChatCompletionChunk> = deltas.into_iter().map(|delta| chunk(delta, None, None)).collect();
    chunks.push(chunk(ChatCompletionDelta::default(), Some("tool_calls"), None));
    let events = events_from_chunks(&chunks);
    let start = events.iter().find(|e| e.event_type() == "content_block_start").unwrap();
    assert!(matches!(start, RawMessageStreamEvent::ContentBlockStart { content_block: ContentBlock::ToolUse { .. }, .. }));
    let delta = events.iter().find(|e| e.event_type() == "content_block_delta").unwrap();
    assert!(matches!(delta, RawMessageStreamEvent::ContentBlockDelta { delta: ContentBlockDelta::InputJsonDelta { .. }, .. }));
    let message = accumulate(events);
    match &message.content[0] {
        ContentBlock::ToolUse { id, name, input: ToolInput::Parsed(json) } => {
            assert_eq!(id, "call_test_0");
            assert_eq!(name, "get_weather");
            let parsed: serde_json::Value = serde_json::from_str(json).unwrap();
            let expected: serde_json::Value = serde_json::from_str("{\"location\": \"Paris\"}").unwrap();
            assert_eq!(parsed, expected);
        },
        other => panic!("expected a tool-use block, got {:?}", other),
    }
    assert_eq!(message.stop_reason, Some(StopReason::ToolUse));
}

#[test]
fn tool_blocks_translate_to_openai_messages() {
    let assistant = MessageParam {
        role: "assistant".to_string(),
        content: MessageContent::Blocks(vec![
            ContentBlockParam::Text { text: "Checking the weather.".to_string() },
            ContentBlockParam::ToolUse { id: "call_123".to_string(), name: "get_weather".to_string(), input: "{\"city\":\"Paris\"}".to_string() },
        ]),
    };
    let user = MessageParam {
        role: "user".to_string(),
        content: MessageContent::Blocks(vec![ContentBlockParam::ToolResult {
            tool_use_id: "call_123".to_string(),
            content: Some(TextContent::Text("18C and sunny".to_string())),
            is_error: None,
        }]),
    };
    let mut messages = Vec::new();
    translate_message_for_openai(&assistant, &mut messages);
    translate_message_for_openai(&user, &mut messages);
    assert_eq!(messages.len(), 3);
    assert_eq!(messages[0].role, "assistant");
    assert!(matches!(&messages[0].content, Some(ChatCompletionContent::Text(t)) if t == "Checking the weather."));
    let calls = messages[1].tool_calls.as_ref().unwrap();
    assert_eq!(calls[0].id, "call_123");
    assert_eq!(calls[0].function.arguments, "{\"city\":\"Paris\"}");
    assert_eq!(messages[2].role, "tool");
    assert_eq!(messages[2].tool_call_id.as_deref(), Some("call_123"));
    assert!(matches!(&messages[2].content, Some(ChatCompletionContent::Text(t)) if t == "18C and sunny"));
}

#[test]
fn events_accumulate_to_final_message() {
    let events = vec![
        RawMessageStreamEvent::MessageStart {
            message: Message {
                id: "msg-1".to_string(),
                kind: "message".to_string(),
                role: "assistant".to_string(),
                content: Vec::new(),
                model: "test-model".to_string(),
                stop_reason: None,
                stop_sequence: None,
                usage: Usage { input_tokens: Some(10), ..Default::default() },
            },
        },
        RawMessageStreamEvent::ContentBlockStart { index: 0, content_block: ContentBlock::Text { text: String::new() } },
        RawMessageStreamEvent::ContentBlockDelta { index: 0, delta: ContentBlockDelta::TextDelta { text: "Par".to_string() } },
        RawMessageStreamEvent::ContentBlockDelta { index: 0, delta: ContentBlockDelta::TextDelta { text: "is.".to_string() } },
        RawMessageStreamEvent::ContentBlockStop { index: 0 },
        RawMessageStreamEvent::MessageDelta {
            delta: MessageDelta { stop_reason: Some(StopReason::EndTurn), stop_sequence: None },
            usage: Usage { input_tokens: Some(10), output_tokens: 5, ..Default::default() },
        },
        RawMessageStreamEvent::MessageStop,
    ];
    let message = accumulate(events);
    assert!(matches!(&message.content[0], ContentBlock::Text { text } if text == "Paris."));
    assert_eq!(message.stop_reason, Some(StopReason::EndTurn));
    assert_eq!(message.usage.input_tokens, Some(10));
    assert_eq!(message.usage.output_tokens, 5);
}

#[test]
fn finish_reasons_map_to_stop_reasons() {
    assert_eq!(map_finish_reason("length"), StopReason::MaxTokens);
    assert_eq!(map_finish_reason("content_filter"), StopReason::Refusal);
    assert_eq!(map_finish_reason("tool_calls"), StopReason::ToolUse);
    assert_eq!(map_finish_reason("stop"), StopReason::EndTurn);
    assert_eq!(map_finish_reason(""), StopReason::EndTurn);
}

#[test]
fn unparsable_tool_input_becomes_the_empty_object() {
    let mut message = None;
    apply_event(&mut message, RawMessageStreamEvent::MessageStart {
        message: Message {
            id: "m".to_string(),
            kind: "message".to_string(),
            role: "assistant".to_string(),
            content: Vec::new(),
            model: "x".to_string(),
            stop_reason: None,
            stop_sequence: None,
            usage: Usage::default(),
        },
    });
    let kind = BlockKind::ToolUse { id: "t".to_string(), name: "f".to_string() };
    apply_event(&mut message, RawMessageStreamEvent::ContentBlockStart { index: 0, content_block: kind.empty_block() });
    apply_event(&mut message, RawMessageStreamEvent::ContentBlockDelta { index: 0, delta: kind.delta("{\"a\": ") });
    apply_event(&mut message, RawMessageStreamEvent::ContentBlockStop { index: 0 });
    let message = message.unwrap();
    assert!(matches!(&message.content[0], ContentBlock::ToolUse { input: ToolInput::Empty, .. }));
}

#[test]
fn events_before_a_message_start_are_ignored() {
    let mut message = None;
    apply_event(&mut message, RawMessageStreamEvent::ContentBlockStop { index: 0 });
    assert!(message.is_none());
}

#[test]
fn stream_state_emits_events_chunk_by_chunk() {
    let mut state = MessageEventState::new();
    let first = state.push_chunk(&chunk(ChatCompletionDelta { content: Some("Hi".to_string()), ..Default::default() }, None, None));
    assert_eq!(first.iter().map(|e| e.event_type()).collect::<Vec<_>>(), vec!["message_start", "content_block_start", "content_block_delta"]);
    let second = state.push_chunk(&chunk(ChatCompletionDelta { content: Some("".to_string()), ..Default::default() }, None, None));
    assert!(second.is_empty());
    let last = state.finish();
    assert_eq!(last.iter().map(|e| e.event_type()).collect::<Vec<_>>(), vec!["content_block_stop", "message_delta", "message_stop"]);
}

#[test]
fn text_content_flattens_blocks_with_newlines() {
    let content = TextContent::Blocks(vec![TextBlockParam { text: "a".to_string() }, TextBlockParam { text: "b".to_string() }]);
    assert_eq!(content.flatten(), "a\nb");
    let message = MessageContent::Blocks(vec![
        ContentBlockParam::Text { text: "x".to_string() },
        ContentBlockParam::ToolUse { id: "i".to_string(), name: "n".to_string(), input: "{}".to_string() },
        ContentBlockParam::Text { text: "y".to_string() },
    ]);
    assert_eq!(message.flatten(), "x\ny");
}

#[test]
fn input_json_deltas_and_a_stop_build_the_tool_input() {
    let kind = BlockKind::ToolUse { id: "t".to_string(), name: "get_weather".to_string() };
    let mut events = vec![
        RawMessageStreamEvent::MessageStart {
            message: Message {
                id: "m".to_string(),
                kind: "message".to_string(),
                role: "assistant".to_string(),
                content: Vec::new(),
                model: "x".to_string(),
                stop_reason: None,
                stop_sequence: None,
                usage: Usage::default(),
            },
        },
        RawMessageStreamEvent::ContentBlockStart { index: 0, content_block: kind.empty_block() },
    ];
    for fragment in ["{\"location\": ", "\"Paris\"}"] {
        events.push(RawMessageStreamEvent::ContentBlockDelta { index: 0, delta: kind.delta(fragment) });
    }
    events.push(RawMessageStreamEvent::ContentBlockStop { index: 0 });
    let message = accumulate(events);
    match &message.content[0] {
        ContentBlock::ToolUse { id, name, input: ToolInput::Parsed(json) } => {
            assert_eq!(id, "t");
            assert_eq!(name, "get_weather");
            assert_eq!(json, "{\"location\": \"Paris\"}");
        }
        other => panic!("unexpected block {other:?}"),
    }
}

#[test]
fn the_closing_delta_carries_the_stream_stop_and_usage() {
    let usage = |prompt: u32, completion: u32, cached: Option<u32>| ChatCompletionUsage {
        prompt_tokens: prompt,
        completion_tokens: completion,
        total_tokens: prompt + completion,
        prompt_tokens_details: Some(PromptTokensDetails { audio_tokens: None, cache_write_tokens: None, cached_tokens: cached }),
        completion_tokens_details: None,
    };
    let text = |t: &str| ChatCompletionDelta { content: Some(t.to_string()), ..Default::default() };
    let chunks = vec![
        chunk(text("a"), Some("tool_calls"), Some(usage(10, 3, Some(4)))),
        chunk(text("b"), Some("length"), None),
        chunk(text("c"), None, Some(usage(12, 5, Some(2)))),
    ];
    let events = events_from_chunks(&chunks);
    let n = events.len();
    assert_eq!(events[n - 1], RawMessageStreamEvent::MessageStop);
    assert_eq!(
        events[n - 2],
        RawMessageStreamEvent::MessageDelta {
            delta: MessageDelta { stop_reason: Some(StopReason::MaxTokens), stop_sequence: None },
            usage: Usage {
                input_tokens: Some(10),
                output_tokens: 8,
                cache_creation_input_tokens: None,
                cache_read_input_tokens: Some(2),
            },
        }
    );
}

#[test]
fn stream_events_have_the_message_structure() {
    let thinking = ChatCompletionDelta { reasoning_content: Some("hm".to_string()), ..Default::default() };
    let both = ChatCompletionDelta { reasoning_content: Some("more".to_string()), content: Some("Hi".to_string()), ..Default::default() };
    let tools = ChatCompletionDelta {
        tool_calls: Some(vec![tool_fragment(Some("a"), Some("f"), "{}"), tool_fragment(Some("b"), Some("g"), "{\"x\": 1}")]),
        ..Default::default()
    };
    let events = events_from_chunks(&[chunk(thinking, None, None), chunk(both, None, None), chunk(tools, Some("tool_calls"), None)]);
    assert!(matches!(events[0], RawMessageStreamEvent::MessageStart { .. }));
    let (mut next, mut open) = (0usize, false);
    for event in &events[1..events.len() - 2] {
        match event {
            RawMessageStreamEvent::ContentBlockStart { index, .. } => {
                assert!(!open && *index == next);
                next += 1;
                open = true;
            }
            RawMessageStreamEvent::ContentBlockDelta { index, .. } => assert!(open && *index + 1 == next),
            RawMessageStreamEvent::ContentBlockStop { index } => {
                assert!(open && *index + 1 == next);
                open = false;
            }
            other => panic!("unexpected event {other:?}"),
        }
    }
    assert!(!open);
    assert_eq!(next, 4);
    assert!(matches!(events[events.len() - 2], RawMessageStreamEvent::MessageDelta { .. }));
    assert_eq!(events[events.len() - 1], RawMessageStreamEvent::MessageStop);
}
