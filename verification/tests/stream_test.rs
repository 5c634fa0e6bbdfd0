use muna::anthropic::{accumulate_message, events_from_chunks, RawMessageStreamEvent};
use muna::chat::{ChatCompletionChunk, ChatCompletionChunkChoice, ChatCompletionDelta};
use muna::conversation::{check_embedding_output, embedding_rows, EmbeddingValueKind};
use muna::error::MunaError;
use muna::sse::{next_sse_block, parse_sse_block};

#[test]
fn sse_buffers_split_at_blank_lines() {
    assert_eq!(
        next_sse_block("event: a\ndata: 1\n\nevent: b"),
        Some(("event: a\ndata: 1".to_string(), "event: b".to_string()))
    );
    assert_eq!(next_sse_block("data: partial\n"), None);
    assert_eq!(next_sse_block("\n\n"), Some((String::new(), String::new())));
}

#[test]
fn sse_splits_lose_nothing() {
    let buffer = "data: a\n\ndata: b\n\ndata: c";
    let (block, rest) = next_sse_block(buffer).unwrap();
    assert_eq!(format!("{block}\n\n{rest}"), buffer);
    assert!(!block.contains("\n\n"));
    let (second, tail) = next_sse_block(&rest).unwrap();
    assert_eq!(second, "data: b");
    assert_eq!(tail, "data: c");
    assert_eq!(next_sse_block(&tail), None);
}

#[test]
fn sse_blocks_keep_the_last_event_and_data_lines() {
    assert_eq!(parse_sse_block("event: prediction\ndata: {\"id\": 1}"), ("prediction".to_string(), "{\"id\": 1}".to_string()));
    assert_eq!(parse_sse_block("data: one\r\ndata:  two  \n: comment"), (String::new(), "two".to_string()));
    assert_eq!(parse_sse_block("id: 7"), (String::new(), String::new()));
    assert_eq!(parse_sse_block(""), (String::new(), String::new()));
    assert_eq!(parse_sse_block("event:\u{a0}x\u{3000}"), ("x".to_string(), String::new()));
}

#[test]
fn messages_accumulate_from_their_events() {
    let chunk = ChatCompletionChunk {
        object: "chat.completion.chunk".to_string(),
        id: "msg-1".to_string(),
        model: "m".to_string(),
        choices: vec![ChatCompletionChunkChoice {
            index: 0,
            delta: Some(ChatCompletionDelta { content: Some("Hi".to_string()), ..Default::default() }),
            finish_reason: None,
        }],
        created: 0,
        usage: None,
    };
    let message = accumulate_message(events_from_chunks(&[chunk])).unwrap();
    assert_eq!(message.id, "msg-1");
    assert_eq!(message.kind, "message");
    assert_eq!(message.role, "assistant");
    assert_eq!(message.content.len(), 1);
    match accumulate_message(vec![RawMessageStreamEvent::MessageStop]) {
        Err(MunaError::Prediction(m)) => assert_eq!(m, "Failed to create message because the model did not return any outputs"),
        _ => panic!("expected an error"),
    }
}

#[test]
fn embedding_matrices_split_into_rows() {
    assert_eq!(embedding_rows("m", &[2, 3], 6).unwrap(), vec![(0, 3), (3, 6)]);
    assert_eq!(embedding_rows("m", &[0, 3], 0).unwrap(), vec![]);
    assert_eq!(embedding_rows("m", &[0, -4], 0).unwrap(), vec![]);
    match embedding_rows("m", &[1, 2, 3], 6) {
        Err(MunaError::Prediction(e)) => assert_eq!(e, "m returned embedding matrix with invalid shape: [1, 2, 3]"),
        _ => panic!("expected an error"),
    }
    match embedding_rows("m", &[], 6) {
        Err(MunaError::Prediction(e)) => assert_eq!(e, "m returned embedding matrix with invalid shape: []"),
        _ => panic!("expected an error"),
    }
    match embedding_rows("m", &[-4], 6) {
        Err(MunaError::Prediction(e)) => assert_eq!(e, "m returned embedding matrix with invalid shape: [-4]"),
        _ => panic!("expected an error"),
    }
}

#[test]
fn embedding_outputs_must_be_float32_tensors() {
    let kinds = [EmbeddingValueKind::NotTensor, EmbeddingValueKind::Float32Tensor, EmbeddingValueKind::OtherTensor];
    assert!(check_embedding_output("m", None, Some(&kinds), 1).is_ok());
    let message = |r: Result<(), MunaError>| match r {
        Err(MunaError::Prediction(m)) => m,
        _ => panic!("expected an error"),
    };
    assert_eq!(message(check_embedding_output("m", Some("boom"), Some(&kinds), 1)), "boom");
    assert_eq!(message(check_embedding_output("m", None, None, 0)), "m returned no results");
    assert_eq!(message(check_embedding_output("m", None, Some(&kinds), 3)), "m returned fewer results than expected");
    assert_eq!(message(check_embedding_output("m", None, Some(&kinds), 0)), "m returned non-tensor embedding value");
    assert_eq!(message(check_embedding_output("m", None, Some(&kinds), 2)), "m returned embedding matrix with invalid data type");
}
