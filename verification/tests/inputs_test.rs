use muna::delegate::{bind_chat_parameters, ChatInputPresence};
use muna::dtype::Dtype;
use muna::error::MunaError;
use muna::types::{Parameter, Signature};

fn param(name: &str, dtype: Dtype, optional: bool, denotation: Option<&str>) -> Parameter {
    Parameter {
        name: name.to_string(),
        dtype: Some(dtype),
        description: None,
        denotation: denotation.map(|d| d.to_string()),
        optional: if optional { Some(true) } else { None },
        enumeration: None,
        schema_title: None,
        max: None,
        context_length: None,
        sample_rate: None,
    }
}

fn signature(inputs: Vec<Parameter>) -> Signature {
    Signature { inputs, outputs: vec![] }
}

#[test]
fn binds_by_role_not_by_name() {
    let signature = signature(vec![
        param("conversation", Dtype::List, false, None),
        param("functions", Dtype::List, true, Some("openai.chat.completions.tools")),
        param("heat", Dtype::Float32, true, Some("openai.chat.completions.temperature")),
        param("budget", Dtype::Int32, true, Some("openai.chat.completions.max_output_tokens")),
        param("effort", Dtype::String, true, Some("openai.chat.completions.reasoning_effort")),
        param("format", Dtype::Dict, true, Some("openai.chat.completions.response_format")),
        param("stops", Dtype::List, true, Some("anthropic.messages.stop_sequences")),
        param("k", Dtype::Int32, true, Some("anthropic.messages.top_k")),
    ]);
    let present = ChatInputPresence {
        tools: true,
        response_format: true,
        reasoning_effort: true,
        max_output_tokens: true,
        temperature: true,
        top_p: true,
        frequency_penalty: false,
        presence_penalty: false,
        stop_sequences: true,
        top_k: true,
    };
    let binding = bind_chat_parameters(present, &signature).unwrap();
    assert_eq!(binding.messages, "conversation");
    assert_eq!(binding.tools.as_deref(), Some("functions"));
    assert_eq!(binding.temperature.as_deref(), Some("heat"));
    assert_eq!(binding.max_output_tokens.as_deref(), Some("budget"));
    assert_eq!(binding.reasoning_effort.as_deref(), Some("effort"));
    assert_eq!(binding.response_format.as_deref(), Some("format"));
    assert_eq!(binding.stop_sequences.as_deref(), Some("stops"));
    assert_eq!(binding.top_k.as_deref(), Some("k"));
    // `top_p` set but undeclared: silently dropped, nothing else bound.
    assert_eq!(binding.top_p, None);
    assert_eq!(binding.frequency_penalty, None);
    assert_eq!(binding.presence_penalty, None);
}

#[test]
fn undeclared_knobs_are_dropped_without_error() {
    let signature = signature(vec![param("messages", Dtype::List, false, None)]);
    let present = ChatInputPresence { temperature: true, max_output_tokens: true, ..Default::default() };
    let binding = bind_chat_parameters(present, &signature).unwrap();
    assert_eq!(binding.messages, "messages");
    assert_eq!(binding.temperature, None);
    assert_eq!(binding.max_output_tokens, None);
}

#[test]
fn tools_without_a_tools_parameter_is_a_caller_error() {
    let signature = signature(vec![param("messages", Dtype::List, false, None)]);
    let present = ChatInputPresence { tools: true, ..Default::default() };
    assert!(matches!(bind_chat_parameters(present, &signature), Err(MunaError::InvalidInput(_))));
    assert!(bind_chat_parameters(ChatInputPresence::default(), &signature).is_ok());
}

#[test]
fn rejects_signatures_without_a_single_required_list_input() {
    let none = signature(vec![param("x", Dtype::List, true, None)]);
    let two = signature(vec![param("a", Dtype::List, false, None), param("b", Dtype::List, false, None)]);
    let not_list = signature(vec![param("prompt", Dtype::String, false, None)]);
    for signature in [none, two, not_list] {
        assert!(matches!(
            bind_chat_parameters(ChatInputPresence::default(), &signature),
            Err(MunaError::Prediction(_))
        ));
    }
}

#[test]
fn binding_errors_say_what_is_wrong() {
    let two = signature(vec![param("a", Dtype::List, false, None), param("b", Dtype::List, false, None)]);
    match bind_chat_parameters(ChatInputPresence::default(), &two) {
        Err(MunaError::Prediction(m)) => assert_eq!(
            m,
            "This predictor cannot be used as a chat predictor because it declares 2 required input parameters; chat predictors declare exactly one (the messages input)."
        ),
        _ => panic!("expected a prediction error"),
    }
}
