use ssm_moe::server::{
    chat_completions, chat_response, health, last_user_prompt, list_models, listen_address,
    session_id, uuid_like, ChatCompletionRequest, ChatError, ChatMessage,
};

fn message(role: &str, content: &str) -> ChatMessage {
    ChatMessage { role: role.to_string(), content: content.to_string() }
}

#[test]
fn session_falls_back_from_user_to_header() {
    let s = |x: &str| Some(x.to_string());
    assert_eq!(session_id(s("u"), s("h")), "u");
    assert_eq!(session_id(None, s("h")), "h");
    assert_eq!(session_id(None, None), "default");
}

#[test]
fn last_user_message_is_the_prompt() {
    let m = [
        message("system", "s"),
        message("user", "first"),
        message("user", "second"),
        message("assistant", "a"),
    ];
    assert_eq!(last_user_prompt(&m).unwrap(), "second");
    let e = last_user_prompt(&m[..1]).unwrap_err();
    assert_eq!(e.answer(), (400, "no user message in request".to_string()));
    assert!(last_user_prompt(&[]).is_err());
}

#[test]
fn request_becomes_a_task() {
    let req = |role: &str, user: Option<&str>| ChatCompletionRequest {
        model: Some("any".to_string()),
        messages: vec![message("user", "old"), message("assistant", "a"), message(role, "new")],
        user: user.map(String::from),
    };
    let t = chat_completions(req("user", Some("u")), Some("h".to_string())).unwrap();
    assert_eq!((t.session_id.as_str(), t.prompt.as_str()), ("u", "new"));
    let t = chat_completions(req("system", None), Some("h".to_string())).unwrap();
    assert_eq!((t.session_id.as_str(), t.prompt.as_str()), ("h", "old"));
    let empty = ChatCompletionRequest { model: None, messages: vec![], user: None };
    assert!(matches!(chat_completions(empty, None), Err(ChatError::NoUserMessage)));
}

#[test]
fn failures_are_answered() {
    assert_eq!(
        ChatError::TaskJoin("x".to_string()).answer(),
        (500, "task join error: x".to_string())
    );
    assert_eq!(
        ChatError::Pipeline("y".to_string()).answer(),
        (500, "pipeline error: y".to_string())
    );
}

#[test]
fn response_carries_the_output() {
    let r = chat_response(255, Some(12), "out".to_string());
    assert_eq!(r.id, "chatcmpl-ff");
    assert_eq!(r.object, "chat.completion");
    assert_eq!(r.created, 12);
    assert_eq!(r.model, "ssm-moe");
    assert_eq!(r.choices.len(), 1);
    assert_eq!(r.choices[0].index, 0);
    assert_eq!(r.choices[0].message.role, "assistant");
    assert_eq!(r.choices[0].message.content, "out");
    assert_eq!(r.choices[0].finish_reason, "stop");
    assert_eq!(chat_response(0, None, String::new()).created, 0);
    assert_ne!(uuid_like(1), uuid_like(16));
}

#[test]
fn static_answers() {
    assert_eq!(health(), "ok");
    let m = list_models();
    assert_eq!(m.len(), 1);
    assert_eq!((m[0].id.as_str(), m[0].object.as_str()), ("ssm-moe", "model"));
    assert_eq!((m[0].created, m[0].owned_by.as_str()), (0, "local"));
    assert_eq!(listen_address(8090), "0.0.0.0:8090");
}
