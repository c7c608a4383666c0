use deepseek_pool::message_processor::{MessageProcessor, ProcessedMessage};
use deepseek_pool::models::{ChatMessage, ChatMessageContent, ContentPart};

#[test]
fn test_extract_text_content() {
    let text_content = ChatMessageContent::Text("Hello world".to_string());
    assert_eq!(
        MessageProcessor::extract_text_content(&text_content),
        "Hello world"
    );

    let array_content = ChatMessageContent::Array(vec![
        ContentPart {
            content_type: "text".to_string(),
            text: Some("Hello".to_string()),
            image_url: None,
        },
        ContentPart {
            content_type: "text".to_string(),
            text: Some("World".to_string()),
            image_url: None,
        },
    ]);
    assert_eq!(
        MessageProcessor::extract_text_content(&array_content),
        "Hello\nWorld"
    );
}

#[test]
fn test_remove_citations() {
    let content = "This is a test [citation:1] with citations [citation:23].";
    let cleaned = MessageProcessor::remove_citations(content);
    assert_eq!(cleaned, "This is a test  with citations .");
}

#[test]
fn test_prepare_messages() {
    let messages = vec![
        ChatMessage {
            role: "user".to_string(),
            content: ChatMessageContent::Text("Hello".to_string()),
        },
        ChatMessage {
            role: "assistant".to_string(),
            content: ChatMessageContent::Text("Hi there!".to_string()),
        },
    ];

    let result = MessageProcessor::prepare_messages(&messages);
    assert!(result.contains("Hello"));
    assert!(result.contains("<｜Assistant｜>Hi there!<｜end▁of▁sentence｜>"));
}

#[test]
fn test_prepare_messages_empty() {
    let messages: Vec<ChatMessage> = vec![];
    assert_eq!(MessageProcessor::prepare_messages(&messages), "");
}

#[test]
fn test_prepare_messages_merges_roles() {
    let messages = vec![
        ChatMessage {
            role: "user".to_string(),
            content: ChatMessageContent::Text("first".to_string()),
        },
        ChatMessage {
            role: "user".to_string(),
            content: ChatMessageContent::Text("second".to_string()),
        },
        ChatMessage {
            role: "assistant".to_string(),
            content: ChatMessageContent::Text("reply".to_string()),
        },
        ChatMessage {
            role: "user".to_string(),
            content: ChatMessageContent::Text("third".to_string()),
        },
    ];
    let result = MessageProcessor::prepare_messages(&messages);
    assert_eq!(
        result,
        "first\n\nsecond<｜Assistant｜>reply<｜end▁of▁sentence｜><｜User｜>third"
    );
}

#[test]
fn test_merge_same_role_messages() {
    let merged = MessageProcessor::merge_same_role_messages(vec![
        ProcessedMessage {
            role: "user".to_string(),
            text: "a".to_string(),
        },
        ProcessedMessage {
            role: "user".to_string(),
            text: "b".to_string(),
        },
        ProcessedMessage {
            role: "assistant".to_string(),
            text: "c".to_string(),
        },
    ]);
    assert_eq!(merged.len(), 2);
    assert_eq!(merged[0].role, "user");
    assert_eq!(merged[0].text, "a\n\nb");
    assert_eq!(merged[1].role, "assistant");
    assert_eq!(merged[1].text, "c");
}

#[test]
fn test_extract_skips_non_text_parts() {
    let array_content = ChatMessageContent::Array(vec![
        ContentPart {
            content_type: "image_url".to_string(),
            text: Some("ignored".to_string()),
            image_url: None,
        },
        ContentPart {
            content_type: "text".to_string(),
            text: Some("kept".to_string()),
            image_url: None,
        },
    ]);
    assert_eq!(MessageProcessor::extract_text_content(&array_content), "kept");
}

#[test]
fn test_process_stream_content_thinking_markers() {
    let mut thinking = false;
    let mut refs = String::new();
    let r = MessageProcessor::process_stream_content("[思考中]", "deepseek-think", &mut thinking, &mut refs);
    assert_eq!(r, Some("[思考开始]\n".to_string()));
    assert!(thinking);
    let r2 = MessageProcessor::process_stream_content("done [思考结束]", "deepseek-think", &mut thinking, &mut refs);
    assert_eq!(r2, Some("\n\n[思考结束]\n".to_string()));
    assert!(!thinking);
}

#[test]
fn test_process_stream_content_silent_drops_thinking() {
    let mut thinking = false;
    let mut refs = String::new();
    let r = MessageProcessor::process_stream_content(
        "[思考中]",
        "deepseek-think-silent",
        &mut thinking,
        &mut refs,
    );
    assert_eq!(r, None);
    assert!(!thinking);
}

#[test]
fn test_process_stream_content_fold_markers() {
    let mut thinking = false;
    let mut refs = String::new();
    let r = MessageProcessor::process_stream_content(
        "[思考中]",
        "deepseek-think-fold",
        &mut thinking,
        &mut refs,
    );
    assert_eq!(r, Some("<details><summary>思考过程</summary><pre>".to_string()));
    assert!(thinking);
}

#[test]
fn test_process_stream_content_collects_search_refs() {
    let mut thinking = false;
    let mut refs = String::new();
    let r = MessageProcessor::process_stream_content(
        "检索到 3 条结果",
        "deepseek-search",
        &mut thinking,
        &mut refs,
    );
    assert_eq!(r, Some("检索到 3 条结果".to_string()));
    assert_eq!(refs, "检索到 3 条结果\n");
}

#[test]
fn test_process_stream_content_strips_citations() {
    let mut thinking = false;
    let mut refs = String::new();
    let r = MessageProcessor::process_stream_content(
        "see [citation:7] here",
        "deepseek",
        &mut thinking,
        &mut refs,
    );
    assert_eq!(r, Some("see  here".to_string()));
}

#[test]
fn test_add_search_references() {
    assert_eq!(MessageProcessor::add_search_references("answer", ""), "answer");
    let with_refs = MessageProcessor::add_search_references("\n\nanswer", "src [citation:1]");
    assert_eq!(with_refs, "answer\n\n搜索结果来自：\nsrc ");
}
