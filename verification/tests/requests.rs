use ace::chat::{
    chat_request, completion_request, contents, request_messages, ChatMessage, Role, WheelWindow,
    GPT_3_5, GPT_4,
};
use ace::http::{extension, supported_for, ui_url, Body, Resource, Response};
use async_openai::types::{
    ChatCompletionRequestMessage, ChatCompletionRequestUserMessageContent, Prompt,
};

fn message(role: Role, content: &str) -> ChatMessage {
    ChatMessage { role, content: content.to_string() }
}

fn shown(message: &ChatCompletionRequestMessage) -> (&'static str, String) {
    match message {
        ChatCompletionRequestMessage::System(m) => ("system", m.content.clone()),
        ChatCompletionRequestMessage::User(m) => match &m.content {
            ChatCompletionRequestUserMessageContent::Text(text) => ("user", text.clone()),
            _ => panic!("no text"),
        },
        ChatCompletionRequestMessage::Assistant(m) => ("assistant", m.content.clone().unwrap()),
        _ => panic!("no such message"),
    }
}

#[test]
fn messages_keep_role_and_order() {
    let messages = vec![
        message(Role::System, "s"),
        message(Role::User, "u"),
        message(Role::Assistant, "a"),
    ];
    let sent = request_messages(messages, String::new());
    let sent: Vec<(&str, String)> = sent.iter().map(shown).collect();
    assert_eq!(
        sent,
        vec![
            ("system", "s".to_string()),
            ("user", "u".to_string()),
            ("assistant", "a".to_string()),
        ]
    );
}

#[test]
fn transcript_comes_first() {
    let sent = request_messages(vec![message(Role::System, "s")], "said".to_string());
    assert_eq!(sent.len(), 2);
    assert_eq!(shown(&sent[0]), ("user", "said".to_string()));
    assert_eq!(shown(&sent[1]), ("system", "s".to_string()));
}

#[test]
fn chat_request_has_model_limit_and_messages() {
    let request = chat_request(GPT_4, vec![message(Role::User, "u")], "t".to_string());
    assert_eq!(request.model, "gpt-4-0125-preview");
    assert_eq!(request.max_tokens, Some(4096));
    assert_eq!(request.messages.len(), 2);
    assert_eq!(GPT_3_5, "gpt-3.5-turbo-0125");
}

#[test]
fn completion_request_suppresses_tokens() {
    let request = completion_request("go on".to_string());
    assert_eq!(request.model, "gpt-3.5-turbo-instruct");
    assert_eq!(request.max_tokens, Some(100));
    assert_eq!(request.prompt, Prompt::String("go on".to_string()));
    assert_eq!(request.n, Some(1));
    assert_eq!(request.stream, Some(true));
    let bias = request.logit_bias.unwrap();
    assert_eq!(bias.len(), 8);
    for token in ["198", "271", "1432", "4815", "1980", "382", "720", "627"] {
        assert_eq!(bias[token].as_f64(), Some(-100.0));
        assert!(bias[token].is_f64());
    }
}

#[test]
fn choices_without_content_bring_nothing() {
    let pieces = vec![None, Some("a".to_string()), None, Some("b".to_string())];
    assert_eq!(contents(&pieces), vec!["a".to_string(), "b".to_string()]);
    assert_eq!(contents(&vec![]), Vec::<String>::new());
}

#[test]
fn new_window_waits_for_the_user() {
    let window = WheelWindow::default();
    assert_eq!(window.0.len(), 1);
    assert_eq!(window.0[0].role, Role::User);
    assert_eq!(window.0[0].content, "");
}

fn response(url: &str, content_type: Option<(&str, &str)>, bytes: &[u8]) -> Response {
    Response {
        url: url.to_string(),
        ok: true,
        status: 404,
        status_text: "Not Found".to_string(),
        headers: content_type
            .into_iter()
            .map(|(name, value)| (name.to_string(), value.to_string()))
            .collect(),
        bytes: bytes.to_vec(),
    }
}

fn supported() -> Vec<String> {
    vec!["toml".to_string(), "rs".to_string(), "md".to_string()]
}

#[test]
fn image_has_no_text() {
    let header = ("Content-Type", "image/png");
    let resource = Resource::from_response(response("u/a.rs", Some(header), b"abc"), &supported());
    assert!(resource.image);
    assert_eq!(resource.text, None);
    assert_eq!(resource.highlighted_as, None);
    assert_eq!(resource.body(), Body::Image);
}

#[test]
fn text_is_highlighted_by_extension() {
    let header = ("content-type", "text/plain");
    let bytes = "h\u{e9}".as_bytes();
    let resource = Resource::from_response(response("u/main.rs", Some(header), bytes), &supported());
    assert!(!resource.image);
    assert_eq!(resource.text, Some("h\u{e9}".to_string()));
    assert_eq!(resource.highlighted_as, Some("rs".to_string()));
    assert_eq!(resource.body(), Body::Highlighted);
}

#[test]
fn bytes_that_are_no_text_are_binary() {
    let resource = Resource::from_response(response("u.rs", None, &[0xff, 0xfe]), &supported());
    assert_eq!(resource.text, None);
    assert_eq!(resource.highlighted_as, None);
    assert_eq!(resource.body(), Body::Binary);
}

#[test]
fn first_content_type_counts() {
    let mut r = response("u", Some(("CONTENT-TYPE", "image/gif")), b"x");
    r.headers.insert(0, ("content-length".to_string(), "1".to_string()));
    r.headers.push(("content-type".to_string(), "text/html".to_string()));
    assert_eq!(r.content_type(), "image/gif");
    // Full-width letters are none of ASCII.
    r.headers[1].0 = "\u{ff23}ontent-type".to_string();
    assert_eq!(r.content_type(), "text/html");
    r.headers[1].0 = "content_type".to_string();
    assert_eq!(r.content_type(), "text/html");
}

#[test]
fn text_of_another_extension_is_plain() {
    let header = ("content-type", "text/html");
    for url in ["https://example.com/index.html", "u/a.RS", "u"] {
        let resource = Resource::from_response(response(url, Some(header), b"t"), &supported());
        assert!(!resource.image);
        assert_eq!(resource.text, Some("t".to_string()));
        assert_eq!(resource.highlighted_as, None);
        assert_eq!(resource.body(), Body::Text);
    }
    let r = response("u/main.rs", Some(header), b"t");
    assert_eq!(Resource::from_response(r, &vec![]).body(), Body::Text);
}

#[test]
fn languages_are_highlighted_in_any_case() {
    for name in ["c", "h", "hpp", "cpp", "c++", "py", "python", "rs", "rust", "toml", "md", "RS"] {
        let url = format!("https://example.com/main.{name}");
        assert_eq!(supported_for(&url), vec![name.to_string()]);
        let resource = Resource::from_response(response(&url, None, b"t"), &supported_for(&url));
        assert_eq!(resource.highlighted_as, Some(name.to_string()));
        assert_eq!(resource.body(), Body::Highlighted);
    }
    assert_eq!(supported_for("Rust"), vec!["Rust".to_string()]);
    for url in ["u.html", "u.r", "u.rsx", "u.", "", "u.rs/x", "u.\u{ff52}s"] {
        assert_eq!(supported_for(url), Vec::<String>::new());
        let resource = Resource::from_response(response(url, None, b"t"), &supported_for(url));
        assert_eq!(resource.body(), Body::Text);
    }
}

#[test]
fn content_type_without_a_slash_is_no_image() {
    let r = response("u/a.toml", None, b"");
    let resource = Resource::assemble(r, "image", Some("t".to_string()), &supported());
    assert!(!resource.image);
    assert_eq!(resource.highlighted_as, Some("toml".to_string()));
    assert_eq!(resource.body(), Body::Highlighted);
    let r = response("u/a.toml", None, b"");
    assert_eq!(Resource::assemble(r, "image", None, &supported()).body(), Body::Binary);
}

#[test]
fn summary_lines() {
    let r = response("http://x", Some(("Content-type", "text/html")), b"");
    assert_eq!(r.url_line(), "url:          http://x");
    assert_eq!(r.status_line(), "status:       404 (Not Found)");
    assert_eq!(r.content_type_line(), "content-type: text/html");
    assert_eq!(response("u", None, b"").content_type_line(), "content-type: ");
    for (status, line) in [
        (0, "status:       0 (Not Found)"),
        (10, "status:       10 (Not Found)"),
        (65535, "status:       65535 (Not Found)"),
    ] {
        let mut r = response("u", None, b"");
        r.status = status;
        assert_eq!(r.status_line(), line);
    }
}

#[test]
fn extensions() {
    assert_eq!(extension("a/b.tar.gz"), "gz");
    assert_eq!(extension("nothing"), "nothing");
    assert_eq!(extension("ends."), "");
    assert_eq!(extension(""), "");
}

#[test]
fn address_bar() {
    let mut url = "u".to_string();
    assert!(!ui_url(&mut url, false, false, "1"));
    assert!(ui_url(&mut url, true, false, "1"));
    assert_eq!(url, "u");
    assert!(ui_url(&mut url, false, true, "1.5"));
    assert_eq!(url, "https://picsum.photos/seed/1.5/640");
}
