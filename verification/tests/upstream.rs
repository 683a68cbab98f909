use rust_genai::json::{parse_json, Json};
use rust_genai::upstream::{
    completion_text, read_answer, read_outcome, status_is_success, upstream_call, UpstreamFault,
    UpstreamOutcome, COMPLETIONS_PATH, SYSTEM_PROMPT, SYSTEM_ROLE, USER_ROLE,
};

fn text(s: &str) -> String {
    s.to_string()
}

fn object(members: Vec<(&str, Json)>) -> Json {
    Json::Object(members.into_iter().map(|(name, value)| (name.to_string(), value)).collect())
}

fn completion(content: Json) -> Json {
    object(vec![(
        "choices",
        Json::Array(vec![object(vec![("message", object(vec![("content", content)]))])]),
    )])
}

fn answered(status: u16, body: &str) -> UpstreamOutcome {
    UpstreamOutcome::Answered { status, body: body.as_bytes().to_vec() }
}

#[test]
fn the_call_posts_the_instruction_and_the_prompt() {
    let call = upstream_call("http://localhost:8080/v1", "llama", "What is Rust?");
    assert_eq!(call.url, "http://localhost:8080/v1/chat/completions");
    assert_eq!(call.body.model, "llama");
    assert_eq!(call.body.messages.len(), 2);
    assert_eq!(call.body.messages[0].role, "system");
    assert_eq!(call.body.messages[0].content, SYSTEM_PROMPT);
    assert_eq!(call.body.messages[1].role, "user");
    assert_eq!(call.body.messages[1].content, "What is Rust?");
}

#[test]
fn the_call_takes_base_model_and_prompt_verbatim() {
    let call = upstream_call("", "", "");
    assert_eq!(call.url, "/chat/completions");
    assert_eq!(call.body.model, "");
    assert_eq!(call.body.messages[1].content, "");
    let call = upstream_call("http://host/", "m/1", " spaced \n");
    assert_eq!(call.url, "http://host//chat/completions");
    assert_eq!(call.body.model, "m/1");
    assert_eq!(call.body.messages[1].content, " spaced \n");
}

#[test]
fn the_fixed_texts_are_as_published() {
    assert_eq!(COMPLETIONS_PATH, "/chat/completions");
    assert_eq!(SYSTEM_ROLE, "system");
    assert_eq!(USER_ROLE, "user");
    assert_eq!(
        SYSTEM_PROMPT,
        "You are a helpful assistant. Please provide structured responses using markdown formatting. Use headers (# for main points), bullet points (- for lists), bold (**text**) for emphasis, and code blocks (```code```) for code examples. Organize your responses with clear sections and concise explanations."
    );
}

#[test]
fn success_is_200_up_to_299() {
    assert!(!status_is_success(0));
    assert!(!status_is_success(199));
    assert!(status_is_success(200));
    assert!(status_is_success(204));
    assert!(status_is_success(299));
    assert!(!status_is_success(300));
    assert!(!status_is_success(404));
    assert!(!status_is_success(500));
    assert!(!status_is_success(u16::MAX));
}

#[test]
fn completion_is_the_content_of_the_first_choice() {
    assert_eq!(completion_text(&completion(Json::Text(text("Hello!")))), Some(text("Hello!")));
    let two_choices = object(vec![
        ("id", Json::Text(text("cmpl-1"))),
        (
            "choices",
            Json::Array(vec![
                object(vec![
                    ("index", Json::Number),
                    (
                        "message",
                        object(vec![
                            ("role", Json::Text(text("assistant"))),
                            ("content", Json::Text(text("first"))),
                        ]),
                    ),
                ]),
                object(vec![("message", object(vec![("content", Json::Text(text("second")))]))]),
            ]),
        ),
    ]);
    assert_eq!(completion_text(&two_choices), Some(text("first")));
}

#[test]
fn an_empty_completion_is_a_completion() {
    assert_eq!(completion_text(&completion(Json::Text(text("")))), Some(text("")));
}

#[test]
fn any_other_shape_carries_no_completion() {
    assert_eq!(completion_text(&Json::Null), None);
    assert_eq!(completion_text(&Json::Text(text("Hello!"))), None);
    assert_eq!(completion_text(&object(vec![])), None);
    assert_eq!(completion_text(&object(vec![("choices", Json::Null)])), None);
    assert_eq!(completion_text(&object(vec![("choices", Json::Array(vec![]))])), None);
    assert_eq!(completion_text(&object(vec![("choices", object(vec![]))])), None);
    assert_eq!(
        completion_text(&object(vec![("choices", Json::Array(vec![Json::Text(text("x"))]))])),
        None
    );
    assert_eq!(
        completion_text(&object(vec![("choices", Json::Array(vec![object(vec![])]))])),
        None
    );
    assert_eq!(
        completion_text(&object(vec![(
            "choices",
            Json::Array(vec![object(vec![("message", Json::Text(text("x")))])]),
        )])),
        None
    );
    assert_eq!(
        completion_text(&object(vec![(
            "choices",
            Json::Array(vec![object(vec![("message", object(vec![]))])]),
        )])),
        None
    );
    assert_eq!(completion_text(&completion(Json::Null)), None);
    assert_eq!(completion_text(&completion(Json::Number)), None);
    assert_eq!(completion_text(&completion(Json::Array(vec![Json::Text(text("x"))]))), None);
    assert_eq!(
        completion_text(&Json::Array(vec![completion(Json::Text(text("nested too deep")))])),
        None
    );
    let second_only = object(vec![(
        "choices",
        Json::Array(vec![
            object(vec![]),
            object(vec![("message", object(vec![("content", Json::Text(text("second")))]))]),
        ]),
    )]);
    assert_eq!(completion_text(&second_only), None);
}

#[test]
fn an_answer_is_judged_by_status_first() {
    let document = completion(Json::Text(text("Hello!")));
    assert_eq!(read_answer(200, Some(&document)), Ok(text("Hello!")));
    assert_eq!(read_answer(299, Some(&document)), Ok(text("Hello!")));
    assert_eq!(read_answer(300, Some(&document)), Err(UpstreamFault::Refused));
    assert_eq!(read_answer(500, Some(&document)), Err(UpstreamFault::Refused));
    assert_eq!(read_answer(500, None), Err(UpstreamFault::Refused));
    assert_eq!(read_answer(200, None), Err(UpstreamFault::Malformed));
    assert_eq!(read_answer(200, Some(&Json::Null)), Err(UpstreamFault::Malformed));
    assert_eq!(read_answer(200, Some(&completion(Json::Number))), Err(UpstreamFault::Malformed));
}

#[test]
fn a_call_without_an_answer_is_unreachable() {
    assert_eq!(read_outcome(&UpstreamOutcome::Unreachable), Err(UpstreamFault::Unreachable));
}

#[test]
fn an_answered_call_is_read_from_its_bytes() {
    let body = r##"{"id":"x","choices":[{"index":0,"message":{"role":"assistant","content":"# Title\n- point é"},"finish_reason":"stop"}],"usage":{"total_tokens":12}}"##;
    assert_eq!(read_outcome(&answered(200, body)), Ok(text("# Title\n- point é")));
    assert_eq!(read_outcome(&answered(201, body)), Ok(text("# Title\n- point é")));
    assert_eq!(read_outcome(&answered(404, body)), Err(UpstreamFault::Refused));
    assert_eq!(read_outcome(&answered(500, "")), Err(UpstreamFault::Refused));
    assert_eq!(read_outcome(&answered(200, "")), Err(UpstreamFault::Malformed));
    assert_eq!(read_outcome(&answered(200, "not json")), Err(UpstreamFault::Malformed));
    assert_eq!(read_outcome(&answered(200, "{}")), Err(UpstreamFault::Malformed));
    assert_eq!(read_outcome(&answered(200, r#"{"choices":[]}"#)), Err(UpstreamFault::Malformed));
    assert_eq!(
        read_outcome(&answered(200, r#"{"choices":[{"message":{"content":null}}]}"#)),
        Err(UpstreamFault::Malformed)
    );
    assert_eq!(
        read_outcome(&answered(200, r#"{"choices":[{"message":{"content":""}}]}"#)),
        Ok(text(""))
    );
    assert_eq!(
        read_outcome(&answered(200, r#"{"choices":[{"message":{"content":"cut of"#)),
        Err(UpstreamFault::Malformed)
    );
}

#[test]
fn reading_the_bytes_agrees_with_reading_the_parsed_document() {
    let bodies = [
        r#"{"choices":[{"message":{"content":"a"}}]}"#,
        r#"{"choices":[{"message":{"content":7}}]}"#,
        r#"{"choices":{"0":{"message":{"content":"a"}}}}"#,
        r#"[{"choices":[{"message":{"content":"a"}}]}]"#,
        "nonsense",
    ];
    for body in bodies {
        for status in [200u16, 250, 302, 503] {
            let document = parse_json(body.as_bytes());
            assert_eq!(read_outcome(&answered(status, body)), read_answer(status, document.as_ref()));
        }
    }
}
