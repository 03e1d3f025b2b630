use openai_proxy::rewrite::{rewrite_payload, RewriteError};

const DIRECTIVE: &str = "{\"stream_options\":{\"include_usage\": true},";

#[test]
fn non_streaming_body_is_sent_as_is() {
    let body = b"{\"model\":\"gpt-4\",\"messages\":[]}".to_vec();
    assert_eq!(rewrite_payload(body.clone(), false), Ok(body));
    let odd = b"  not json at all \xff".to_vec();
    assert_eq!(rewrite_payload(odd.clone(), false), Ok(odd));
}

#[test]
fn streaming_body_gets_the_directive() {
    let body = b"{\"stream\":true,\"model\":\"gpt-4\",\"messages\":[{\"role\":\"user\",\"content\":\"Hi\"}]}".to_vec();
    let out = rewrite_payload(body, true).unwrap();
    let expected = format!(
        "{}{}",
        DIRECTIVE, "\"stream\":true,\"model\":\"gpt-4\",\"messages\":[{\"role\":\"user\",\"content\":\"Hi\"}]}"
    );
    assert_eq!(String::from_utf8(out.clone()).unwrap(), expected);
    let value: serde_json::Value = serde_json::from_slice(&out).unwrap();
    let object = value.as_object().unwrap();
    assert_eq!(object.len(), 4);
    assert_eq!(value["stream_options"]["include_usage"], true);
    assert_eq!(value["stream"], true);
    assert_eq!(value["model"], "gpt-4");
    assert_eq!(value["messages"][0]["content"], "Hi");
    let text = String::from_utf8(out).unwrap();
    assert_eq!(text.matches("\"stream_options\"").count(), 1);
}

#[test]
fn surrounding_space_is_trimmed() {
    let body = b" \r\n\t{\"stream\":true} \n".to_vec();
    let out = rewrite_payload(body, true).unwrap();
    assert_eq!(out, format!("{}\"stream\":true}}", DIRECTIVE).into_bytes());
}

#[test]
fn invalid_utf8_is_refused() {
    let body = b"{\"stream\":true,\"x\":\"\xc3\x28\"}".to_vec();
    assert_eq!(rewrite_payload(body, true), Err(RewriteError::InvalidUtf8));
}

#[test]
fn body_that_is_no_object_is_refused() {
    assert_eq!(rewrite_payload(b"[true]".to_vec(), true), Err(RewriteError::NotAnObject));
    assert_eq!(rewrite_payload(b"   ".to_vec(), true), Err(RewriteError::NotAnObject));
    assert_eq!(rewrite_payload(Vec::new(), true), Err(RewriteError::NotAnObject));
}

#[test]
fn body_that_breaks_after_the_directive_is_refused() {
    assert_eq!(rewrite_payload(b"{}".to_vec(), true), Err(RewriteError::InvalidJson));
    assert_eq!(rewrite_payload(b"{\"stream\":true".to_vec(), true), Err(RewriteError::InvalidJson));
}
