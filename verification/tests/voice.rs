use lisa::json::{Json, JsonNumber};
use lisa::voice::{answer_text, wake_word};

#[test]
fn wake_word_gates_and_strips() {
    assert_eq!(
        wake_word("Hey Lisa, what is the capital of France?").as_deref(),
        Some("what is the capital of France?")
    );
    assert_eq!(
        wake_word("OK Lisa turn off the lights").as_deref(),
        Some("turn off the lights")
    );
    assert_eq!(wake_word("I think we should order pizza tonight"), None);
    assert_eq!(wake_word("the mona lisa is a painting"), None);
}

#[test]
fn wake_word_alone_is_an_empty_request() {
    assert_eq!(wake_word("hey lisa").as_deref(), Some(""));
    assert_eq!(wake_word("  Lisa,  lights off  ").as_deref(), Some("lights off"));
    assert_eq!(wake_word("Okay Lisa!! play music").as_deref(), Some("play music"));
    assert_eq!(wake_word("lisanne, hi"), None);
}

fn s(x: &str) -> String {
    x.to_string()
}

fn reply(content: Option<&str>) -> Json {
    let mut message = vec![(s("role"), Json::Str(s("assistant")))];
    if let Some(c) = content {
        message.push((s("content"), Json::Str(s(c))));
    }
    let choice = Json::Object(vec![
        (
            s("index"),
            Json::Number(JsonNumber { text: s("0"), unsigned: Some(0), signed: Some(0) }),
        ),
        (s("message"), Json::Object(message)),
    ]);
    Json::Object(vec![(s("choices"), Json::Array(vec![choice]))])
}

#[test]
fn answer_text_reads_the_first_choice() {
    assert_eq!(answer_text(&reply(Some("  Paris.  "))).unwrap().trim(), "Paris.");
    assert_eq!(answer_text(&Json::Object(vec![])).unwrap(), "");
    let err = Json::Object(vec![(
        s("error"),
        Json::Object(vec![(s("message"), Json::Str(s("no model")))]),
    )]);
    assert_eq!(answer_text(&err).unwrap_err(), "inference error: no model");
}
