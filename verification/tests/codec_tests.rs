//! Wire-codec tests: exact encodings, round trips for every variant,
//! and the two decode failure classes.

use quiz_service::codec::{decode_request, decode_response, encode_request, encode_response,
    DecodedRequest};
use quiz_service::models::{Answer, Question, Quiz, Request, Response};

#[test]
fn encoding_add_quiz_is_exact() {
    let req = Request::AddQuiz { name: "Capitals".to_string() };
    assert_eq!(encode_request(&req), "{\"action\":\"AddQuiz\",\"name\":\"Capitals\"}");
}

#[test]
fn encoding_get_quizzes_is_exact() {
    assert_eq!(encode_request(&Request::GetQuizzes), "{\"action\":\"GetQuizzes\"}");
}

#[test]
fn encoding_negative_id_is_exact() {
    let req = Request::GetQuestionsForQuiz { quiz_id: -12 };
    assert_eq!(
        encode_request(&req),
        "{\"action\":\"GetQuestionsForQuiz\",\"quiz_id\":-12}"
    );
}

#[test]
fn encoding_escapes_quotes_and_backslashes() {
    let req = Request::AddQuiz { name: "a\"b\\c".to_string() };
    assert_eq!(
        encode_request(&req),
        "{\"action\":\"AddQuiz\",\"name\":\"a\\\"b\\\\c\"}"
    );
}

#[test]
fn round_trip_get_quizzes() {
    let req = Request::GetQuizzes;
    assert_eq!(decode_request(&encode_request(&req)), DecodedRequest::Parsed(req));
}

#[test]
fn round_trip_get_questions_for_quiz() {
    for quiz_id in [0, 1, 42, -7, 2147483647, -2147483648] {
        let req = Request::GetQuestionsForQuiz { quiz_id };
        assert_eq!(decode_request(&encode_request(&req)), DecodedRequest::Parsed(req));
    }
}

#[test]
fn round_trip_add_quiz() {
    let req = Request::AddQuiz { name: "Cap\"it\\als and unicode: caf\u{e9}".to_string() };
    assert_eq!(decode_request(&encode_request(&req)), DecodedRequest::Parsed(req));
}

#[test]
fn round_trip_control_characters() {
    let req = Request::AddQuiz { name: "line1\nline2\ttab\u{1}end".to_string() };
    assert_eq!(decode_request(&encode_request(&req)), DecodedRequest::Parsed(req));
}

#[test]
fn encoding_escapes_control_characters() {
    let req = Request::AddQuiz { name: "a\nb".to_string() };
    let text = encode_request(&req);
    assert_eq!(text, "{\"action\":\"AddQuiz\",\"name\":\"a\\u000ab\"}");
    assert!(!text.contains('\n'));
    let value: serde_json::Value = serde_json::from_str(&text).unwrap();
    assert_eq!(value.get("name").unwrap(), "a\nb");
}

#[test]
fn round_trip_add_question() {
    let req = Request::AddQuestion {
        quiz_id: 1,
        text: "What is the capital of France?".to_string(),
    };
    assert_eq!(decode_request(&encode_request(&req)), DecodedRequest::Parsed(req));
}

#[test]
fn round_trip_add_answers() {
    let req = Request::AddAnswers {
        question_id: 1,
        answers: vec![
            Answer { id: 0, question_id: 0, text: "Paris".to_string(), is_correct: true },
            Answer { id: 0, question_id: 0, text: "Lyon".to_string(), is_correct: false },
        ],
    };
    assert_eq!(decode_request(&encode_request(&req)), DecodedRequest::Parsed(req));
}

#[test]
fn round_trip_add_answers_empty() {
    let req = Request::AddAnswers { question_id: 3, answers: vec![] };
    assert_eq!(decode_request(&encode_request(&req)), DecodedRequest::Parsed(req));
}

#[test]
fn round_trip_response_quizzes() {
    let resp = Response::Quizzes(vec![
        Quiz { id: 1, name: "Capitals".to_string() },
        Quiz { id: 2, name: "Rivers".to_string() },
    ]);
    assert_eq!(decode_response(&encode_response(&resp)), Some(resp));
}

#[test]
fn round_trip_response_quizzes_empty() {
    let resp = Response::Quizzes(vec![]);
    assert_eq!(encode_response(&resp), "{\"Quizzes\":[]}");
    assert_eq!(decode_response(&encode_response(&resp)), Some(resp));
}

#[test]
fn round_trip_response_questions() {
    let resp = Response::Questions(vec![Question {
        id: 1,
        quiz_id: 1,
        text: "What is the capital of France?".to_string(),
    }]);
    assert_eq!(decode_response(&encode_response(&resp)), Some(resp));
}

#[test]
fn round_trip_response_success_and_error() {
    let ok = Response::Success("Quiz added with ID: 1".to_string());
    assert_eq!(encode_response(&ok), "{\"Success\":\"Quiz added with ID: 1\"}");
    assert_eq!(decode_response(&encode_response(&ok)), Some(ok));
    let err = Response::Error("boom \"quoted\"".to_string());
    assert_eq!(decode_response(&encode_response(&err)), Some(err));
}

#[test]
fn unknown_action_tag_is_detected() {
    assert_eq!(
        decode_request("{\"action\":\"FlyToMoon\"}"),
        DecodedRequest::UnknownAction
    );
}

#[test]
fn absent_action_tag_is_detected() {
    assert_eq!(decode_request("{\"flavour\":\"sour\"}"), DecodedRequest::UnknownAction);
}

#[test]
fn malformed_payloads_are_detected() {
    for bad in [
        "",
        "not an object",
        "{",
        "{\"action\":\"AddQuiz\"}",
        "{\"action\":\"AddQuiz\",\"name\":\"x\"} trailing",
        "{\"action\":\"AddQuiz\",\"name\":12}",
        "{\"action\":\"GetQuestionsForQuiz\",\"quiz_id\":\"one\"}",
        "{\"action\":\"GetQuestionsForQuiz\",\"quiz_id\":99999999999}",
    ] {
        assert_eq!(decode_request(bad), DecodedRequest::Malformed, "payload: {}", bad);
    }
}

#[test]
fn request_encoding_is_wellformed_json() {
    let req = Request::AddAnswers {
        question_id: 1,
        answers: vec![Answer {
            id: 0,
            question_id: 0,
            text: "Paris".to_string(),
            is_correct: true,
        }],
    };
    let text = encode_request(&req);
    let value: serde_json::Value = serde_json::from_str(&text).unwrap();
    assert_eq!(value.get("action").unwrap(), "AddAnswers");
    assert_eq!(value.get("question_id").unwrap(), 1);
    let answers = value.get("answers").unwrap().as_array().unwrap();
    assert_eq!(answers.len(), 1);
    assert_eq!(answers[0].get("text").unwrap(), "Paris");
    assert_eq!(answers[0].get("is_correct").unwrap(), true);
}

#[test]
fn response_encoding_is_wellformed_json() {
    let resp = Response::Quizzes(vec![Quiz { id: 7, name: "Seas".to_string() }]);
    let text = encode_response(&resp);
    let value: serde_json::Value = serde_json::from_str(&text).unwrap();
    let quizzes = value.get("Quizzes").unwrap().as_array().unwrap();
    assert_eq!(quizzes.len(), 1);
    assert_eq!(quizzes[0].get("id").unwrap(), 7);
    assert_eq!(quizzes[0].get("name").unwrap(), "Seas");
}
