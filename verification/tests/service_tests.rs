//! Service tests against a real in-memory SQLite store: schema setup,
//! the dispatcher's mapping of each request, and the per-connection
//! computation.

use quiz_service::api::{handle_request, serve_request_text};
use quiz_service::db::{add_quiz, create_tables, get_questions_for_quiz, get_quizzes};
use quiz_service::models::{Answer, Question, Quiz, Request, Response};

fn fresh_store() -> rusqlite::Connection {
    let conn = rusqlite::Connection::open_in_memory().unwrap();
    create_tables(&conn).unwrap();
    conn
}

#[test]
fn schema_setup_is_idempotent() {
    let conn = rusqlite::Connection::open_in_memory().unwrap();
    assert!(create_tables(&conn).is_ok());
    assert!(create_tables(&conn).is_ok());
    let resp = handle_request(&conn, Request::AddQuiz { name: "Capitals".to_string() });
    assert_eq!(resp, Response::Success("Quiz added with ID: 1".to_string()));
    let tables: i64 = conn
        .query_row(
            "SELECT count(*) FROM sqlite_master WHERE type = 'table' AND name IN ('quizzes', 'questions', 'answers')",
            [],
            |row| row.get(0),
        )
        .unwrap();
    assert_eq!(tables, 3);
}

#[test]
fn empty_store_lists_no_quizzes() {
    let conn = fresh_store();
    let resp = handle_request(&conn, Request::GetQuizzes);
    assert_eq!(resp, Response::Quizzes(vec![]));
}

#[test]
fn add_then_list_quizzes() {
    let conn = fresh_store();
    let resp = handle_request(&conn, Request::AddQuiz { name: "Capitals".to_string() });
    assert_eq!(resp, Response::Success("Quiz added with ID: 1".to_string()));
    let resp = handle_request(&conn, Request::GetQuizzes);
    assert_eq!(
        resp,
        Response::Quizzes(vec![Quiz { id: 1, name: "Capitals".to_string() }])
    );
}

#[test]
fn question_under_quiz() {
    let conn = fresh_store();
    handle_request(&conn, Request::AddQuiz { name: "Capitals".to_string() });
    let resp = handle_request(
        &conn,
        Request::AddQuestion {
            quiz_id: 1,
            text: "What is the capital of France?".to_string(),
        },
    );
    assert_eq!(resp, Response::Success("Question added with ID: 1".to_string()));
    let resp = handle_request(&conn, Request::GetQuestionsForQuiz { quiz_id: 1 });
    assert_eq!(
        resp,
        Response::Questions(vec![Question {
            id: 1,
            quiz_id: 1,
            text: "What is the capital of France?".to_string(),
        }])
    );
}

#[test]
fn answers_batch_is_stored() {
    let conn = fresh_store();
    handle_request(&conn, Request::AddQuiz { name: "Capitals".to_string() });
    handle_request(
        &conn,
        Request::AddQuestion {
            quiz_id: 1,
            text: "What is the capital of France?".to_string(),
        },
    );
    let resp = handle_request(
        &conn,
        Request::AddAnswers {
            question_id: 1,
            answers: vec![
                Answer { id: 0, question_id: 0, text: "Paris".to_string(), is_correct: true },
                Answer { id: 0, question_id: 0, text: "Lyon".to_string(), is_correct: false },
            ],
        },
    );
    assert_eq!(resp, Response::Success("Answers added".to_string()));
    let mut stmt = conn
        .prepare("SELECT question_id, text, is_correct FROM answers ORDER BY id")
        .unwrap();
    let rows: Vec<(i32, String, bool)> = stmt
        .query_map([], |row| Ok((row.get(0)?, row.get(1)?, row.get(2)?)))
        .unwrap()
        .collect::<Result<_, _>>()
        .unwrap();
    assert_eq!(
        rows,
        vec![(1, "Paris".to_string(), true), (1, "Lyon".to_string(), false)]
    );
}

#[test]
fn questions_for_unknown_quiz_is_empty_not_error() {
    let conn = fresh_store();
    let resp = handle_request(&conn, Request::GetQuestionsForQuiz { quiz_id: 999 });
    assert_eq!(resp, Response::Questions(vec![]));
}

#[test]
fn distinct_names_get_distinct_ids() {
    let conn = fresh_store();
    let names = ["Capitals", "Rivers", "Seas", "Mountains", "Deserts"];
    let mut ids = Vec::new();
    for name in names {
        match add_quiz(&conn, name.to_string()) {
            Ok(id) => ids.push(id),
            Err(e) => panic!("insert failed: {}", e.message),
        }
    }
    let mut sorted = ids.clone();
    sorted.sort();
    sorted.dedup();
    assert_eq!(sorted.len(), names.len());
    let quizzes = get_quizzes(&conn).unwrap();
    assert_eq!(quizzes.len(), names.len());
}

#[test]
fn write_failure_surfaces_store_message() {
    let conn = fresh_store();
    conn.execute("DROP TABLE quizzes", ()).unwrap();
    let resp = handle_request(&conn, Request::AddQuiz { name: "Capitals".to_string() });
    match resp {
        Response::Error(message) => assert!(!message.is_empty()),
        other => panic!("expected an error response, got {:?}", other),
    }
}

#[test]
fn read_failure_degrades_to_empty_list() {
    let conn = fresh_store();
    handle_request(&conn, Request::AddQuiz { name: "Capitals".to_string() });
    conn.execute("DROP TABLE quizzes", ()).unwrap();
    let resp = handle_request(&conn, Request::GetQuizzes);
    assert_eq!(resp, Response::Quizzes(vec![]));
}

#[test]
fn direct_question_read_carries_quiz_id() {
    let conn = fresh_store();
    handle_request(&conn, Request::AddQuiz { name: "Capitals".to_string() });
    handle_request(
        &conn,
        Request::AddQuestion { quiz_id: 1, text: "Q?".to_string() },
    );
    let questions = get_questions_for_quiz(&conn, 1).unwrap();
    assert_eq!(questions.len(), 1);
    assert_eq!(questions[0].quiz_id, 1);
}

#[test]
fn serve_malformed_payload_then_next_request_still_works() {
    let conn = fresh_store();
    let out = serve_request_text(&conn, "garbage bytes");
    assert_eq!(out, "{\"Error\":\"Invalid request format\"}");
    let out = serve_request_text(&conn, "{\"action\":\"AddQuiz\",\"name\":\"Capitals\"}");
    assert_eq!(out, "{\"Success\":\"Quiz added with ID: 1\"}");
    let out = serve_request_text(&conn, "{\"action\":\"GetQuizzes\"}");
    assert_eq!(out, "{\"Quizzes\":[{\"id\":1,\"name\":\"Capitals\"}]}");
}

#[test]
fn serve_unknown_action_answers_invalid_action() {
    let conn = fresh_store();
    let out = serve_request_text(&conn, "{\"action\":\"FlyToMoon\"}");
    assert_eq!(out, "{\"Error\":\"Invalid action\"}");
    let out = serve_request_text(&conn, "{\"no_action\":\"here\"}");
    assert_eq!(out, "{\"Error\":\"Invalid action\"}");
}
