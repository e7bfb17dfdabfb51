//! The dispatcher and the per-connection computation: maps a decoded
//! request to its store operation, converts every outcome into a
//! response, and frames the reply for the wire. No failure escapes as
//! anything but a `Response`.

use vstd::prelude::*;
use vstd::string::StringExecFns;
use crate::codec::{DecodedRequest, ReqDecV, add_quiz_success_msg, add_question_success_msg,
    dec_req, decode_request, enc_resp, encode_response, i32_range};
use crate::db;
use crate::models::{Answer, Question, Quiz, Request, RequestV, Response, ResponseV,
    StorageError};

verus! {

/// The response shapes the dispatcher may give each request: reads
/// answer with their list variant (empty on a read failure), writes
/// with a success message naming the assigned identifier, or with the
/// store's error.
pub open spec fn dispatch_shape(rv: RequestV, respv: ResponseV) -> bool {
    match rv {
        RequestV::GetQuizzes => respv matches ResponseV::Quizzes(_),
        RequestV::GetQuestionsForQuiz { quiz_id } => respv matches ResponseV::Questions(l)
            && forall|k: int| 0 <= k < l.len() ==> (#[trigger] l[k]).quiz_id == quiz_id,
        RequestV::AddQuiz { name } => (respv matches ResponseV::Success(m) && (exists|id: int|
            i32_range(id) && m == add_quiz_success_msg(id))) || respv matches ResponseV::Error(_),
        RequestV::AddQuestion { quiz_id, text } => (respv matches ResponseV::Success(m) && (
        exists|id: int| i32_range(id) && m == add_question_success_msg(id))) || respv matches
            ResponseV::Error(_),
        RequestV::AddAnswers { question_id, answers } => ((respv matches ResponseV::Success(m)
            && m == "Answers added"@) || respv matches ResponseV::Error(_)) && (answers.len()
            == 0 ==> respv == ResponseV::Success("Answers added"@)),
    }
}

/// Maps a quiz read to its response: the rows on success, the empty
/// list on a storage failure (reads degrade, they do not error).
pub fn quizzes_response(r: Result<Vec<Quiz>, StorageError>) -> (resp: Response)
    ensures
        (match r {
            Ok(v) => resp == Response::Quizzes(v),
            Err(e) => resp matches Response::Quizzes(l) && l@.len() == 0,
        }),
{
    match r {
        Ok(v) => Response::Quizzes(v),
        Err(e) => Response::Quizzes(Vec::new()),
    }
}

/// Maps a question read to its response: the rows on success, the
/// empty list on a storage failure.
pub fn questions_response(r: Result<Vec<Question>, StorageError>) -> (resp: Response)
    ensures
        (match r {
            Ok(v) => resp == Response::Questions(v),
            Err(e) => resp matches Response::Questions(l) && l@.len() == 0,
        }),
{
    match r {
        Ok(v) => Response::Questions(v),
        Err(e) => Response::Questions(Vec::new()),
    }
}

/// Maps an insert-quiz outcome to its response: the fixed success
/// message naming the assigned identifier, or the store's message.
pub fn add_quiz_response(r: Result<i32, StorageError>) -> (resp: Response)
    ensures
        (match r {
            Ok(id) => resp matches Response::Success(m) && m@ == add_quiz_success_msg(id as int),
            Err(e) => resp == Response::Error(e.message),
        }),
{
    match r {
        Ok(id) => {
            let mut m = String::from_str("Quiz added with ID: ");
            crate::codec::append_int(&mut m, id);
            Response::Success(m)
        },
        Err(e) => Response::Error(e.message),
    }
}

/// Maps an insert-question outcome to its response.
pub fn add_question_response(r: Result<i32, StorageError>) -> (resp: Response)
    ensures
        (match r {
            Ok(id) => resp matches Response::Success(m) && m@ == add_question_success_msg(
                id as int,
            ),
            Err(e) => resp == Response::Error(e.message),
        }),
{
    match r {
        Ok(id) => {
            let mut m = String::from_str("Question added with ID: ");
            crate::codec::append_int(&mut m, id);
            Response::Success(m)
        },
        Err(e) => Response::Error(e.message),
    }
}

/// Maps an insert-answers outcome to its response.
pub fn add_answers_response(r: Result<(), StorageError>) -> (resp: Response)
    ensures
        (match r {
            Ok(u) => resp matches Response::Success(m) && m@ == "Answers added"@,
            Err(e) => resp == Response::Error(e.message),
        }),
{
    match r {
        Ok(u) => Response::Success(String::from_str("Answers added")),
        Err(e) => Response::Error(e.message),
    }
}

/// Maps one request to its store operation and the response: a total
/// function, every store failure becomes a `Response` value.
pub fn handle_request(conn: &rusqlite::Connection, request: Request) -> (resp: Response)
    ensures
        dispatch_shape(request@, resp@),
{
    match request {
        Request::GetQuizzes => quizzes_response(db::get_quizzes(conn)),
        Request::GetQuestionsForQuiz { quiz_id } => questions_response(
            db::get_questions_for_quiz(conn, quiz_id),
        ),
        Request::AddQuiz { name } => add_quiz_response(db::add_quiz(conn, name)),
        Request::AddQuestion { quiz_id, text } => add_question_response(
            db::add_question(conn, quiz_id, text),
        ),
        Request::AddAnswers { question_id, answers } => add_answers_response(
            db::add_answers(conn, question_id, answers),
        ),
    }
}

/// The response sent when the payload is not a well-formed message.
pub fn invalid_format_response() -> (resp: Response)
    ensures
        resp@ == ResponseV::Error("Invalid request format"@),
{
    Response::Error(String::from_str("Invalid request format"))
}

/// The response sent when the action tag names no known variant.
pub fn invalid_action_response() -> (resp: Response)
    ensures
        resp@ == ResponseV::Error("Invalid action"@),
{
    Response::Error(String::from_str("Invalid action"))
}

/// One connection's whole computation: decode, dispatch, encode. A
/// payload that does not decode never reaches the store; its error
/// response is fixed by the decode outcome.
pub fn serve_request_text(conn: &rusqlite::Connection, input: &str) -> (out: String)
    ensures
        (match dec_req(input@) {
            ReqDecV::Invalid => out@ == enc_resp(ResponseV::Error("Invalid request format"@)),
            ReqDecV::UnknownTag => out@ == enc_resp(ResponseV::Error("Invalid action"@)),
            ReqDecV::Decoded(rv) => exists|respv: ResponseV|
                out@ == #[trigger] enc_resp(respv) && dispatch_shape(rv, respv),
        }),
{
    let resp = match decode_request(input) {
        DecodedRequest::Malformed => invalid_format_response(),
        DecodedRequest::UnknownAction => invalid_action_response(),
        DecodedRequest::Parsed(req) => handle_request(conn, req),
    };
    encode_response(&resp)
}

} // verus!
