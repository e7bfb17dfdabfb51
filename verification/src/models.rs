//! Domain records (Quiz, Question, Answer), the request and response
//! variants exchanged with clients, and their mathematical views.

use vstd::prelude::*;

verus! {

/// A stored quiz row.
#[derive(Debug, Clone, PartialEq, Eq)]
pub struct Quiz {
    pub id: i32,
    pub name: String,
}

/// A stored question row, belonging to one quiz.
#[derive(Debug, Clone, PartialEq, Eq)]
pub struct Question {
    pub id: i32,
    pub quiz_id: i32,
    pub text: String,
}

/// A stored answer row, belonging to one question.
#[derive(Debug, Clone, PartialEq, Eq)]
pub struct Answer {
    pub id: i32,
    pub question_id: i32,
    pub text: String,
    pub is_correct: bool,
}

/// One client request: exactly one variant per message.
#[derive(Debug, Clone, PartialEq, Eq)]
pub enum Request {
    GetQuizzes,
    GetQuestionsForQuiz { quiz_id: i32 },
    AddQuiz { name: String },
    AddQuestion { quiz_id: i32, text: String },
    AddAnswers { question_id: i32, answers: Vec<Answer> },
}

/// One server response: exactly one variant per message.
#[derive(Debug, Clone, PartialEq, Eq)]
pub enum Response {
    Quizzes(Vec<Quiz>),
    Questions(Vec<Question>),
    Success(String),
    Error(String),
}

/// A failure of a store operation, carrying the store's message.
#[derive(Debug, Clone, PartialEq, Eq)]
pub struct StorageError {
    pub message: String,
}

/// Mathematical view of a quiz row.
pub struct QuizV {
    pub id: int,
    pub name: Seq<char>,
}

/// Mathematical view of a question row.
pub struct QuestionV {
    pub id: int,
    pub quiz_id: int,
    pub text: Seq<char>,
}

/// Mathematical view of an answer row.
pub struct AnswerV {
    pub id: int,
    pub question_id: int,
    pub text: Seq<char>,
    pub is_correct: bool,
}

/// Mathematical view of a request.
pub enum RequestV {
    GetQuizzes,
    GetQuestionsForQuiz { quiz_id: int },
    AddQuiz { name: Seq<char> },
    AddQuestion { quiz_id: int, text: Seq<char> },
    AddAnswers { question_id: int, answers: Seq<AnswerV> },
}

/// Mathematical view of a response.
pub enum ResponseV {
    Quizzes(Seq<QuizV>),
    Questions(Seq<QuestionV>),
    Success(Seq<char>),
    Error(Seq<char>),
}

impl View for Quiz {
    type V = QuizV;

    open spec fn view(&self) -> QuizV {
        QuizV { id: self.id as int, name: self.name@ }
    }
}

impl View for Question {
    type V = QuestionV;

    open spec fn view(&self) -> QuestionV {
        QuestionV { id: self.id as int, quiz_id: self.quiz_id as int, text: self.text@ }
    }
}

impl View for Answer {
    type V = AnswerV;

    open spec fn view(&self) -> AnswerV {
        AnswerV {
            id: self.id as int,
            question_id: self.question_id as int,
            text: self.text@,
            is_correct: self.is_correct,
        }
    }
}

impl View for Request {
    type V = RequestV;

    open spec fn view(&self) -> RequestV {
        match self {
            Request::GetQuizzes => RequestV::GetQuizzes,
            Request::GetQuestionsForQuiz { quiz_id } => RequestV::GetQuestionsForQuiz {
                quiz_id: *quiz_id as int,
            },
            Request::AddQuiz { name } => RequestV::AddQuiz { name: name@ },
            Request::AddQuestion { quiz_id, text } => RequestV::AddQuestion {
                quiz_id: *quiz_id as int,
                text: text@,
            },
            Request::AddAnswers { question_id, answers } => RequestV::AddAnswers {
                question_id: *question_id as int,
                answers: answers@.map_values(|a: Answer| a@),
            },
        }
    }
}

impl View for Response {
    type V = ResponseV;

    open spec fn view(&self) -> ResponseV {
        match self {
            Response::Quizzes(v) => ResponseV::Quizzes(v@.map_values(|q: Quiz| q@)),
            Response::Questions(v) => ResponseV::Questions(v@.map_values(|q: Question| q@)),
            Response::Success(m) => ResponseV::Success(m@),
            Response::Error(m) => ResponseV::Error(m@),
        }
    }
}

impl Quiz {
    /// Builds a quiz row from its parts.
    pub fn new(id: i32, name: String) -> (q: Quiz)
        ensures
            q@ == (QuizV { id: id as int, name: name@ }),
    {
        Quiz { id, name }
    }
}

impl Question {
    /// Builds a question row from its parts.
    pub fn new(id: i32, quiz_id: i32, text: String) -> (q: Question)
        ensures
            q@ == (QuestionV { id: id as int, quiz_id: quiz_id as int, text: text@ }),
    {
        Question { id, quiz_id, text }
    }
}

impl Answer {
    /// Builds an answer row from its parts.
    pub fn new(id: i32, question_id: i32, text: String, is_correct: bool) -> (a: Answer)
        ensures
            a@ == (AnswerV {
                id: id as int,
                question_id: question_id as int,
                text: text@,
                is_correct,
            }),
    {
        Answer { id, question_id, text, is_correct }
    }
}

} // verus!
